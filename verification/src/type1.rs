//! Type 1 font decisions: the fourteen base fonts, the font name of a
//! subset, the descriptor flags, the glyphs probed for metrics, and the
//! character range of the widths array.
use vstd::prelude::*;
use crate::bytes::{has_subslice, bytes_eq, contains_subslice, concat};

verus! {

/// The fourteen standard PDF base fonts, which are used without embedding.
pub open spec fn basefont_names() -> Seq<Seq<u8>> {
    seq![
        seq!['C' as u8, 'o' as u8, 'u' as u8, 'r' as u8, 'i' as u8, 'e' as u8, 'r' as u8],
        seq!['C' as u8, 'o' as u8, 'u' as u8, 'r' as u8, 'i' as u8, 'e' as u8, 'r' as u8, '-' as u8, 'B' as u8, 'o' as u8, 'l' as u8, 'd' as u8],
        seq!['C' as u8, 'o' as u8, 'u' as u8, 'r' as u8, 'i' as u8, 'e' as u8, 'r' as u8, '-' as u8, 'O' as u8, 'b' as u8, 'l' as u8, 'i' as u8, 'q' as u8, 'u' as u8, 'e' as u8],
        seq!['C' as u8, 'o' as u8, 'u' as u8, 'r' as u8, 'i' as u8, 'e' as u8, 'r' as u8, '-' as u8, 'B' as u8, 'o' as u8, 'l' as u8, 'd' as u8, 'O' as u8, 'b' as u8, 'l' as u8, 'i' as u8, 'q' as u8, 'u' as u8, 'e' as u8],
        seq!['H' as u8, 'e' as u8, 'l' as u8, 'v' as u8, 'e' as u8, 't' as u8, 'i' as u8, 'c' as u8, 'a' as u8],
        seq!['H' as u8, 'e' as u8, 'l' as u8, 'v' as u8, 'e' as u8, 't' as u8, 'i' as u8, 'c' as u8, 'a' as u8, '-' as u8, 'B' as u8, 'o' as u8, 'l' as u8, 'd' as u8],
        seq!['H' as u8, 'e' as u8, 'l' as u8, 'v' as u8, 'e' as u8, 't' as u8, 'i' as u8, 'c' as u8, 'a' as u8, '-' as u8, 'O' as u8, 'b' as u8, 'l' as u8, 'i' as u8, 'q' as u8, 'u' as u8, 'e' as u8],
        seq!['H' as u8, 'e' as u8, 'l' as u8, 'v' as u8, 'e' as u8, 't' as u8, 'i' as u8, 'c' as u8, 'a' as u8, '-' as u8, 'B' as u8, 'o' as u8, 'l' as u8, 'd' as u8, 'O' as u8, 'b' as u8, 'l' as u8, 'i' as u8, 'q' as u8, 'u' as u8, 'e' as u8],
        seq!['S' as u8, 'y' as u8, 'm' as u8, 'b' as u8, 'o' as u8, 'l' as u8],
        seq!['T' as u8, 'i' as u8, 'm' as u8, 'e' as u8, 's' as u8, '-' as u8, 'R' as u8, 'o' as u8, 'm' as u8, 'a' as u8, 'n' as u8],
        seq!['T' as u8, 'i' as u8, 'm' as u8, 'e' as u8, 's' as u8, '-' as u8, 'B' as u8, 'o' as u8, 'l' as u8, 'd' as u8],
        seq!['T' as u8, 'i' as u8, 'm' as u8, 'e' as u8, 's' as u8, '-' as u8, 'I' as u8, 't' as u8, 'a' as u8, 'l' as u8, 'i' as u8, 'c' as u8],
        seq!['T' as u8, 'i' as u8, 'm' as u8, 'e' as u8, 's' as u8, '-' as u8, 'B' as u8, 'o' as u8, 'l' as u8, 'd' as u8, 'I' as u8, 't' as u8, 'a' as u8, 'l' as u8, 'i' as u8, 'c' as u8],
        seq!['Z' as u8, 'a' as u8, 'p' as u8, 'f' as u8, 'D' as u8, 'i' as u8, 'n' as u8, 'g' as u8, 'b' as u8, 'a' as u8, 't' as u8, 's' as u8],
    ]
}

/// The name of base font `i`.
fn basefont_name(i: usize) -> (r: Vec<u8>)
    requires
        i < 14,
    ensures
        r@ == basefont_names()[i as int],
{
    let r = match i {
        0 => vec!['C' as u8, 'o' as u8, 'u' as u8, 'r' as u8, 'i' as u8, 'e' as u8, 'r' as u8],
        1 => vec!['C' as u8, 'o' as u8, 'u' as u8, 'r' as u8, 'i' as u8, 'e' as u8, 'r' as u8, '-' as u8, 'B' as u8, 'o' as u8, 'l' as u8, 'd' as u8],
        2 => vec!['C' as u8, 'o' as u8, 'u' as u8, 'r' as u8, 'i' as u8, 'e' as u8, 'r' as u8, '-' as u8, 'O' as u8, 'b' as u8, 'l' as u8, 'i' as u8, 'q' as u8, 'u' as u8, 'e' as u8],
        3 => vec!['C' as u8, 'o' as u8, 'u' as u8, 'r' as u8, 'i' as u8, 'e' as u8, 'r' as u8, '-' as u8, 'B' as u8, 'o' as u8, 'l' as u8, 'd' as u8, 'O' as u8, 'b' as u8, 'l' as u8, 'i' as u8, 'q' as u8, 'u' as u8, 'e' as u8],
        4 => vec!['H' as u8, 'e' as u8, 'l' as u8, 'v' as u8, 'e' as u8, 't' as u8, 'i' as u8, 'c' as u8, 'a' as u8],
        5 => vec!['H' as u8, 'e' as u8, 'l' as u8, 'v' as u8, 'e' as u8, 't' as u8, 'i' as u8, 'c' as u8, 'a' as u8, '-' as u8, 'B' as u8, 'o' as u8, 'l' as u8, 'd' as u8],
        6 => vec!['H' as u8, 'e' as u8, 'l' as u8, 'v' as u8, 'e' as u8, 't' as u8, 'i' as u8, 'c' as u8, 'a' as u8, '-' as u8, 'O' as u8, 'b' as u8, 'l' as u8, 'i' as u8, 'q' as u8, 'u' as u8, 'e' as u8],
        7 => vec!['H' as u8, 'e' as u8, 'l' as u8, 'v' as u8, 'e' as u8, 't' as u8, 'i' as u8, 'c' as u8, 'a' as u8, '-' as u8, 'B' as u8, 'o' as u8, 'l' as u8, 'd' as u8, 'O' as u8, 'b' as u8, 'l' as u8, 'i' as u8, 'q' as u8, 'u' as u8, 'e' as u8],
        8 => vec!['S' as u8, 'y' as u8, 'm' as u8, 'b' as u8, 'o' as u8, 'l' as u8],
        9 => vec!['T' as u8, 'i' as u8, 'm' as u8, 'e' as u8, 's' as u8, '-' as u8, 'R' as u8, 'o' as u8, 'm' as u8, 'a' as u8, 'n' as u8],
        10 => vec!['T' as u8, 'i' as u8, 'm' as u8, 'e' as u8, 's' as u8, '-' as u8, 'B' as u8, 'o' as u8, 'l' as u8, 'd' as u8],
        11 => vec!['T' as u8, 'i' as u8, 'm' as u8, 'e' as u8, 's' as u8, '-' as u8, 'I' as u8, 't' as u8, 'a' as u8, 'l' as u8, 'i' as u8, 'c' as u8],
        12 => vec!['T' as u8, 'i' as u8, 'm' as u8, 'e' as u8, 's' as u8, '-' as u8, 'B' as u8, 'o' as u8, 'l' as u8, 'd' as u8, 'I' as u8, 't' as u8, 'a' as u8, 'l' as u8, 'i' as u8, 'c' as u8],
        _ => vec!['Z' as u8, 'a' as u8, 'p' as u8, 'f' as u8, 'D' as u8, 'i' as u8, 'n' as u8, 'g' as u8, 'b' as u8, 'a' as u8, 't' as u8, 's' as u8],
    };
    assert(r@ =~= basefont_names()[i as int]);
    r
}

/// The base fonts are exactly the fourteen standard PDF fonts: Courier,
/// Courier-Bold, Courier-Oblique, Courier-BoldOblique, Helvetica,
/// Helvetica-Bold, Helvetica-Oblique, Helvetica-BoldOblique, Symbol,
/// Times-Roman, Times-Bold, Times-Italic, Times-BoldItalic and ZapfDingbats.
pub proof fn law_base_fonts_are_the_standard_fourteen(name: Seq<u8>)
    ensures
        basefont_names().contains(name) <==> (
                name =~= seq!['C' as u8, 'o' as u8, 'u' as u8, 'r' as u8, 'i' as u8, 'e' as u8, 'r' as u8]
            || name =~= seq!['C' as u8, 'o' as u8, 'u' as u8, 'r' as u8, 'i' as u8, 'e' as u8, 'r' as u8, '-' as u8, 'B' as u8, 'o' as u8, 'l' as u8, 'd' as u8]
            || name =~= seq!['C' as u8, 'o' as u8, 'u' as u8, 'r' as u8, 'i' as u8, 'e' as u8, 'r' as u8, '-' as u8, 'O' as u8, 'b' as u8, 'l' as u8, 'i' as u8, 'q' as u8, 'u' as u8, 'e' as u8]
            || name =~= seq!['C' as u8, 'o' as u8, 'u' as u8, 'r' as u8, 'i' as u8, 'e' as u8, 'r' as u8, '-' as u8, 'B' as u8, 'o' as u8, 'l' as u8, 'd' as u8, 'O' as u8, 'b' as u8, 'l' as u8, 'i' as u8, 'q' as u8, 'u' as u8, 'e' as u8]
            || name =~= seq!['H' as u8, 'e' as u8, 'l' as u8, 'v' as u8, 'e' as u8, 't' as u8, 'i' as u8, 'c' as u8, 'a' as u8]
            || name =~= seq!['H' as u8, 'e' as u8, 'l' as u8, 'v' as u8, 'e' as u8, 't' as u8, 'i' as u8, 'c' as u8, 'a' as u8, '-' as u8, 'B' as u8, 'o' as u8, 'l' as u8, 'd' as u8]
            || name =~= seq!['H' as u8, 'e' as u8, 'l' as u8, 'v' as u8, 'e' as u8, 't' as u8, 'i' as u8, 'c' as u8, 'a' as u8, '-' as u8, 'O' as u8, 'b' as u8, 'l' as u8, 'i' as u8, 'q' as u8, 'u' as u8, 'e' as u8]
            || name =~= seq!['H' as u8, 'e' as u8, 'l' as u8, 'v' as u8, 'e' as u8, 't' as u8, 'i' as u8, 'c' as u8, 'a' as u8, '-' as u8, 'B' as u8, 'o' as u8, 'l' as u8, 'd' as u8, 'O' as u8, 'b' as u8, 'l' as u8, 'i' as u8, 'q' as u8, 'u' as u8, 'e' as u8]
            || name =~= seq!['S' as u8, 'y' as u8, 'm' as u8, 'b' as u8, 'o' as u8, 'l' as u8]
            || name =~= seq!['T' as u8, 'i' as u8, 'm' as u8, 'e' as u8, 's' as u8, '-' as u8, 'R' as u8, 'o' as u8, 'm' as u8, 'a' as u8, 'n' as u8]
            || name =~= seq!['T' as u8, 'i' as u8, 'm' as u8, 'e' as u8, 's' as u8, '-' as u8, 'B' as u8, 'o' as u8, 'l' as u8, 'd' as u8]
            || name =~= seq!['T' as u8, 'i' as u8, 'm' as u8, 'e' as u8, 's' as u8, '-' as u8, 'I' as u8, 't' as u8, 'a' as u8, 'l' as u8, 'i' as u8, 'c' as u8]
            || name =~= seq!['T' as u8, 'i' as u8, 'm' as u8, 'e' as u8, 's' as u8, '-' as u8, 'B' as u8, 'o' as u8, 'l' as u8, 'd' as u8, 'I' as u8, 't' as u8, 'a' as u8, 'l' as u8, 'i' as u8, 'c' as u8]
            || name =~= seq!['Z' as u8, 'a' as u8, 'p' as u8, 'f' as u8, 'D' as u8, 'i' as u8, 'n' as u8, 'g' as u8, 'b' as u8, 'a' as u8, 't' as u8, 's' as u8]
        ),
{
    assert(basefont_names()[0] =~= seq!['C' as u8, 'o' as u8, 'u' as u8, 'r' as u8, 'i' as u8, 'e' as u8, 'r' as u8]);
    assert(basefont_names()[1] =~= seq!['C' as u8, 'o' as u8, 'u' as u8, 'r' as u8, 'i' as u8, 'e' as u8, 'r' as u8, '-' as u8, 'B' as u8, 'o' as u8, 'l' as u8, 'd' as u8]);
    assert(basefont_names()[2] =~= seq!['C' as u8, 'o' as u8, 'u' as u8, 'r' as u8, 'i' as u8, 'e' as u8, 'r' as u8, '-' as u8, 'O' as u8, 'b' as u8, 'l' as u8, 'i' as u8, 'q' as u8, 'u' as u8, 'e' as u8]);
    assert(basefont_names()[3] =~= seq!['C' as u8, 'o' as u8, 'u' as u8, 'r' as u8, 'i' as u8, 'e' as u8, 'r' as u8, '-' as u8, 'B' as u8, 'o' as u8, 'l' as u8, 'd' as u8, 'O' as u8, 'b' as u8, 'l' as u8, 'i' as u8, 'q' as u8, 'u' as u8, 'e' as u8]);
    assert(basefont_names()[4] =~= seq!['H' as u8, 'e' as u8, 'l' as u8, 'v' as u8, 'e' as u8, 't' as u8, 'i' as u8, 'c' as u8, 'a' as u8]);
    assert(basefont_names()[5] =~= seq!['H' as u8, 'e' as u8, 'l' as u8, 'v' as u8, 'e' as u8, 't' as u8, 'i' as u8, 'c' as u8, 'a' as u8, '-' as u8, 'B' as u8, 'o' as u8, 'l' as u8, 'd' as u8]);
    assert(basefont_names()[6] =~= seq!['H' as u8, 'e' as u8, 'l' as u8, 'v' as u8, 'e' as u8, 't' as u8, 'i' as u8, 'c' as u8, 'a' as u8, '-' as u8, 'O' as u8, 'b' as u8, 'l' as u8, 'i' as u8, 'q' as u8, 'u' as u8, 'e' as u8]);
    assert(basefont_names()[7] =~= seq!['H' as u8, 'e' as u8, 'l' as u8, 'v' as u8, 'e' as u8, 't' as u8, 'i' as u8, 'c' as u8, 'a' as u8, '-' as u8, 'B' as u8, 'o' as u8, 'l' as u8, 'd' as u8, 'O' as u8, 'b' as u8, 'l' as u8, 'i' as u8, 'q' as u8, 'u' as u8, 'e' as u8]);
    assert(basefont_names()[8] =~= seq!['S' as u8, 'y' as u8, 'm' as u8, 'b' as u8, 'o' as u8, 'l' as u8]);
    assert(basefont_names()[9] =~= seq!['T' as u8, 'i' as u8, 'm' as u8, 'e' as u8, 's' as u8, '-' as u8, 'R' as u8, 'o' as u8, 'm' as u8, 'a' as u8, 'n' as u8]);
    assert(basefont_names()[10] =~= seq!['T' as u8, 'i' as u8, 'm' as u8, 'e' as u8, 's' as u8, '-' as u8, 'B' as u8, 'o' as u8, 'l' as u8, 'd' as u8]);
    assert(basefont_names()[11] =~= seq!['T' as u8, 'i' as u8, 'm' as u8, 'e' as u8, 's' as u8, '-' as u8, 'I' as u8, 't' as u8, 'a' as u8, 'l' as u8, 'i' as u8, 'c' as u8]);
    assert(basefont_names()[12] =~= seq!['T' as u8, 'i' as u8, 'm' as u8, 'e' as u8, 's' as u8, '-' as u8, 'B' as u8, 'o' as u8, 'l' as u8, 'd' as u8, 'I' as u8, 't' as u8, 'a' as u8, 'l' as u8, 'i' as u8, 'c' as u8]);
    assert(basefont_names()[13] =~= seq!['Z' as u8, 'a' as u8, 'p' as u8, 'f' as u8, 'D' as u8, 'i' as u8, 'n' as u8, 'g' as u8, 'b' as u8, 'a' as u8, 't' as u8, 's' as u8]);
    if basefont_names().contains(name) {
        let i = choose|i: int| 0 <= i < basefont_names().len() && basefont_names()[i] == name;
    }
    assert(basefont_names().len() == 14);
}

/// Whether `name` is one of the fourteen base fonts.
pub fn is_basefont(name: &[u8]) -> (r: bool)
    ensures
        r == basefont_names().contains(name@),
{
    let mut i: usize = 0;
    while i < 14
        invariant
            i <= 14,
            forall|j: int| 0 <= j < i ==> basefont_names()[j] != name@,
        decreases 14 - i,
    {
        let candidate = basefont_name(i);
        if bytes_eq(candidate.as_slice(), name) {
            assert(basefont_names()[i as int] == name@);
            return true;
        }
        i = i + 1;
    }
    assert(basefont_names().len() == 14);
    false
}

/// The glyphs probed, in order, for the cap height of a font.
pub open spec fn cap_height_probe_glyphs() -> Seq<Seq<u8>> {
    seq![seq!['H' as u8], seq!['P' as u8], seq!['P' as u8, 'i' as u8], seq!['R' as u8, 'h' as u8, 'o' as u8]]
}

/// The glyphs probed, in order, for the cap height of a font.
pub fn cap_height_probes() -> (r: Vec<Vec<u8>>)
    ensures
        r@.len() == cap_height_probe_glyphs().len(),
        forall|i: int| 0 <= i < r@.len() ==> #[trigger] r@[i]@ == cap_height_probe_glyphs()[i],
{
    let mut r: Vec<Vec<u8>> = Vec::new();
    r.push(vec!['H' as u8]);
    r.push(vec!['P' as u8]);
    r.push(vec!['P' as u8, 'i' as u8]);
    r.push(vec!['R' as u8, 'h' as u8, 'o' as u8]);
    assert forall|i: int| 0 <= i < r@.len() implies #[trigger] r@[i]@ == cap_height_probe_glyphs()[i] by {
        assert(r@[i]@ =~= cap_height_probe_glyphs()[i]);
    }
    r
}

/// The glyphs probed, in order, for the descent of a font.
pub open spec fn descent_probe_glyphs() -> Seq<Seq<u8>> {
    seq![seq!['p' as u8], seq!['q' as u8], seq!['m' as u8, 'u' as u8], seq!['e' as u8, 't' as u8, 'a' as u8]]
}

/// The glyphs probed, in order, for the descent of a font.
pub fn descent_probes() -> (r: Vec<Vec<u8>>)
    ensures
        r@.len() == descent_probe_glyphs().len(),
        forall|i: int| 0 <= i < r@.len() ==> #[trigger] r@[i]@ == descent_probe_glyphs()[i],
{
    let mut r: Vec<Vec<u8>> = Vec::new();
    r.push(vec!['p' as u8]);
    r.push(vec!['q' as u8]);
    r.push(vec!['m' as u8, 'u' as u8]);
    r.push(vec!['e' as u8, 't' as u8, 'a' as u8]);
    assert forall|i: int| 0 <= i < r@.len() implies #[trigger] r@[i]@ == descent_probe_glyphs()[i] by {
        assert(r@[i]@ =~= descent_probe_glyphs()[i]);
    }
    r
}

/// The glyphs probed, in order, for the ascent of a font.
pub open spec fn ascent_probe_glyphs() -> Seq<Seq<u8>> {
    seq![seq!['b' as u8], seq!['h' as u8], seq!['l' as u8, 'a' as u8, 'm' as u8, 'b' as u8, 'd' as u8, 'a' as u8]]
}

/// The glyphs probed, in order, for the ascent of a font.
pub fn ascent_probes() -> (r: Vec<Vec<u8>>)
    ensures
        r@.len() == ascent_probe_glyphs().len(),
        forall|i: int| 0 <= i < r@.len() ==> #[trigger] r@[i]@ == ascent_probe_glyphs()[i],
{
    let mut r: Vec<Vec<u8>> = Vec::new();
    r.push(vec!['b' as u8]);
    r.push(vec!['h' as u8]);
    r.push(vec!['l' as u8, 'a' as u8, 'm' as u8, 'b' as u8, 'd' as u8, 'a' as u8]);
    assert forall|i: int| 0 <= i < r@.len() implies #[trigger] r@[i]@ == ascent_probe_glyphs()[i] by {
        assert(r@[i]@ =~= ascent_probe_glyphs()[i]);
    }
    r
}

/// The glyph id `gid` names a glyph of a font with `glyph_count` glyphs.
pub open spec fn glyph_in_font(gid: i32, glyph_count: u16) -> bool {
    0 <= gid < glyph_count
}

/// The first probe whose glyph is in the font, given the glyph id the font
/// gives each probe in order; `None` when no probe is in the font.
pub fn first_glyph_in_font(gids: &[i32], glyph_count: u16) -> (r: Option<usize>)
    ensures
        match r {
            Some(i) => i < gids@.len() && glyph_in_font(gids@[i as int], glyph_count) && forall|j: int|
                0 <= j < i ==> !glyph_in_font(#[trigger] gids@[j], glyph_count),
            None => forall|j: int| 0 <= j < gids@.len() ==> !glyph_in_font(#[trigger] gids@[j], glyph_count),
        },
{
    let mut i: usize = 0;
    while i < gids.len()
        invariant
            i <= gids@.len(),
            forall|j: int| 0 <= j < i ==> !glyph_in_font(#[trigger] gids@[j], glyph_count),
        decreases gids@.len() - i,
    {
        if gids[i] >= 0 && gids[i] < glyph_count as i32 {
            return Some(i);
        }
        i = i + 1;
    }
    None
}

/// `Sans`: a font whose name lacks it is taken to have serifs.
pub open spec fn sans_marker() -> Seq<u8> {
    seq!['S' as u8, 'a' as u8, 'n' as u8, 's' as u8]
}

/// `Caps`: a font whose name has it is taken to be small-cap.
pub open spec fn caps_marker() -> Seq<u8> {
    seq!['C' as u8, 'a' as u8, 'p' as u8, 's' as u8]
}

/// The flags of a Type 1 font descriptor: FixedPitch (1) when `IsFixedPitch`
/// is set, Serif (2) when the font has a name without `Sans`, Symbolic (4)
/// always, Italic (64) when the italic angle is not zero, SmallCap (1 << 17)
/// when the font has a name with `Caps`, and ForceBold (1 << 18) when
/// `ForceBold` is set.
pub open spec fn descriptor_flags_of(
    italic: bool,
    force_bold: bool,
    fixed_pitch: bool,
    fontname: Option<Seq<u8>>,
) -> int {
    (if fixed_pitch { 1int } else { 0 }) + (if fontname matches Some(n) && !has_subslice(n, sans_marker()) {
        2int
    } else {
        0
    }) + 4 + (if italic { 64int } else { 0 }) + (if fontname matches Some(n) && has_subslice(n, caps_marker()) {
        0x2_0000int
    } else {
        0
    }) + (if force_bold { 0x4_0000int } else { 0 })
}

/// The flags of the font descriptor of a Type 1 font.
pub fn descriptor_flags(italic: bool, force_bold: bool, fixed_pitch: bool, fontname: Option<&[u8]>) -> (r: i32)
    ensures
        r == descriptor_flags_of(
            italic,
            force_bold,
            fixed_pitch,
            match fontname {
                Some(n) => Some(n@),
                None => None,
            },
        ),
{
    let sans = ['S' as u8, 'a' as u8, 'n' as u8, 's' as u8];
    let caps = ['C' as u8, 'a' as u8, 'p' as u8, 's' as u8];
    assert(sans@ =~= sans_marker());
    assert(caps@ =~= caps_marker());
    let mut flags: i32 = 0;
    if italic {
        flags = flags + 64;
    }
    if force_bold {
        flags = flags + 0x4_0000;
    }
    if fixed_pitch {
        flags = flags + 1;
    }
    match fontname {
        Some(n) => {
            if !contains_subslice(n, &sans) {
                flags = flags + 2;
            }
            if contains_subslice(n, &caps) {
                flags = flags + 0x2_0000;
            }
        },
        None => {},
    }
    flags + 4
}

/// Each descriptor flag answers its own question about the font: bit 0
/// (FixedPitch) is set exactly when `IsFixedPitch` is, bit 1 (Serif) exactly
/// when the font has a name without `Sans`, bit 2 (Symbolic) always, bit 6
/// (Italic) exactly when the italic angle is not zero, bit 17 (SmallCap)
/// exactly when the name has `Caps`, bit 18 (ForceBold) exactly when
/// `ForceBold` is set; no other bit is set.
pub proof fn law_descriptor_flag_bits(italic: bool, force_bold: bool, fixed_pitch: bool, fontname: Option<Seq<u8>>)
    ensures
        ({
            let f = descriptor_flags_of(italic, force_bold, fixed_pitch, fontname);
            let serif = fontname is Some && !has_subslice(fontname.unwrap(), sans_marker());
            let caps = fontname is Some && has_subslice(fontname.unwrap(), caps_marker());
            &&& f % 2 == (if fixed_pitch { 1int } else { 0 })
            &&& (f / 2) % 2 == (if serif { 1int } else { 0 })
            &&& (f / 4) % 2 == 1
            &&& (f / 8) % 8 == 0
            &&& (f / 64) % 2 == (if italic { 1int } else { 0 })
            &&& (f / 128) % 0x400 == 0
            &&& (f / 0x2_0000) % 2 == (if caps { 1int } else { 0 })
            &&& (f / 0x4_0000) % 2 == (if force_bold { 1int } else { 0 })
            &&& 0 <= f < 0x8_0000
        }),
{
    let serif = fontname is Some && !has_subslice(fontname.unwrap(), sans_marker());
    let caps = fontname is Some && has_subslice(fontname.unwrap(), caps_marker());
    let f = descriptor_flags_of(italic, force_bold, fixed_pitch, fontname);
    let a: int = if fixed_pitch { 1 } else { 0 };
    let b: int = if serif { 1 } else { 0 };
    let c: int = if italic { 1 } else { 0 };
    let d: int = if caps { 1 } else { 0 };
    let e: int = if force_bold { 1 } else { 0 };
    assert(f == a + 2 * b + 4 + 64 * c + 0x2_0000 * d + 0x4_0000 * e);
    assert(0 <= a <= 1 && 0 <= b <= 1 && 0 <= c <= 1 && 0 <= d <= 1 && 0 <= e <= 1);
    assert(f % 2 == a && (f / 2) % 2 == b && (f / 4) % 2 == 1 && (f / 8) % 8 == 0 && (f / 64) % 2 == c
        && (f / 128) % 0x400 == 0 && (f / 0x2_0000) % 2 == d && (f / 0x4_0000) % 2 == e && 0 <= f < 0x8_0000)
        by (nonlinear_arith)
        requires
            f == a + 2 * b + 4 + 64 * c + 0x2_0000 * d + 0x4_0000 * e,
            0 <= a <= 1,
            0 <= b <= 1,
            0 <= c <= 1,
            0 <= d <= 1,
            0 <= e <= 1,
    ;
}

/// The descriptor flags of a base font: FixedPitch and Symbolic.
pub open spec fn basefont_flags() -> int {
    5
}

/// How a Type 1 font is set up: its font name, its subtype (0 for Type 1)
/// and, for a base font, its descriptor flags.
pub struct Type1FontSetup {
    pub fontname: Vec<u8>,
    pub subtype: i32,
    pub flags: Option<i32>,
}

/// Opening a Type 1 font failed: the file is not a PFB font or its font
/// name could not be read.
#[derive(Clone, Copy, Debug, PartialEq, Eq, Structural)]
pub enum Type1OpenError {
    FailedToRead,
}

/// The setup of a base font, which needs no font file: the identifier is the
/// font name. `None` for any other font, whose file has to be read.
pub fn basefont_setup(ident: &[u8]) -> (r: Option<Type1FontSetup>)
    ensures
        match r {
            Some(s) => basefont_names().contains(ident@) && s.fontname@ == ident@ && s.subtype == 0
                && s.flags == Some(basefont_flags() as i32),
            None => !basefont_names().contains(ident@),
        },
{
    if is_basefont(ident) {
        Some(Type1FontSetup { fontname: concat(ident, &[]), subtype: 0, flags: Some(5) })
    } else {
        None
    }
}

/// The setup of a font read from its file, given the font name read from a
/// PFB file (`None` when the file is not a PFB font or has no readable name).
pub fn font_file_setup(read_fontname: Option<&[u8]>) -> (r: Result<Type1FontSetup, Type1OpenError>)
    ensures
        match read_fontname {
            Some(n) => r matches Ok(s) && s.fontname@ == n@ && s.subtype == 0 && s.flags is None,
            None => r == Err::<Type1FontSetup, Type1OpenError>(Type1OpenError::FailedToRead),
        },
{
    match read_fontname {
        Some(n) => Ok(Type1FontSetup { fontname: concat(n, &[]), subtype: 0, flags: None }),
        None => Err(Type1OpenError::FailedToRead),
    }
}

/// `n` spaces.
pub open spec fn spaces(n: int) -> Seq<u8> {
    Seq::new(if n > 0 { n as nat } else { 0 }, |i: int| ' ' as u8)
}

/// The name of a subset font, as `%6s+%s` prints it: the tag right-aligned
/// in six columns, `+`, and the font name.
pub open spec fn subset_name(tag: Seq<u8>, fontname: Seq<u8>) -> Seq<u8> {
    spaces(6 - tag.len()) + tag + seq!['+' as u8] + fontname
}

/// The name under which a subset of `fontname` with the unique tag `tag` is
/// embedded.
pub fn subset_font_name(tag: &[u8], fontname: &[u8]) -> (r: Vec<u8>)
    ensures
        r@ == subset_name(tag@, fontname@),
{
    let mut r: Vec<u8> = Vec::new();
    let mut pad: usize = if tag.len() < 6 { 6 - tag.len() } else { 0 };
    while pad > 0
        invariant
            r@ == spaces(r@.len() as int),
            r@.len() + pad == if tag@.len() < 6 { 6 - tag@.len() } else { 0 },
        decreases pad,
    {
        r.push(' ' as u8);
        pad = pad - 1;
        assert(r@ =~= spaces(r@.len() as int));
    }
    assert(r@ =~= spaces(6 - tag@.len()));
    let r1 = concat(r.as_slice(), tag);
    let plus = ['+' as u8];
    let r2 = concat(r1.as_slice(), &plus);
    let r3 = concat(r2.as_slice(), fontname);
    assert(plus@ =~= seq!['+' as u8]);
    r3
}

/// The range of character codes the widths array of a font covers.
#[derive(Clone, Copy, Debug, PartialEq, Eq, Structural)]
pub enum CharRange {
    /// The font has at most one glyph: the range is code 0 alone, with a
    /// zero width.
    Placeholder,
    /// No character is used: the font gets no widths and no range.
    NoneUsed,
    /// The codes from the first used one to the last used one.
    Codes { first: u8, last: u8 },
}

/// The character range of the widths array: code 0 alone when the font has
/// at most one glyph, otherwise from the first to the last used code
/// (`NoneUsed` when there is none).
pub fn metrics_char_range(used: &[bool], num_glyphs: i32) -> (r: CharRange)
    requires
        used@.len() == 256,
    ensures
        num_glyphs <= 1 ==> r == CharRange::Placeholder,
        num_glyphs > 1 ==> match r {
            CharRange::Placeholder => false,
            CharRange::NoneUsed => forall|c: int| 0 <= c < 256 ==> !#[trigger] used@[c],
            CharRange::Codes { first, last } => {
                &&& first <= last
                &&& used@[first as int]
                &&& used@[last as int]
                &&& forall|c: int| 0 <= c < 256 && #[trigger] used@[c] ==> first <= c <= last
            },
        },
{
    if num_glyphs <= 1 {
        return CharRange::Placeholder;
    }
    let mut first: usize = 255;
    let mut last: usize = 0;
    let mut any = false;
    let mut code: usize = 0;
    while code < 256
        invariant
            code <= 256,
            used@.len() == 256,
            first <= 255,
            last <= 255,
            any == exists|c: int| 0 <= c < code && #[trigger] used@[c],
            any ==> used@[first as int] && used@[last as int],
            forall|c: int| 0 <= c < code && #[trigger] used@[c] ==> first <= c <= last,
        decreases 256 - code,
    {
        if used[code] {
            if !any || code < first {
                first = code;
            }
            if !any || code > last {
                last = code;
            }
            any = true;
        }
        code = code + 1;
    }
    if !any {
        return CharRange::NoneUsed;
    }
    CharRange::Codes { first: first as u8, last: last as u8 }
}

/// A subset's name is its tag right-aligned in six columns (padded with
/// spaces on the left, never cut), then `+`, then the font name.
pub proof fn law_subset_name_shape(tag: Seq<u8>, fontname: Seq<u8>)
    ensures
        ({
            let r = subset_name(tag, fontname);
            let pad = if tag.len() < 6 { 6 - tag.len() } else { 0 };
            &&& r.len() == pad + tag.len() + 1 + fontname.len()
            &&& forall|i: int| 0 <= i < pad ==> r[i] == ' ' as u8
            &&& r.subrange(pad, pad + tag.len()) == tag
            &&& r[pad + tag.len()] == '+' as u8
            &&& r.subrange(pad + tag.len() + 1, r.len() as int) == fontname
        }),
{
    let r = subset_name(tag, fontname);
    let pad = if tag.len() < 6 { 6 - tag.len() } else { 0 };
    assert(spaces(6 - tag.len()).len() == pad);
    assert(r.subrange(pad, pad + tag.len()) =~= tag);
    assert(r.subrange(pad + tag.len() + 1, r.len() as int) =~= fontname);
}

/// A base font's descriptor flags are FixedPitch (1) and Symbolic (4).
pub proof fn law_basefont_flags()
    ensures
        basefont_flags() == 1 + 4,
{
}

/// The metric probes by name: `H`, `P`, `Pi`, `Rho` for the cap height;
/// `p`, `q`, `mu`, `eta` for the descent; `b`, `h`, `lambda` for the ascent.
pub proof fn law_metric_probe_names()
    ensures
        cap_height_probe_glyphs() == seq![seq!['H' as u8], seq!['P' as u8], seq!['P' as u8, 'i' as u8], seq!['R' as u8, 'h' as u8, 'o' as u8]],
        descent_probe_glyphs() == seq![seq!['p' as u8], seq!['q' as u8], seq!['m' as u8, 'u' as u8], seq!['e' as u8, 't' as u8, 'a' as u8]],
        ascent_probe_glyphs() == seq![seq!['b' as u8], seq!['h' as u8], seq!['l' as u8, 'a' as u8, 'm' as u8, 'b' as u8, 'd' as u8, 'a' as u8]],
{
    assert(cap_height_probe_glyphs() =~= seq![seq!['H' as u8], seq!['P' as u8], seq!['P' as u8, 'i' as u8], seq!['R' as u8, 'h' as u8, 'o' as u8]]);
    assert(descent_probe_glyphs() =~= seq![seq!['p' as u8], seq!['q' as u8], seq!['m' as u8, 'u' as u8], seq!['e' as u8, 't' as u8, 'a' as u8]]);
    assert(ascent_probe_glyphs() =~= seq![seq!['b' as u8], seq!['h' as u8], seq!['l' as u8, 'a' as u8, 'm' as u8, 'b' as u8, 'd' as u8, 'a' as u8]]);
}

} // verus!
