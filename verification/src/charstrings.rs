//! The charstring conversion loop of a font subset: glyphs pulled into the
//! subset by the `seac` (standard encoding accented character) operator, and
//! growth of the output charstring buffer.
use vstd::prelude::*;
use vstd::set_lib::{lemma_int_range, lemma_len_subset, set_int_range};
use crate::encoding::{
    distinct_glyphs, encoding_of, input_wf, law_glyph_map_follows_charset, law_subset_glyphs_distinct, EncodingInput,
    EncodingModel, EncodingPlan,
};

verus! {

/// What became of a glyph that uses `seac`.
#[derive(Clone, Copy, Debug, PartialEq, Eq, Structural)]
pub enum SeacOutcome {
    /// The accent glyph is not in the font; the glyph's width is not recorded.
    MissingAccent,
    /// The base glyph is not in the font; the glyph's width is not recorded.
    MissingBase,
    /// Both components are in the subset; each flag tells whether the glyph
    /// was appended to the glyph map (and so needs a charset entry).
    Added { accent_added: bool, base_added: bool },
}

/// `g` appended to `s` unless `s` already holds it.
pub open spec fn with_glyph(s: Seq<u16>, g: u16) -> Seq<u16> {
    if s.contains(g) {
        s
    } else {
        s.push(g)
    }
}

/// Whether `gid_map` holds `g`.
fn holds_glyph(gid_map: &Vec<u16>, g: u16) -> (r: bool)
    ensures
        r == gid_map@.contains(g),
{
    let mut i: usize = 0;
    while i < gid_map.len()
        invariant
            i <= gid_map@.len(),
            forall|j: int| 0 <= j < i ==> gid_map@[j] != g,
        decreases gid_map@.len() - i,
    {
        if gid_map[i] == g {
            assert(gid_map@[i as int] == g);
            return true;
        }
        i = i + 1;
    }
    false
}

/// Brings the components of a `seac` glyph into the subset: unless the
/// accent or the base glyph is missing from the font (a negative glyph id),
/// the accent glyph and then the base glyph are appended to the glyph map if
/// it does not hold them yet.
pub fn add_seac_components(gid_map: &mut Vec<u16>, accent_gid: i32, base_gid: i32) -> (r: SeacOutcome)
    requires
        accent_gid <= u16::MAX,
        base_gid <= u16::MAX,
    ensures
        accent_gid < 0 ==> r == SeacOutcome::MissingAccent && final(gid_map)@ == old(gid_map)@,
        accent_gid >= 0 && base_gid < 0 ==> r == SeacOutcome::MissingBase && final(gid_map)@ == old(
            gid_map,
        )@,
        accent_gid >= 0 && base_gid >= 0 ==> {
            let after_accent = with_glyph(old(gid_map)@, accent_gid as u16);
            &&& final(gid_map)@ == with_glyph(after_accent, base_gid as u16)
            &&& r == SeacOutcome::Added {
                accent_added: !old(gid_map)@.contains(accent_gid as u16),
                base_added: !after_accent.contains(base_gid as u16),
            }
        },
{
    if accent_gid < 0 {
        return SeacOutcome::MissingAccent;
    }
    if base_gid < 0 {
        return SeacOutcome::MissingBase;
    }
    let a = accent_gid as u16;
    let b = base_gid as u16;
    let accent_added = !holds_glyph(gid_map, a);
    if accent_added {
        gid_map.push(a);
    }
    let base_added = !holds_glyph(gid_map, b);
    if base_added {
        gid_map.push(b);
    }
    SeacOutcome::Added { accent_added, base_added }
}

/// Adding the `seac` components keeps what the glyph map held, in place,
/// leaves both components in it, adds at most two glyphs, and keeps a glyph
/// map without repeated glyphs free of repetitions.
pub proof fn law_seac_components_join_once(s: Seq<u16>, a: u16, b: u16)
    ensures
        ({
            let t = with_glyph(with_glyph(s, a), b);
            &&& t.len() <= s.len() + 2
            &&& t.subrange(0, s.len() as int) == s
            &&& t.contains(a)
            &&& t.contains(b)
            &&& distinct_glyphs(s) ==> distinct_glyphs(t)
        }),
{
    let s1 = with_glyph(s, a);
    let t = with_glyph(s1, b);
    if !s.contains(a) {
        assert(s1[s.len() as int] == a);
    }
    assert(s1.contains(a));
    if !s1.contains(b) {
        assert(t[s1.len() as int] == b);
    }
    assert(t.contains(b));
    if s1.contains(a) {
        let i = choose|i: int| 0 <= i < s1.len() && s1[i] == a;
        assert(t[i] == a);
    }
    assert(s1.subrange(0, s.len() as int) =~= s);
    assert(t.subrange(0, s1.len() as int) =~= s1);
    assert(t.subrange(0, s.len() as int) =~= s);
}

/// The capacity of the charstring buffer once the next glyph at `offset`
/// has been prepared for: grown by 131072 bytes when fewer than 65537 bytes
/// would be left beyond `offset`.
pub open spec fn capacity_after(offset: int, capacity: int) -> int {
    if offset + 65536 >= capacity {
        capacity + 131072
    } else {
        capacity
    }
}

/// The capacity of the charstring buffer before the next glyph is converted
/// (a conversion writes at most 65536 bytes): grown by 131072 bytes when
/// fewer than 65537 bytes would be left beyond `offset`.
pub fn charstring_capacity(offset: i32, capacity: i32) -> (r: i32)
    requires
        offset + 65536 <= i32::MAX,
        capacity + 131072 <= i32::MAX,
    ensures
        r == capacity_after(offset as int, capacity as int),
{
    if offset + 65536 >= capacity {
        capacity + 131072
    } else {
        capacity
    }
}


/// The `seac` components of a glyph: the standard-encoding codes and the
/// font's glyph ids of the accent and the base glyph (negative when the
/// font lacks the glyph).
#[derive(Clone, Copy, Debug, PartialEq, Eq, Structural)]
pub struct SeacComponents {
    pub accent_code: u8,
    pub accent_gid: i32,
    pub base_code: u8,
    pub base_gid: i32,
}

/// A charset entry of the subset: the glyph name of an encoded character
/// code, or the standard glyph name of a `seac` component.
#[derive(Clone, Copy, Debug, PartialEq, Eq, Structural)]
pub enum CharsetEntry {
    Code(u8),
    SeacComponent(u8),
}

/// The glyphs of a subset while their charstrings are converted: the
/// original glyph ids in subset order (entry 0 is `.notdef`), the charset
/// entries of the glyphs after `.notdef`, and, for each glyph converted so
/// far, whether its width was recorded.
pub struct GlyphSubset {
    pub gid_map: Vec<u16>,
    pub charset: Vec<CharsetEntry>,
    pub width_recorded: Vec<bool>,
}

/// The mathematical content of a [`GlyphSubset`].
pub struct GlyphSubsetModel {
    pub gid_map: Seq<u16>,
    pub charset: Seq<CharsetEntry>,
    pub width_recorded: Seq<bool>,
}

impl View for GlyphSubset {
    type V = GlyphSubsetModel;

    open spec fn view(&self) -> GlyphSubsetModel {
        GlyphSubsetModel {
            gid_map: self.gid_map@,
            charset: self.charset@,
            width_recorded: self.width_recorded@,
        }
    }
}

/// The subset as the encoding leaves it, before any charstring is converted.
pub open spec fn subset_start(m: EncodingModel) -> GlyphSubsetModel {
    GlyphSubsetModel {
        gid_map: m.gid_map,
        charset: m.charset_codes.map_values(|c: u8| CharsetEntry::Code(c)),
        width_recorded: Seq::empty(),
    }
}

/// Converting the next glyph, whose charstring has the `seac` components
/// `seac` (if any): a glyph whose accent or base is missing gets no width;
/// otherwise the accent and then the base glyph join the subset, each with
/// its charset entry, unless already in it.
pub open spec fn conversion_step(m: GlyphSubsetModel, seac: Option<SeacComponents>) -> GlyphSubsetModel {
    match seac {
        None => GlyphSubsetModel { width_recorded: m.width_recorded.push(true), ..m },
        Some(s) => if s.accent_gid < 0 || s.base_gid < 0 {
            GlyphSubsetModel { width_recorded: m.width_recorded.push(false), ..m }
        } else {
            let a = s.accent_gid as u16;
            let b = s.base_gid as u16;
            let g1 = with_glyph(m.gid_map, a);
            let c1 = if m.gid_map.contains(a) {
                m.charset
            } else {
                m.charset.push(CharsetEntry::SeacComponent(s.accent_code))
            };
            GlyphSubsetModel {
                gid_map: with_glyph(g1, b),
                charset: if g1.contains(b) {
                    c1
                } else {
                    c1.push(CharsetEntry::SeacComponent(s.base_code))
                },
                width_recorded: m.width_recorded.push(true),
            }
        },
    }
}

/// The subset after `n` glyphs have been converted, the `seac` components
/// of each glyph being looked up by its original glyph id in `table`.
pub open spec fn conversion_upto(m0: GlyphSubsetModel, table: Seq<Option<SeacComponents>>, n: nat) -> GlyphSubsetModel
    decreases n,
{
    if n == 0 {
        m0
    } else {
        let m = conversion_upto(m0, table, (n - 1) as nat);
        conversion_step(m, table[m.gid_map[n - 1] as int])
    }
}

/// The `seac` components of every glyph of a font with `table.len()` glyphs
/// are glyphs of that font (or missing).
pub open spec fn seac_table_wf(table: Seq<Option<SeacComponents>>) -> bool {
    &&& table.len() <= 0x1_0000
    &&& forall|g: int|
        0 <= g < table.len() ==> (#[trigger] table[g] matches Some(s) ==> s.accent_gid < table.len()
            && s.base_gid < table.len())
}

/// A subset of a font with `glyph_count` glyphs is well formed: one more
/// glyph than charset entries (`.notdef` has none), no glyph twice, every
/// glyph in the font, and no more glyphs converted than there are.
pub open spec fn subset_wf(m: GlyphSubsetModel, glyph_count: int) -> bool {
    &&& m.gid_map.len() == m.charset.len() + 1
    &&& distinct_glyphs(m.gid_map)
    &&& forall|i: int| 0 <= i < m.gid_map.len() ==> #[trigger] m.gid_map[i] < glyph_count
    &&& m.width_recorded.len() <= m.gid_map.len()
}

/// A width is recorded for a converted glyph unless it uses `seac` with a
/// missing component.
pub open spec fn width_recorded_for(seac: Option<SeacComponents>) -> bool {
    match seac {
        None => true,
        Some(s) => s.accent_gid >= 0 && s.base_gid >= 0,
    }
}

/// When `seac` has both components in the font, `gid_map` holds them.
pub open spec fn components_joined(gid_map: Seq<u16>, seac: Option<SeacComponents>) -> bool {
    match seac {
        None => true,
        Some(s) => s.accent_gid >= 0 && s.base_gid >= 0 ==> gid_map.contains(s.accent_gid as u16)
            && gid_map.contains(s.base_gid as u16),
    }
}

/// A subset without repeated glyphs, all below `glyph_count`, has at most
/// `glyph_count` glyphs.
proof fn lemma_distinct_glyphs_bounded(s: Seq<u16>, glyph_count: int)
    requires
        0 <= glyph_count,
        distinct_glyphs(s),
        forall|i: int| 0 <= i < s.len() ==> #[trigger] s[i] < glyph_count,
    ensures
        s.len() <= glyph_count,
{
    let t = s.map_values(|x: u16| x as int);
    assert(t.no_duplicates()) by {
        assert forall|i: int, j: int| 0 <= i < t.len() && 0 <= j < t.len() && i != j implies t[i] != t[j] by {
            if i < j {
                assert(s[i] != s[j]);
            } else {
                assert(s[j] != s[i]);
            }
        }
    }
    t.unique_seq_to_set();
    lemma_int_range(0, glyph_count);
    assert forall|x: int| t.to_set().contains(x) implies set_int_range(0, glyph_count).contains(x) by {
        let i = choose|i: int| 0 <= i < t.len() && t[i] == x;
        assert(s[i] < glyph_count);
    }
    lemma_len_subset(t.to_set(), set_int_range(0, glyph_count));
}

/// Converting a glyph keeps a well-formed subset well formed, keeps its
/// glyphs in place, and leaves the `seac` components of the converted glyph
/// in it; the width is recorded as [`width_recorded_for`] says.
pub proof fn law_conversion_step_keeps_subset_wf(m: GlyphSubsetModel, seac: Option<SeacComponents>, glyph_count: int)
    requires
        subset_wf(m, glyph_count),
        m.width_recorded.len() < m.gid_map.len(),
        seac matches Some(s) ==> s.accent_gid < glyph_count && s.base_gid < glyph_count,
        glyph_count <= 0x1_0000,
    ensures
        ({
            let n = conversion_step(m, seac);
            &&& subset_wf(n, glyph_count)
            &&& n.gid_map.len() <= glyph_count
            &&& n.gid_map.subrange(0, m.gid_map.len() as int) == m.gid_map
            &&& n.width_recorded == m.width_recorded.push(width_recorded_for(seac))
            &&& components_joined(n.gid_map, seac)
        }),
{
    let n = conversion_step(m, seac);
    assert(m.gid_map[0] < glyph_count);
    match seac {
        None => {
            assert(n.gid_map.subrange(0, m.gid_map.len() as int) =~= m.gid_map);
        },
        Some(s) => {
            if s.accent_gid < 0 || s.base_gid < 0 {
                assert(n.gid_map.subrange(0, m.gid_map.len() as int) =~= m.gid_map);
            } else {
                let a = s.accent_gid as u16;
                let b = s.base_gid as u16;
                law_seac_components_join_once(m.gid_map, a, b);
                let g1 = with_glyph(m.gid_map, a);
                assert forall|i: int| 0 <= i < n.gid_map.len() implies #[trigger] n.gid_map[i] < glyph_count by {
                    if i < m.gid_map.len() {
                        assert(n.gid_map.subrange(0, m.gid_map.len() as int)[i] == m.gid_map[i]);
                    } else if i < g1.len() {
                        assert(g1[i] == a);
                        assert(n.gid_map[i] == g1[i]);
                    } else {
                        assert(n.gid_map[i] == b);
                    }
                }
            }
        },
    }
    lemma_distinct_glyphs_bounded(n.gid_map, glyph_count);
}

/// Converts the next glyph of the subset, given the `seac` components its
/// charstring uses (if any).
pub fn convert_glyph_step(subset: &mut GlyphSubset, seac: Option<SeacComponents>)
    requires
        seac matches Some(s) ==> s.accent_gid <= u16::MAX && s.base_gid <= u16::MAX,
    ensures
        final(subset)@ == conversion_step(old(subset)@, seac),
{
    match seac {
        None => {
            subset.width_recorded.push(true);
        },
        Some(s) => {
            match add_seac_components(&mut subset.gid_map, s.accent_gid, s.base_gid) {
                SeacOutcome::MissingAccent | SeacOutcome::MissingBase => {
                    subset.width_recorded.push(false);
                },
                SeacOutcome::Added { accent_added, base_added } => {
                    if accent_added {
                        subset.charset.push(CharsetEntry::SeacComponent(s.accent_code));
                    }
                    if base_added {
                        subset.charset.push(CharsetEntry::SeacComponent(s.base_code));
                    }
                    subset.width_recorded.push(true);
                },
            }
        },
    }
}

/// The subset as the encoding leaves it.
pub fn start_subset(plan: &EncodingPlan) -> (r: GlyphSubset)
    ensures
        r@ == subset_start(plan@),
{
    let mut gid_map: Vec<u16> = Vec::new();
    let mut i: usize = 0;
    while i < plan.gid_map.len()
        invariant
            i <= plan.gid_map@.len(),
            gid_map@ == plan.gid_map@.take(i as int),
        decreases plan.gid_map@.len() - i,
    {
        gid_map.push(plan.gid_map[i]);
        i = i + 1;
        assert(gid_map@ =~= plan.gid_map@.take(i as int));
    }
    assert(plan.gid_map@.take(i as int) =~= plan.gid_map@);
    let mut charset: Vec<CharsetEntry> = Vec::new();
    let mut j: usize = 0;
    while j < plan.charset_codes.len()
        invariant
            j <= plan.charset_codes@.len(),
            charset@ == plan.charset_codes@.take(j as int).map_values(|c: u8| CharsetEntry::Code(c)),
        decreases plan.charset_codes@.len() - j,
    {
        charset.push(CharsetEntry::Code(plan.charset_codes[j]));
        j = j + 1;
        assert(charset@ =~= plan.charset_codes@.take(j as int).map_values(|c: u8| CharsetEntry::Code(c)));
    }
    assert(plan.charset_codes@.take(j as int) =~= plan.charset_codes@);
    GlyphSubset { gid_map, charset, width_recorded: Vec::new() }
}

/// Converts every glyph of a subset, starting from a subset with no glyph
/// converted, until the glyphs pulled in by `seac` are converted too; the
/// `seac` components of a glyph are those `table` gives for its original
/// glyph id. The finished subset has one glyph more than charset entries,
/// holds no glyph twice, keeps the glyphs it started with in place, holds
/// the components of every glyph that uses `seac`, and records a width for
/// every glyph but those whose `seac` components are missing.
pub fn convert_subset(start: GlyphSubset, table: &[Option<SeacComponents>]) -> (r: GlyphSubset)
    requires
        seac_table_wf(table@),
        subset_wf(start@, table@.len() as int),
        start.width_recorded@.len() == 0,
    ensures
        r@ == conversion_upto(start@, table@, r.width_recorded@.len()),
        r.width_recorded@.len() == r.gid_map@.len(),
        subset_wf(r@, table@.len() as int),
        r.gid_map@.subrange(0, start.gid_map@.len() as int) == start.gid_map@,
        forall|i: int|
            0 <= i < r.gid_map@.len() ==> #[trigger] r.width_recorded@[i] == width_recorded_for(
                table@[r.gid_map@[i] as int],
            ),
        forall|i: int|
            0 <= i < r.gid_map@.len() ==> components_joined(r.gid_map@, table@[#[trigger] r.gid_map@[i] as int]),
{
    let ghost m0 = start@;
    let ghost count = table@.len() as int;
    let mut subset = start;
    proof {
        lemma_distinct_glyphs_bounded(subset.gid_map@, count);
    }
    while subset.width_recorded.len() < subset.gid_map.len()
        invariant
            seac_table_wf(table@),
            count == table@.len(),
            subset@ == conversion_upto(m0, table@, subset.width_recorded@.len()),
            subset_wf(subset@, count),
            subset.gid_map@.len() <= count,
            subset.gid_map@.subrange(0, m0.gid_map.len() as int) == m0.gid_map,
            m0.gid_map.len() <= subset.gid_map@.len(),
            forall|i: int|
                0 <= i < subset.width_recorded@.len() ==> #[trigger] subset.width_recorded@[i]
                    == width_recorded_for(table@[subset.gid_map@[i] as int]),
            forall|i: int|
                0 <= i < subset.width_recorded@.len() ==> components_joined(
                    subset.gid_map@,
                    table@[#[trigger] subset.gid_map@[i] as int],
                ),
        decreases count - subset.width_recorded@.len(),
    {
        let ghost before = subset@;
        let k = subset.width_recorded.len();
        let g = subset.gid_map[k];
        assert(g < count);
        let seac = table[g as usize];
        proof {
            law_conversion_step_keeps_subset_wf(before, seac, count);
        }
        convert_glyph_step(&mut subset, seac);
        proof {
            let after = subset@;
            assert(after == conversion_upto(m0, table@, (k + 1) as nat));
            assert forall|i: int| 0 <= i < before.gid_map.len() implies after.gid_map[i] == before.gid_map[i] by {
                assert(after.gid_map.subrange(0, before.gid_map.len() as int)[i] == before.gid_map[i]);
            }
            assert(after.gid_map.subrange(0, m0.gid_map.len() as int) =~= m0.gid_map);
            assert forall|x: u16| before.gid_map.contains(x) implies after.gid_map.contains(x) by {
                let i = choose|i: int| 0 <= i < before.gid_map.len() && before.gid_map[i] == x;
                assert(after.gid_map[i] == x);
            }
            assert forall|i: int| 0 <= i < after.width_recorded.len() implies #[trigger] after.width_recorded[i]
                == width_recorded_for(table@[after.gid_map[i] as int]) by {
                if i < k {
                    assert(after.width_recorded[i] == before.width_recorded[i]);
                }
            }
            assert forall|i: int| 0 <= i < after.width_recorded.len() implies components_joined(
                after.gid_map,
                table@[#[trigger] after.gid_map[i] as int],
            ) by {
                if i < k {
                    assert(after.gid_map[i] == before.gid_map[i]);
                    let sc = table@[before.gid_map[i] as int];
                    assert(components_joined(before.gid_map, sc));
                    if let Some(c) = sc {
                        if c.accent_gid >= 0 && c.base_gid >= 0 {
                            assert(before.gid_map.contains(c.accent_gid as u16));
                            assert(before.gid_map.contains(c.base_gid as u16));
                        }
                    }
                }
            }
        }
    }
    subset
}

/// The subset a font's encoding leaves is well formed, with `.notdef`
/// first, under the conditions of `law_subset_glyphs_distinct` and when the
/// font has at least one glyph; by `convert_subset`, converting its
/// charstrings then keeps one glyph more than charset entries and no glyph
/// twice.
pub proof fn law_encoded_subset_is_well_formed(inp: EncodingInput)
    requires
        input_wf(inp),
        forall|c: int| 0 <= c < 256 && #[trigger] inp.used[c] ==> inp.glyphs[c] is Some,
        forall|c1: int, c2: int|
            0 <= c1 < 256 && 0 <= c2 < 256 ==> ((#[trigger] inp.glyphs[c1] == #[trigger] inp.glyphs[c2]) <==> (
            inp.gids[c1] == inp.gids[c2])),
        inp.notdef_gid < 1,
        inp.glyph_count >= 1,
    ensures
        subset_wf(subset_start(encoding_of(inp)), inp.glyph_count as int),
        subset_start(encoding_of(inp)).gid_map[0] == inp.notdef_gid,
{
    let m = encoding_of(inp);
    law_subset_glyphs_distinct(inp);
    law_glyph_map_follows_charset(inp);
    assert forall|i: int| 0 <= i < m.gid_map.len() implies #[trigger] m.gid_map[i] < inp.glyph_count by {
        if i > 0 {
            assert(1 <= inp.gids[m.charset_codes[i - 1] as int] < inp.glyph_count);
        }
    }
}


/// Each glyph that converting a glyph appends to the subset comes with the
/// charset entry of that glyph: the accent's standard code for the accent
/// glyph and the base's standard code for the base glyph, whether or not the
/// other component was already in the subset. Glyphs and entries already
/// there stay as they were, and only the two components can be appended.
pub proof fn law_seac_charset_entries_name_their_glyphs(m: GlyphSubsetModel, seac: Option<SeacComponents>)
    requires
        m.gid_map.len() == m.charset.len() + 1,
    ensures
        ({
            let n = conversion_step(m, seac);
            &&& n.gid_map.len() == n.charset.len() + 1
            &&& n.gid_map.subrange(0, m.gid_map.len() as int) == m.gid_map
            &&& n.charset.subrange(0, m.charset.len() as int) == m.charset
            &&& match seac {
                None => n.gid_map == m.gid_map,
                Some(s) => forall|i: int|
                    m.gid_map.len() <= i < n.gid_map.len() ==> {
                        ||| (#[trigger] n.gid_map[i] == s.accent_gid as u16 && n.charset[i - 1]
                            == CharsetEntry::SeacComponent(s.accent_code))
                        ||| (n.gid_map[i] == s.base_gid as u16 && n.gid_map[i] != s.accent_gid as u16
                            && n.charset[i - 1] == CharsetEntry::SeacComponent(s.base_code))
                    },
            }
        }),
{
    let n = conversion_step(m, seac);
    assert(n.gid_map.subrange(0, m.gid_map.len() as int) =~= m.gid_map);
    assert(n.charset.subrange(0, m.charset.len() as int) =~= m.charset);
    if let Some(s) = seac {
        if s.accent_gid >= 0 && s.base_gid >= 0 {
            let a = s.accent_gid as u16;
            let b = s.base_gid as u16;
            let g1 = with_glyph(m.gid_map, a);
            if !m.gid_map.contains(a) {
                assert(g1[m.gid_map.len() as int] == a);
                if a == b {
                    assert(g1.contains(b));
                }
            }
            if !g1.contains(b) && m.gid_map.contains(a) {
                assert(b != a);
            }
            if !g1.contains(b) && !m.gid_map.contains(a) {
                assert(b != a);
            }
        }
    }
}

/// After the capacity check there is room for a whole converted glyph
/// (65536 bytes) past `offset`, and the buffer never shrinks; it grows by
/// 131072 bytes only when that room was missing.
pub proof fn law_charstring_capacity_leaves_room(offset: i32, capacity: i32)
    requires
        offset + 65536 <= i32::MAX,
        capacity + 131072 <= i32::MAX,
        offset + 65536 < capacity + 131072,
    ensures
        ({
            let r = capacity_after(offset as int, capacity as int);
            &&& offset + 65536 < r
            &&& capacity <= r
            &&& (r != capacity <==> offset + 65536 >= capacity)
        }),
{
}

} // verus!
