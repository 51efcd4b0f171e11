//! The CFF encoding and charset that a subsetted Type 1 font is given: which
//! character codes keep their glyph, which glyphs enter the charset, how codes
//! are grouped into format 1 ranges, and which codes become supplements.
use vstd::prelude::*;
use crate::bytes::{bytes_eq, concat};

verus! {

/// Why a used character code was dropped from the subset.
#[derive(Clone, Copy, Debug, PartialEq, Eq, Structural)]
pub enum DropReason {
    /// The encoding maps the code to `.notdef`.
    MappedToNotdef,
    /// The glyph the encoding names is not in the font.
    MissingGlyph,
}

/// A used character code that was dropped, with the reason.
#[derive(Clone, Copy, Debug, PartialEq, Eq, Structural)]
pub struct DroppedCode {
    pub code: u8,
    pub reason: DropReason,
}

/// A format 1 encoding range: codes `first ..= first + n_left` map to
/// consecutive glyphs.
#[derive(Clone, Copy, Debug, PartialEq, Eq, Structural)]
pub struct CodeRange {
    pub first: u8,
    pub n_left: u8,
}

/// An encoding supplement. `code` is the earlier code whose glyph name equals
/// that of `source`; the supplement entry is written with `code` as its code
/// and the string id of `source`'s glyph name as its glyph.
#[derive(Clone, Copy, Debug, PartialEq, Eq, Structural)]
pub struct Supplement {
    pub code: u8,
    pub source: u8,
}

/// The result of laying out the encoding of a font subset.
pub struct EncodingPlan {
    /// The used-character flags after codes that cannot be shown are cleared.
    pub used: Vec<bool>,
    /// Original glyph ids, in subset order; entry 0 is `.notdef`.
    pub gid_map: Vec<u16>,
    /// The code of each subset glyph after `.notdef`, in order; its glyph
    /// name is the charset entry.
    pub charset_codes: Vec<u8>,
    /// Format 1 ranges of the encoding.
    pub ranges: Vec<CodeRange>,
    /// Supplements for codes whose glyph was already encoded.
    pub supplements: Vec<Supplement>,
    /// Used codes that were dropped, in code order.
    pub dropped: Vec<DroppedCode>,
}

/// The mathematical content of an [`EncodingPlan`].
pub struct EncodingModel {
    pub used: Seq<bool>,
    pub gid_map: Seq<u16>,
    pub charset_codes: Seq<u8>,
    pub ranges: Seq<CodeRange>,
    pub supplements: Seq<Supplement>,
    pub dropped: Seq<DroppedCode>,
}

impl View for EncodingPlan {
    type V = EncodingModel;

    open spec fn view(&self) -> EncodingModel {
        EncodingModel {
            used: self.used@,
            gid_map: self.gid_map@,
            charset_codes: self.charset_codes@,
            ranges: self.ranges@,
            supplements: self.supplements@,
            dropped: self.dropped@,
        }
    }
}

/// What the encoding is computed from: the used-character flags, the glyph
/// name the base encoding gives each code (if any), the glyph id the font
/// gives that name, the glyph id of `.notdef`, and the number of glyphs.
pub struct EncodingInput {
    pub used: Seq<bool>,
    pub glyphs: Seq<Option<Seq<u8>>>,
    pub gids: Seq<i32>,
    pub notdef_gid: u16,
    pub glyph_count: u16,
}

/// The name `.notdef`.
pub open spec fn notdef_name() -> Seq<u8> {
    seq!['.' as u8, 'n' as u8, 'o' as u8, 't' as u8, 'd' as u8, 'e' as u8, 'f' as u8]
}

/// The glyph names of a slice of optional names, by their byte contents.
pub open spec fn names_view(glyphs: Seq<Option<Vec<u8>>>) -> Seq<Option<Seq<u8>>> {
    Seq::new(
        glyphs.len(),
        |i: int|
            match glyphs[i] {
                Some(v) => Some(v@),
                None => None,
            },
    )
}

/// The code of the last glyph put in the charset, or -2 when there is none.
pub open spec fn last_code(m: EncodingModel) -> int {
    if m.charset_codes.len() == 0 {
        -2
    } else {
        m.charset_codes.last() as int
    }
}

/// Code `d` is still used and names the same glyph as `code`.
pub open spec fn same_glyph_in_use(used: Seq<bool>, glyphs: Seq<Option<Seq<u8>>>, code: int, d: int) -> bool {
    used[d] && glyphs[d] is Some && glyphs[d] == glyphs[code]
}

/// The first code in `d .. code` that is used and names the same glyph as
/// `code`, or `code` itself if there is none.
pub open spec fn duplicate_from(used: Seq<bool>, glyphs: Seq<Option<Seq<u8>>>, code: int, d: int) -> int
    decreases code - d,
{
    if d >= code {
        code
    } else if same_glyph_in_use(used, glyphs, code, d) {
        d
    } else {
        duplicate_from(used, glyphs, code, d + 1)
    }
}

/// The codes a range stands for.
pub open spec fn range_codes(r: CodeRange) -> Seq<u8> {
    Seq::new(r.n_left as nat + 1, |i: int| (r.first + i) as u8)
}

/// The codes a list of ranges stands for, in order: how a format 1 encoding
/// is decoded.
pub open spec fn expand_ranges(rs: Seq<CodeRange>) -> Seq<u8>
    decreases rs.len(),
{
    if rs.len() == 0 {
        Seq::empty()
    } else {
        expand_ranges(rs.drop_last()) + range_codes(rs.last())
    }
}

/// The encoding before any code is looked at.
pub open spec fn encoding_start(inp: EncodingInput) -> EncodingModel {
    EncodingModel {
        used: inp.used,
        gid_map: seq![inp.notdef_gid],
        charset_codes: Seq::empty(),
        ranges: Seq::empty(),
        supplements: Seq::empty(),
        dropped: Seq::empty(),
    }
}

/// How the encoding changes when code `code` is looked at.
pub open spec fn encoding_step(inp: EncodingInput, m: EncodingModel, code: int) -> EncodingModel {
    if !m.used[code] {
        m
    } else if inp.glyphs[code] == Some(notdef_name()) {
        EncodingModel {
            used: m.used.update(code, false),
            dropped: m.dropped.push(DroppedCode { code: code as u8, reason: DropReason::MappedToNotdef }),
            ..m
        }
    } else if inp.gids[code] < 1 || inp.gids[code] >= inp.glyph_count {
        EncodingModel {
            used: m.used.update(code, false),
            dropped: m.dropped.push(DroppedCode { code: code as u8, reason: DropReason::MissingGlyph }),
            ..m
        }
    } else {
        let d = duplicate_from(m.used, inp.glyphs, code, 0);
        if d < code {
            EncodingModel {
                supplements: m.supplements.push(Supplement { code: d as u8, source: code as u8 }),
                ..m
            }
        } else {
            EncodingModel {
                gid_map: m.gid_map.push(inp.gids[code] as u16),
                charset_codes: m.charset_codes.push(code as u8),
                ranges: if code != last_code(m) + 1 {
                    m.ranges.push(CodeRange { first: code as u8, n_left: 0 })
                } else {
                    m.ranges.update(
                        m.ranges.len() - 1,
                        CodeRange { first: m.ranges.last().first, n_left: (m.ranges.last().n_left + 1) as u8 },
                    )
                },
                ..m
            }
        }
    }
}

/// The encoding after codes `0 .. k` have been looked at.
pub open spec fn encoding_upto(inp: EncodingInput, k: int) -> EncodingModel
    decreases k,
{
    if k <= 0 {
        encoding_start(inp)
    } else {
        encoding_step(inp, encoding_upto(inp, k - 1), k - 1)
    }
}

/// The encoding of a whole 256-code font.
pub open spec fn encoding_of(inp: EncodingInput) -> EncodingModel {
    encoding_upto(inp, 256)
}


/// The input describes 256 codes.
pub open spec fn input_wf(inp: EncodingInput) -> bool {
    &&& inp.used.len() == 256
    &&& inp.glyphs.len() == 256
    &&& inp.gids.len() == 256
}

/// Code `c` has a glyph of its own in the subset.
pub open spec fn in_charset(m: EncodingModel, c: int) -> bool {
    exists|i: int| 0 <= i < m.charset_codes.len() && m.charset_codes[i] == c
}

/// Code `c` was encoded through a supplement.
pub open spec fn is_supplement_source(m: EncodingModel, c: int) -> bool {
    exists|j: int| 0 <= j < m.supplements.len() && m.supplements[j].source == c
}

/// What holds of the encoding after codes `0 .. k` have been looked at.
pub open spec fn encoding_inv(inp: EncodingInput, m: EncodingModel, k: int) -> bool {
    &&& 0 <= k <= 256
    &&& m.used.len() == 256
    &&& m.gid_map.len() == m.charset_codes.len() + 1
    &&& m.gid_map[0] == inp.notdef_gid
    &&& forall|i: int|
        0 <= i < m.charset_codes.len() ==> {
            &&& (#[trigger] m.charset_codes[i]) < k
            &&& 1 <= inp.gids[m.charset_codes[i] as int] < inp.glyph_count
            &&& m.gid_map[i + 1] == inp.gids[m.charset_codes[i] as int] as u16
        }
    &&& forall|i: int, j: int|
        0 <= i < j < m.charset_codes.len() ==> m.charset_codes[i] < m.charset_codes[j]
    &&& expand_ranges(m.ranges) == m.charset_codes
    &&& m.ranges.len() > 0 ==> m.ranges.last().first + m.ranges.last().n_left == last_code(m)
    &&& 2 * m.ranges.len() <= last_code(m) + 2
    &&& forall|j: int|
        0 <= j < m.supplements.len() ==> {
            &&& (#[trigger] m.supplements[j]).code < m.supplements[j].source < k
            &&& inp.glyphs[m.supplements[j].code as int] is Some
            &&& inp.glyphs[m.supplements[j].code as int] == inp.glyphs[m.supplements[j].source as int]
            &&& in_charset(m, m.supplements[j].code as int)
        }
    &&& forall|c: int|
        0 <= c < k ==> (#[trigger] m.used[c] <==> (in_charset(m, c) || is_supplement_source(m, c)))
    &&& forall|c: int| 0 <= c < 256 ==> (#[trigger] m.used[c] ==> inp.used[c])
    &&& forall|c: int| k <= c < 256 ==> #[trigger] m.used[c] == inp.used[c]
    &&& forall|j: int|
        0 <= j < m.dropped.len() ==> {
            &&& (#[trigger] m.dropped[j]).code < k
            &&& !m.used[m.dropped[j].code as int]
            &&& inp.used[m.dropped[j].code as int]
            &&& (m.dropped[j].reason == DropReason::MappedToNotdef ==> inp.glyphs[m.dropped[j].code as int]
                == Some(notdef_name()))
            &&& (m.dropped[j].reason == DropReason::MissingGlyph ==> (inp.gids[m.dropped[j].code as int] < 1
                || inp.gids[m.dropped[j].code as int] >= inp.glyph_count))
        }
    &&& m.supplements.len() + m.charset_codes.len() + m.dropped.len() <= k
}

proof fn lemma_duplicate_from(used: Seq<bool>, glyphs: Seq<Option<Seq<u8>>>, code: int, d: int)
    requires
        0 <= d <= code,
    ensures
        d <= duplicate_from(used, glyphs, code, d) <= code,
        duplicate_from(used, glyphs, code, d) < code ==> same_glyph_in_use(
            used,
            glyphs,
            code,
            duplicate_from(used, glyphs, code, d),
        ),
        forall|e: int|
            d <= e < duplicate_from(used, glyphs, code, d) ==> !#[trigger] same_glyph_in_use(
                used,
                glyphs,
                code,
                e,
            ),
    decreases code - d,
{
    if d < code && !same_glyph_in_use(used, glyphs, code, d) {
        lemma_duplicate_from(used, glyphs, code, d + 1);
    }
}

proof fn lemma_expand_push(rs: Seq<CodeRange>, r: CodeRange)
    ensures
        expand_ranges(rs.push(r)) == expand_ranges(rs) + range_codes(r),
{
    assert(rs.push(r).drop_last() =~= rs);
}

proof fn lemma_expand_extend(rs: Seq<CodeRange>)
    requires
        rs.len() > 0,
        rs.last().first + rs.last().n_left < 255,
    ensures
        ({
            let last = rs.last();
            let grown = rs.update(rs.len() - 1, CodeRange { first: last.first, n_left: (last.n_left + 1) as u8 });
            expand_ranges(grown) == expand_ranges(rs).push((last.first + last.n_left + 1) as u8)
        }),
{
    let last = rs.last();
    let nr = CodeRange { first: last.first, n_left: (last.n_left + 1) as u8 };
    let grown = rs.update(rs.len() - 1, nr);
    assert(grown.drop_last() =~= rs.drop_last());
    assert(grown.last() == nr);
    assert(range_codes(nr) =~= range_codes(last).push((last.first + last.n_left + 1) as u8));
    assert(expand_ranges(grown) == expand_ranges(rs.drop_last()) + range_codes(nr));
    assert(expand_ranges(rs) == expand_ranges(rs.drop_last()) + range_codes(last));
    assert((expand_ranges(rs.drop_last()) + range_codes(last)).push((last.first + last.n_left + 1) as u8)
        =~= expand_ranges(rs.drop_last()) + range_codes(last).push((last.first + last.n_left + 1) as u8));
}

proof fn lemma_start_inv(inp: EncodingInput)
    requires
        input_wf(inp),
    ensures
        encoding_inv(inp, encoding_start(inp), 0),
{
}


proof fn lemma_step_inv(inp: EncodingInput, m: EncodingModel, k: int)
    requires
        input_wf(inp),
        encoding_inv(inp, m, k),
        k < 256,
    ensures
        encoding_inv(inp, encoding_step(inp, m, k), k + 1),
{
    let n = encoding_step(inp, m, k);
    if !m.used[k] {
        assert forall|c: int| 0 <= c < k + 1 implies (#[trigger] n.used[c] <==> (in_charset(n, c)
            || is_supplement_source(n, c))) by {
            if c == k {
                if in_charset(n, c) {
                    let i = choose|i: int| 0 <= i < n.charset_codes.len() && n.charset_codes[i] == c;
                    assert(n.charset_codes[i] < k);
                }
                if is_supplement_source(n, c) {
                    let j = choose|j: int| 0 <= j < n.supplements.len() && n.supplements[j].source == c;
                    assert(n.supplements[j].source < k);
                }
            }
        }
    } else if inp.glyphs[k] == Some(notdef_name()) || inp.gids[k] < 1 || inp.gids[k] >= inp.glyph_count {
        assert(n.charset_codes == m.charset_codes);
        assert(n.supplements == m.supplements);
        assert forall|c: int| 0 <= c < k + 1 implies (#[trigger] n.used[c] <==> (in_charset(n, c)
            || is_supplement_source(n, c))) by {
            if c == k {
                if in_charset(n, c) {
                    let i = choose|i: int| 0 <= i < n.charset_codes.len() && n.charset_codes[i] == c;
                    assert(n.charset_codes[i] < k);
                }
                if is_supplement_source(n, c) {
                    let j = choose|j: int| 0 <= j < n.supplements.len() && n.supplements[j].source == c;
                    assert(n.supplements[j].source < k);
                }
            } else {
                assert(n.used[c] == m.used[c]);
            }
        }
        assert forall|j: int| 0 <= j < n.dropped.len() implies {
            &&& (#[trigger] n.dropped[j]).code < k + 1
            &&& !n.used[n.dropped[j].code as int]
            &&& inp.used[n.dropped[j].code as int]
            &&& (n.dropped[j].reason == DropReason::MappedToNotdef ==> inp.glyphs[n.dropped[j].code as int]
                == Some(notdef_name()))
            &&& (n.dropped[j].reason == DropReason::MissingGlyph ==> (inp.gids[n.dropped[j].code as int] < 1
                || inp.gids[n.dropped[j].code as int] >= inp.glyph_count))
        } by {
            if j < m.dropped.len() {
                assert(n.dropped[j] == m.dropped[j]);
            }
        }
        assert forall|j: int| 0 <= j < n.supplements.len() implies in_charset(
            n,
            (#[trigger] n.supplements[j]).code as int,
        ) by {
            assert(in_charset(m, m.supplements[j].code as int));
        }
    } else {
        let d = duplicate_from(m.used, inp.glyphs, k, 0);
        lemma_duplicate_from(m.used, inp.glyphs, k, 0);
        if d < k {
            // d is used, so it is in the charset or is itself a supplement source.
            assert(m.used[d]);
            if !in_charset(m, d) {
                assert(is_supplement_source(m, d));
                let j = choose|j: int| 0 <= j < m.supplements.len() && m.supplements[j].source == d;
                let e = m.supplements[j].code as int;
                assert(in_charset(m, e));
                assert(m.used[e]);
                assert(same_glyph_in_use(m.used, inp.glyphs, k, e));
                assert(false);
            }
            assert(n.charset_codes == m.charset_codes);
            assert(n.used == m.used);
            assert(n.supplements[m.supplements.len() as int] == Supplement { code: d as u8, source: k as u8 });
            assert forall|c: int| 0 <= c < k + 1 implies (#[trigger] n.used[c] <==> (in_charset(n, c)
                || is_supplement_source(n, c))) by {
                if c == k {
                    assert(n.supplements[m.supplements.len() as int].source == k);
                } else {
                    if is_supplement_source(m, c) {
                        let j = choose|j: int| 0 <= j < m.supplements.len() && m.supplements[j].source == c;
                        assert(n.supplements[j].source == c);
                    }
                    if is_supplement_source(n, c) {
                        let j = choose|j: int| 0 <= j < n.supplements.len() && n.supplements[j].source == c;
                        if j < m.supplements.len() {
                            assert(m.supplements[j].source == c);
                        }
                    }
                }
            }
            assert forall|j: int| 0 <= j < n.supplements.len() implies {
                &&& (#[trigger] n.supplements[j]).code < n.supplements[j].source < k + 1
                &&& inp.glyphs[n.supplements[j].code as int] is Some
                &&& inp.glyphs[n.supplements[j].code as int] == inp.glyphs[n.supplements[j].source as int]
                &&& in_charset(n, n.supplements[j].code as int)
            } by {
                if j < m.supplements.len() {
                    assert(n.supplements[j] == m.supplements[j]);
                } else {
                    assert(in_charset(m, d));
                }
            }
            if n.supplements.len() > 0 {
                assert(m.charset_codes.len() > 0);
            }
        } else {
            let nc = k as u8;
            assert(n.charset_codes == m.charset_codes.push(nc));
            if m.charset_codes.len() > 0 {
                assert(m.charset_codes[m.charset_codes.len() - 1] < k);
            }
            if k != last_code(m) + 1 {
                lemma_expand_push(m.ranges, CodeRange { first: nc, n_left: 0 });
                assert(range_codes(CodeRange { first: nc, n_left: 0 }) =~= seq![nc]);
            } else {
                assert(m.charset_codes.len() > 0);
                if m.ranges.len() == 0 {
                    assert(expand_ranges(m.ranges) =~= Seq::<u8>::empty());
                }
                lemma_expand_extend(m.ranges);
            }
            assert(expand_ranges(n.ranges) =~= n.charset_codes);
            assert forall|i: int| 0 <= i < n.charset_codes.len() implies {
                &&& (#[trigger] n.charset_codes[i]) < k + 1
                &&& 1 <= inp.gids[n.charset_codes[i] as int] < inp.glyph_count
                &&& n.gid_map[i + 1] == inp.gids[n.charset_codes[i] as int] as u16
            } by {
                if i < m.charset_codes.len() {
                    assert(n.charset_codes[i] == m.charset_codes[i]);
                }
            }
            assert forall|c: int| 0 <= c < k + 1 implies (#[trigger] n.used[c] <==> (in_charset(n, c)
                || is_supplement_source(n, c))) by {
                if c == k {
                    assert(n.charset_codes[m.charset_codes.len() as int] == k);
                } else {
                    if in_charset(m, c) {
                        let i = choose|i: int| 0 <= i < m.charset_codes.len() && m.charset_codes[i] == c;
                        assert(n.charset_codes[i] == c);
                    }
                    if in_charset(n, c) {
                        let i = choose|i: int| 0 <= i < n.charset_codes.len() && n.charset_codes[i] == c;
                        if i < m.charset_codes.len() {
                            assert(m.charset_codes[i] == c);
                        }
                    }
                }
            }
            assert forall|j: int| 0 <= j < n.supplements.len() implies in_charset(
                n,
                (#[trigger] n.supplements[j]).code as int,
            ) by {
                assert(in_charset(m, m.supplements[j].code as int));
                let i = choose|i: int|
                    0 <= i < m.charset_codes.len() && m.charset_codes[i] == m.supplements[j].code;
                assert(n.charset_codes[i] == m.supplements[j].code);
            }
        }
    }
}


/// Code `c` keeps its place: it is used, its glyph is not `.notdef`, and
/// the glyph is in the font.
pub open spec fn kept(inp: EncodingInput, c: int) -> bool {
    &&& inp.used[c]
    &&& inp.glyphs[c] != Some(notdef_name())
    &&& 1 <= inp.gids[c] < inp.glyph_count
}

/// Code `c` repeats the glyph name of the earlier kept code `d`.
pub open spec fn repeats(inp: EncodingInput, c: int, d: int) -> bool {
    &&& 0 <= d < c
    &&& kept(inp, d)
    &&& inp.glyphs[d] is Some
    &&& inp.glyphs[d] == inp.glyphs[c]
}

/// Code `c` is kept and no earlier kept code has its glyph name.
pub open spec fn first_occurrence(inp: EncodingInput, c: int) -> bool {
    kept(inp, c) && forall|d: int| !#[trigger] repeats(inp, c, d)
}

/// Code `c` is kept and an earlier kept code has its glyph name.
pub open spec fn later_repeat(inp: EncodingInput, c: int) -> bool {
    kept(inp, c) && exists|d: int| #[trigger] repeats(inp, c, d)
}

/// Which codes have been kept, and how each kept code was encoded, after
/// codes `0 .. k` have been looked at.
pub open spec fn encoding_choice_inv(inp: EncodingInput, m: EncodingModel, k: int) -> bool {
    &&& forall|c: int| 0 <= c < k ==> #[trigger] m.used[c] == kept(inp, c)
    &&& forall|c: int|
        #![trigger in_charset(m, c)]
        #![trigger first_occurrence(inp, c)]
        0 <= c < k ==> (in_charset(m, c) <==> first_occurrence(inp, c))
    &&& forall|c: int|
        #![trigger is_supplement_source(m, c)]
        #![trigger later_repeat(inp, c)]
        0 <= c < k ==> (is_supplement_source(m, c) <==> later_repeat(inp, c))
    &&& forall|j: int|
        0 <= j < m.supplements.len() ==> {
            &&& repeats(inp, (#[trigger] m.supplements[j]).source as int, m.supplements[j].code as int)
            &&& forall|e: int|
                0 <= e < m.supplements[j].code ==> !repeats(inp, m.supplements[j].source as int, e)
        }
}

proof fn lemma_step_choice_inv(inp: EncodingInput, m: EncodingModel, k: int)
    requires
        input_wf(inp),
        encoding_inv(inp, m, k),
        encoding_choice_inv(inp, m, k),
        k < 256,
    ensures
        encoding_choice_inv(inp, encoding_step(inp, m, k), k + 1),
{
    let n = encoding_step(inp, m, k);
    lemma_step_inv(inp, m, k);
    assert(m.used[k] == inp.used[k]);
    assert forall|d: int| 0 <= d < k implies (same_glyph_in_use(m.used, inp.glyphs, k, d) <==> repeats(
        inp,
        k,
        d,
    )) by {
        assert(m.used[d] == kept(inp, d));
    }
    // Nothing already looked at changes.
    assert forall|c: int| 0 <= c < k implies n.used[c] == m.used[c] && (in_charset(n, c) <==> in_charset(m, c))
        && (is_supplement_source(n, c) <==> is_supplement_source(m, c)) by {
        if in_charset(m, c) {
            let i = choose|i: int| 0 <= i < m.charset_codes.len() && m.charset_codes[i] == c;
            assert(n.charset_codes[i] == c);
        }
        if in_charset(n, c) {
            let i = choose|i: int| 0 <= i < n.charset_codes.len() && n.charset_codes[i] == c;
            if i >= m.charset_codes.len() {
                assert(n.charset_codes[i] == k as u8);
            }
        }
        if is_supplement_source(m, c) {
            let j = choose|j: int| 0 <= j < m.supplements.len() && m.supplements[j].source == c;
            assert(n.supplements[j].source == c);
        }
        if is_supplement_source(n, c) {
            let j = choose|j: int| 0 <= j < n.supplements.len() && n.supplements[j].source == c;
            if j >= m.supplements.len() {
                assert(n.supplements[j].source == k as u8);
            }
        }
    }
    if !kept(inp, k) {
        assert(!first_occurrence(inp, k));
        assert(!later_repeat(inp, k));
    } else {
        let d = duplicate_from(m.used, inp.glyphs, k, 0);
        lemma_duplicate_from(m.used, inp.glyphs, k, 0);
        if d < k {
            assert(repeats(inp, k, d));
            assert(later_repeat(inp, k));
            assert(!first_occurrence(inp, k));
            assert forall|e: int| 0 <= e < d implies !repeats(inp, k, e) by {
                assert(!same_glyph_in_use(m.used, inp.glyphs, k, e));
            }
        } else {
            assert forall|e: int| !#[trigger] repeats(inp, k, e) by {
                if 0 <= e < k {
                    assert(!same_glyph_in_use(m.used, inp.glyphs, k, e));
                }
            }
            assert(first_occurrence(inp, k));
            assert(!later_repeat(inp, k));
        }
    }
    assert forall|c: int| 0 <= c < k + 1 implies #[trigger] n.used[c] == kept(inp, c) by {
        if c < k {
            assert(m.used[c] == kept(inp, c));
        }
    }
    assert forall|c: int| 0 <= c < k + 1 implies (in_charset(n, c) <==> first_occurrence(inp, c)) by {
        if c < k {
            assert(in_charset(m, c) <==> first_occurrence(inp, c));
        }
    }
    assert forall|c: int| 0 <= c < k + 1 implies (is_supplement_source(n, c) <==> later_repeat(inp, c)) by {
        if c < k {
            assert(is_supplement_source(m, c) <==> later_repeat(inp, c));
        }
    }
}

/// Which codes are kept and how they are encoded, proved by induction on the
/// number of codes looked at.
proof fn lemma_encoding_upto_choice(inp: EncodingInput, k: int)
    requires
        input_wf(inp),
        0 <= k <= 256,
    ensures
        encoding_choice_inv(inp, encoding_upto(inp, k), k),
    decreases k,
{
    if k > 0 {
        lemma_encoding_upto_choice(inp, k - 1);
        lemma_encoding_upto_inv(inp, k - 1);
        lemma_step_choice_inv(inp, encoding_upto(inp, k - 1), k - 1);
    }
}

/// What holds of the encoding after codes `0 .. k` have been looked at,
/// proved by induction on `k`.
pub proof fn lemma_encoding_upto_inv(inp: EncodingInput, k: int)
    requires
        input_wf(inp),
        0 <= k <= 256,
    ensures
        encoding_inv(inp, encoding_upto(inp, k), k),
    decreases k,
{
    if k == 0 {
        lemma_start_inv(inp);
    } else {
        lemma_encoding_upto_inv(inp, k - 1);
        lemma_step_inv(inp, encoding_upto(inp, k - 1), k - 1);
    }
}

/// The input that [`build_encoding`] reads from its arguments.
pub open spec fn encoding_input(
    used: Seq<bool>,
    glyphs: Seq<Option<Vec<u8>>>,
    gids: Seq<i32>,
    notdef_gid: u16,
    glyph_count: u16,
) -> EncodingInput {
    EncodingInput { used, glyphs: names_view(glyphs), gids, notdef_gid, glyph_count }
}

spec fn model_of(
    used: Seq<bool>,
    gid_map: Seq<u16>,
    charset_codes: Seq<u8>,
    ranges: Seq<CodeRange>,
    supplements: Seq<Supplement>,
    dropped: Seq<DroppedCode>,
) -> EncodingModel {
    EncodingModel { used, gid_map, charset_codes, ranges, supplements, dropped }
}

/// Whether code `d` is still used and names the same glyph as `code`.
fn same_glyph_in_use_at(flags: &Vec<bool>, glyphs: &[Option<Vec<u8>>], code: usize, d: usize) -> (r: bool)
    requires
        d < flags@.len(),
        d < glyphs@.len(),
        code < glyphs@.len(),
    ensures
        r == same_glyph_in_use(flags@, names_view(glyphs@), code as int, d as int),
{
    if !flags[d] {
        return false;
    }
    match (&glyphs[d], &glyphs[code]) {
        (Some(a), Some(b)) => bytes_eq(a.as_slice(), b.as_slice()),
        _ => false,
    }
}

/// The first earlier code that is still used and names the glyph of `code`,
/// or `code` when there is none.
fn find_duplicate(flags: &Vec<bool>, glyphs: &[Option<Vec<u8>>], code: usize) -> (d: usize)
    requires
        code < flags@.len(),
        code < glyphs@.len(),
    ensures
        d as int == duplicate_from(flags@, names_view(glyphs@), code as int, 0),
{
    let mut d: usize = 0;
    while d < code
        invariant
            d <= code,
            code < flags@.len(),
            code < glyphs@.len(),
            duplicate_from(flags@, names_view(glyphs@), code as int, 0) == duplicate_from(
                flags@,
                names_view(glyphs@),
                code as int,
                d as int,
            ),
        decreases code - d,
    {
        if same_glyph_in_use_at(flags, glyphs, code, d) {
            return d;
        }
        d = d + 1;
    }
    d
}

/// Lays out the encoding and charset of a font subset. For each code in
/// order, a used code whose glyph is `.notdef` or is not in the font is
/// dropped and marked unused; a code whose glyph name an earlier used code
/// already has becomes a supplement; any other used code gets the next glyph
/// of the subset, and consecutive such codes share a format 1 range.
/// `glyphs[c]` is the glyph name of code `c`, `gids[c]` the font's glyph id
/// for that name, `notdef_gid` the glyph id of `.notdef`, and `glyph_count`
/// the number of glyphs in the font.
pub fn build_encoding(
    used: &[bool],
    glyphs: &[Option<Vec<u8>>],
    gids: &[i32],
    notdef_gid: u16,
    glyph_count: u16,
) -> (plan: EncodingPlan)
    requires
        used@.len() == 256,
        glyphs@.len() == 256,
        gids@.len() == 256,
    ensures
        plan@ == encoding_of(encoding_input(used@, glyphs@, gids@, notdef_gid, glyph_count)),
{
    let ghost inp = encoding_input(used@, glyphs@, gids@, notdef_gid, glyph_count);
    let notdef: [u8; 7] = ['.' as u8, 'n' as u8, 'o' as u8, 't' as u8, 'd' as u8, 'e' as u8, 'f' as u8];
    assert(notdef@ =~= notdef_name());
    let mut flags: Vec<bool> = Vec::new();
    let mut i: usize = 0;
    while i < 256
        invariant
            i <= 256,
            used@.len() == 256,
            flags@ == used@.take(i as int),
        decreases 256 - i,
    {
        flags.push(used[i]);
        i = i + 1;
        assert(flags@ =~= used@.take(i as int));
    }
    assert(flags@ =~= used@);
    let mut gid_map: Vec<u16> = Vec::new();
    gid_map.push(notdef_gid);
    let mut charset_codes: Vec<u8> = Vec::new();
    let mut ranges: Vec<CodeRange> = Vec::new();
    let mut supplements: Vec<Supplement> = Vec::new();
    let mut dropped: Vec<DroppedCode> = Vec::new();
    let mut prev: i32 = -2;
    assert(model_of(flags@, gid_map@, charset_codes@, ranges@, supplements@, dropped@) == encoding_upto(inp, 0));
    let mut code: usize = 0;
    while code < 256
        invariant
            code <= 256,
            used@.len() == 256,
            glyphs@.len() == 256,
            gids@.len() == 256,
            notdef@ == notdef_name(),
            inp == encoding_input(used@, glyphs@, gids@, notdef_gid, glyph_count),
            model_of(flags@, gid_map@, charset_codes@, ranges@, supplements@, dropped@) == encoding_upto(
                inp,
                code as int,
            ),
            prev as int == last_code(encoding_upto(inp, code as int)),
        decreases 256 - code,
    {
        proof {
            lemma_encoding_upto_inv(inp, code as int);
        }
        let ghost m = encoding_upto(inp, code as int);
        assert(encoding_upto(inp, code + 1) == encoding_step(inp, m, code as int));
        if flags[code] {
            let is_notdef = match &glyphs[code] {
                Some(g) => bytes_eq(g.as_slice(), &notdef),
                None => false,
            };
            assert(is_notdef == (inp.glyphs[code as int] == Some(notdef_name())));
            if is_notdef {
                flags.set(code, false);
                dropped.push(DroppedCode { code: code as u8, reason: DropReason::MappedToNotdef });
            } else if gids[code] < 1 || gids[code] >= glyph_count as i32 {
                flags.set(code, false);
                dropped.push(DroppedCode { code: code as u8, reason: DropReason::MissingGlyph });
            } else {
                let d = find_duplicate(&flags, glyphs, code);
                if d < code {
                    supplements.push(Supplement { code: d as u8, source: code as u8 });
                } else {
                    gid_map.push(gids[code] as u16);
                    charset_codes.push(code as u8);
                    if code as i32 != prev + 1 {
                        ranges.push(CodeRange { first: code as u8, n_left: 0 });
                    } else {
                        proof {
                            assert(m.charset_codes.len() > 0);
                            if m.ranges.len() == 0 {
                                assert(expand_ranges(m.ranges) =~= Seq::<u8>::empty());
                            }
                        }
                        let last = ranges.len() - 1;
                        let r = ranges[last];
                        ranges.set(last, CodeRange { first: r.first, n_left: r.n_left + 1 });
                    }
                    prev = code as i32;
                }
            }
        }
        code = code + 1;
        assert(model_of(flags@, gid_map@, charset_codes@, ranges@, supplements@, dropped@) =~= encoding_upto(
            inp,
            code as int,
        ));
    }
    EncodingPlan { used: flags, gid_map, charset_codes, ranges, supplements, dropped }
}


/// Decoding the format 1 ranges gives back exactly the codes of the charset
/// glyphs, in order, and the range and supplement counts fit the one-byte
/// counters of a CFF encoding.
pub proof fn law_ranges_decode_to_charset(inp: EncodingInput)
    requires
        input_wf(inp),
    ensures
        expand_ranges(encoding_of(inp).ranges) == encoding_of(inp).charset_codes,
        encoding_of(inp).ranges.len() <= 128,
        encoding_of(inp).supplements.len() <= 255,
        encoding_of(inp).charset_codes.len() <= 256,
{
    lemma_encoding_upto_inv(inp, 256);
    let m = encoding_of(inp);
    if m.charset_codes.len() > 0 {
        assert(m.charset_codes.last() <= 255);
    }
    if m.supplements.len() > 0 {
        assert(in_charset(m, m.supplements[0].code as int));
    }
}

/// The subset's glyph map starts with `.notdef`, and its later entries are
/// the font's glyph ids of the charset codes, each a real glyph of the font;
/// the charset codes are strictly increasing.
pub proof fn law_glyph_map_follows_charset(inp: EncodingInput)
    requires
        input_wf(inp),
    ensures
        encoding_of(inp).gid_map.len() == encoding_of(inp).charset_codes.len() + 1,
        encoding_of(inp).gid_map[0] == inp.notdef_gid,
        forall|i: int|
            0 <= i < encoding_of(inp).charset_codes.len() ==> {
                &&& 1 <= inp.gids[(#[trigger] encoding_of(inp).charset_codes[i]) as int] < inp.glyph_count
                &&& encoding_of(inp).gid_map[i + 1] == inp.gids[encoding_of(inp).charset_codes[i] as int] as u16
            },
        forall|i: int, j: int|
            0 <= i < j < encoding_of(inp).charset_codes.len() ==> encoding_of(inp).charset_codes[i]
                < encoding_of(inp).charset_codes[j],
{
    lemma_encoding_upto_inv(inp, 256);
}

/// A code stays marked used exactly when it is encoded, by a glyph of its
/// own or by a supplement; no code that was unused becomes used.
pub proof fn law_used_codes_are_encoded(inp: EncodingInput)
    requires
        input_wf(inp),
    ensures
        encoding_of(inp).used.len() == 256,
        forall|c: int|
            0 <= c < 256 ==> (#[trigger] encoding_of(inp).used[c] <==> (in_charset(encoding_of(inp), c)
                || is_supplement_source(encoding_of(inp), c))),
        forall|c: int| 0 <= c < 256 ==> (#[trigger] encoding_of(inp).used[c] ==> inp.used[c]),
{
    lemma_encoding_upto_inv(inp, 256);
}

/// Each supplement points from a later code back to an earlier code with the
/// same glyph name, and that earlier code has a glyph of its own.
pub proof fn law_supplements_share_a_charset_glyph(inp: EncodingInput)
    requires
        input_wf(inp),
    ensures
        forall|j: int|
            0 <= j < encoding_of(inp).supplements.len() ==> {
                let s = #[trigger] encoding_of(inp).supplements[j];
                &&& s.code < s.source
                &&& inp.glyphs[s.code as int] is Some
                &&& inp.glyphs[s.code as int] == inp.glyphs[s.source as int]
                &&& in_charset(encoding_of(inp), s.code as int)
            },
{
    lemma_encoding_upto_inv(inp, 256);
}

/// Every dropped code was used, is no longer used, and was dropped for the
/// reason it records.
pub proof fn law_dropped_codes(inp: EncodingInput)
    requires
        input_wf(inp),
    ensures
        forall|j: int|
            0 <= j < encoding_of(inp).dropped.len() ==> {
                let d = #[trigger] encoding_of(inp).dropped[j];
                &&& inp.used[d.code as int]
                &&& !encoding_of(inp).used[d.code as int]
                &&& (d.reason == DropReason::MappedToNotdef ==> inp.glyphs[d.code as int] == Some(notdef_name()))
                &&& (d.reason == DropReason::MissingGlyph ==> (inp.gids[d.code as int] < 1 || inp.gids[d.code as int]
                    >= inp.glyph_count))
            },
{
    lemma_encoding_upto_inv(inp, 256);
}


/// The format byte of the encoding: format 1, with the high bit set when
/// there are supplements.
pub fn encoding_format(num_supplements: usize) -> (r: u8)
    ensures
        r == if num_supplements > 0 { 0x81u8 } else { 1u8 },
{
    if num_supplements > 0 {
        0x81
    } else {
        1
    }
}

/// The bytes of a glyph name; a code without a name contributes nothing.
pub open spec fn name_bytes(g: Option<Seq<u8>>) -> Seq<u8> {
    match g {
        Some(n) => n,
        None => Seq::empty(),
    }
}

/// The CharSet string of the font descriptor: `/` and the glyph name of
/// each charset code, in order.
pub open spec fn charset_names(codes: Seq<u8>, glyphs: Seq<Option<Seq<u8>>>) -> Seq<u8>
    decreases codes.len(),
{
    if codes.len() == 0 {
        Seq::empty()
    } else {
        charset_names(codes.drop_last(), glyphs) + seq!['/' as u8] + name_bytes(glyphs[codes.last() as int])
    }
}

/// The total length of `/` and the complete glyph name of each code.
pub open spec fn listed_length(codes: Seq<u8>, glyphs: Seq<Option<Seq<u8>>>) -> int
    decreases codes.len(),
{
    if codes.len() == 0 {
        0
    } else {
        listed_length(codes.drop_last(), glyphs) + 1 + match glyphs[codes.last() as int] {
            Some(n) => n.len() as int,
            None => 0,
        }
    }
}

proof fn lemma_charset_names_prefix(codes: Seq<u8>, glyphs: Seq<Option<Seq<u8>>>, i: int)
    requires
        0 <= i <= codes.len(),
    ensures
        charset_names(codes, glyphs).subrange(0, charset_names(codes.take(i), glyphs).len() as int)
            == charset_names(codes.take(i), glyphs),
        charset_names(codes.take(i), glyphs).len() <= charset_names(codes, glyphs).len(),
    decreases codes.len() - i,
{
    if i == codes.len() {
        assert(codes.take(i) =~= codes);
        let full = charset_names(codes, glyphs);
        assert(full.subrange(0, full.len() as int) =~= full);
    } else {
        lemma_charset_names_prefix(codes, glyphs, i + 1);
        let t = codes.take(i + 1);
        assert(t.drop_last() =~= codes.take(i));
        let short = charset_names(codes.take(i), glyphs);
        let longer = charset_names(t, glyphs);
        let full = charset_names(codes, glyphs);
        assert(longer.subrange(0, short.len() as int) =~= short);
        assert(full.subrange(0, short.len() as int) =~= longer.subrange(0, short.len() as int));
    }
}

proof fn lemma_charset_names_length(codes: Seq<u8>, glyphs: Seq<Option<Seq<u8>>>)
    ensures
        charset_names(codes, glyphs).len() == listed_length(codes, glyphs),
    decreases codes.len(),
{
    if codes.len() > 0 {
        lemma_charset_names_length(codes.drop_last(), glyphs);
    }
}

/// The complete glyph name of a code, empty when the code has none.
pub open spec fn whole_name(g: Option<Seq<u8>>) -> Seq<u8> {
    match g {
        Some(n) => n,
        None => Seq::<u8>::empty(),
    }
}

/// The CharSet string has, where the entries of the codes before the
/// `i`-th end, a `/` followed by the complete glyph name of the `i`-th code.
pub open spec fn entry_listed_at(codes: Seq<u8>, glyphs: Seq<Option<Seq<u8>>>, i: int) -> bool {
    let at = listed_length(codes.take(i), glyphs);
    let name = whole_name(glyphs[codes[i] as int]);
    &&& charset_names(codes, glyphs)[at] == '/' as u8
    &&& charset_names(codes, glyphs).subrange(at + 1, at + 1 + name.len()) == name
}

proof fn lemma_charset_entry_at(codes: Seq<u8>, glyphs: Seq<Option<Seq<u8>>>, i: int)
    requires
        0 <= i < codes.len(),
    ensures
        entry_listed_at(codes, glyphs, i),
{
    let at = listed_length(codes.take(i), glyphs);
    let name = whole_name(glyphs[codes[i] as int]);
    lemma_charset_names_prefix(codes, glyphs, i + 1);
    lemma_charset_names_length(codes.take(i), glyphs);
    let t = codes.take(i + 1);
    assert(t.drop_last() =~= codes.take(i));
    assert(t.last() == codes[i]);
    assert(name_bytes(glyphs[codes[i] as int]) == name);
    let longer = charset_names(t, glyphs);
    let full = charset_names(codes, glyphs);
    assert(longer == charset_names(codes.take(i), glyphs) + seq!['/' as u8] + name);
    assert(longer[at] == '/' as u8);
    assert(longer.subrange(at + 1, at + 1 + name.len()) =~= name);
    assert(full.subrange(0, longer.len() as int) == longer);
    assert(full[at] == full.subrange(0, longer.len() as int)[at]);
    assert(full.subrange(at + 1, at + 1 + name.len()) =~= longer.subrange(at + 1, at + 1 + name.len()));
}

/// The CharSet string has room for exactly a `/` and the complete name of
/// each listed glyph, and for every listed code it holds `/` followed by
/// that code's complete glyph name, in the order of the codes: the `i`-th
/// entry starts right after the entries of the codes before it.
pub proof fn law_charset_string_lists_whole_names(codes: Seq<u8>, glyphs: Seq<Option<Seq<u8>>>)
    ensures
        charset_names(codes, glyphs).len() == listed_length(codes, glyphs),
        forall|i: int| 0 <= i < codes.len() ==> #[trigger] entry_listed_at(codes, glyphs, i),
{
    lemma_charset_names_length(codes, glyphs);
    assert forall|i: int| 0 <= i < codes.len() implies #[trigger] entry_listed_at(codes, glyphs, i) by {
        lemma_charset_entry_at(codes, glyphs, i);
    }
}

/// The CharSet string listing the glyphs of the subset.
pub fn charset_string(charset_codes: &[u8], glyphs: &[Option<Vec<u8>>]) -> (r: Vec<u8>)
    requires
        glyphs@.len() == 256,
    ensures
        r@ == charset_names(charset_codes@, names_view(glyphs@)),
{
    let slash = ['/' as u8];
    assert(slash@ =~= seq!['/' as u8]);
    let mut r: Vec<u8> = Vec::new();
    let mut i: usize = 0;
    while i < charset_codes.len()
        invariant
            i <= charset_codes@.len(),
            glyphs@.len() == 256,
            slash@ == seq!['/' as u8],
            r@ == charset_names(charset_codes@.take(i as int), names_view(glyphs@)),
        decreases charset_codes@.len() - i,
    {
        let with_slash = concat(r.as_slice(), &slash);
        let code = charset_codes[i] as usize;
        r = match &glyphs[code] {
            Some(name) => concat(with_slash.as_slice(), name.as_slice()),
            None => with_slash,
        };
        assert(charset_codes@.take(i + 1).drop_last() =~= charset_codes@.take(i as int));
        assert(r@ =~= charset_names(charset_codes@.take(i + 1), names_view(glyphs@)));
        i = i + 1;
    }
    assert(charset_codes@.take(charset_codes@.len() as int) =~= charset_codes@);
    r
}


/// A used code stays used exactly when its glyph is not `.notdef` and is in
/// the font.
pub proof fn law_surviving_codes(inp: EncodingInput)
    requires
        input_wf(inp),
    ensures
        forall|c: int| 0 <= c < 256 ==> #[trigger] encoding_of(inp).used[c] == kept(inp, c),
{
    lemma_encoding_upto_choice(inp, 256);
}

/// The charset codes are exactly the kept codes whose glyph name no earlier
/// kept code has: each glyph of the subset is entered once, under its first
/// code.
pub proof fn law_charset_is_first_occurrences(inp: EncodingInput)
    requires
        input_wf(inp),
    ensures
        forall|c: int|
            0 <= c < 256 ==> (in_charset(encoding_of(inp), c) <==> #[trigger] first_occurrence(inp, c)),
{
    lemma_encoding_upto_choice(inp, 256);
    assert forall|c: int| 0 <= c < 256 implies (in_charset(encoding_of(inp), c) <==> #[trigger] first_occurrence(
        inp,
        c,
    )) by {}
}

/// The supplements are exactly the kept codes that repeat the glyph name of
/// an earlier kept code, each pointing at the first such code.
pub proof fn law_supplements_are_later_repeats(inp: EncodingInput)
    requires
        input_wf(inp),
    ensures
        forall|c: int|
            0 <= c < 256 ==> (is_supplement_source(encoding_of(inp), c) <==> #[trigger] later_repeat(inp, c)),
        forall|j: int|
            0 <= j < encoding_of(inp).supplements.len() ==> {
                let s = #[trigger] encoding_of(inp).supplements[j];
                &&& repeats(inp, s.source as int, s.code as int)
                &&& forall|e: int| 0 <= e < s.code ==> !repeats(inp, s.source as int, e)
            },
{
    lemma_encoding_upto_choice(inp, 256);
    assert forall|c: int| 0 <= c < 256 implies (is_supplement_source(encoding_of(inp), c)
        <==> #[trigger] later_repeat(inp, c)) by {}
}

/// No glyph id occurs twice.
pub open spec fn distinct_glyphs(s: Seq<u16>) -> bool {
    forall|i: int, j: int| 0 <= i < j < s.len() ==> s[i] != s[j]
}

/// The glyph map of the subset holds no glyph twice when every used code
/// has a glyph name, the font's glyph ids are one-to-one with the names,
/// and `.notdef` has glyph id 0.
pub proof fn law_subset_glyphs_distinct(inp: EncodingInput)
    requires
        input_wf(inp),
        forall|c: int| 0 <= c < 256 && #[trigger] inp.used[c] ==> inp.glyphs[c] is Some,
        forall|c1: int, c2: int|
            0 <= c1 < 256 && 0 <= c2 < 256 ==> ((#[trigger] inp.glyphs[c1] == #[trigger] inp.glyphs[c2]) <==> (
            inp.gids[c1] == inp.gids[c2])),
        inp.notdef_gid < 1,
    ensures
        distinct_glyphs(encoding_of(inp).gid_map),
{
    let m = encoding_of(inp);
    lemma_encoding_upto_inv(inp, 256);
    lemma_encoding_upto_choice(inp, 256);
    assert forall|i: int, j: int| 0 <= i < j < m.gid_map.len() implies m.gid_map[i] != m.gid_map[j] by {
        let cj = m.charset_codes[j - 1] as int;
        assert(1 <= inp.gids[cj] < inp.glyph_count);
        if i > 0 {
            let ci = m.charset_codes[i - 1] as int;
            assert(ci < cj);
            assert(1 <= inp.gids[ci] < inp.glyph_count);
            if m.gid_map[i] == m.gid_map[j] {
                assert(inp.gids[ci] == inp.gids[cj]);
                assert(inp.glyphs[ci] == inp.glyphs[cj]);
                assert(in_charset(m, ci));
                assert(in_charset(m, cj));
                assert(first_occurrence(inp, ci));
                assert(first_occurrence(inp, cj));
                assert(inp.used[ci]);
                assert(repeats(inp, cj, ci));
                assert(false);
            }
        }
    }
}

/// A used code whose glyph is named `.notdef` is dropped and no longer used.
pub proof fn law_notdef_codes_are_dropped(inp: EncodingInput, c: int)
    requires
        input_wf(inp),
        0 <= c < 256,
        inp.glyphs[c] == Some(seq!['.' as u8, 'n' as u8, 'o' as u8, 't' as u8, 'd' as u8, 'e' as u8, 'f' as u8]),
    ensures
        !encoding_of(inp).used[c],
        !in_charset(encoding_of(inp), c),
        !is_supplement_source(encoding_of(inp), c),
{
    assert(notdef_name() =~= seq!['.' as u8, 'n' as u8, 'o' as u8, 't' as u8, 'd' as u8, 'e' as u8, 'f' as u8]);
    law_surviving_codes(inp);
    law_used_codes_are_encoded(inp);
    assert(!kept(inp, c));
    assert(!encoding_of(inp).used[c]);
}

} // verus!
