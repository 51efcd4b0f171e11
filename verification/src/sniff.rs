//! Recognising font formats from the leading bytes of a stream: TrueType
//! and TrueType collections, OpenType with CFF outlines, PFB-wrapped Type 1
//! fonts, and Mac resource-fork (dfont) suitcases holding `sfnt` resources.
//!
//! Each check takes the bytes that the stream yields from its start (all of
//! them, or at least as many as the check looks at).
use vstd::prelude::*;
use crate::bytes::{occurs_at, matches_at};

verus! {

/// The Mac TrueType signature `true`.
pub open spec fn mac_truetype_tag() -> Seq<u8> {
    seq!['t' as u8, 'r' as u8, 'u' as u8, 'e' as u8]
}

/// The Windows TrueType / OpenType version 1.0 signature `00 01 00 00`.
pub open spec fn sfnt_version_tag() -> Seq<u8> {
    seq![0u8, 1u8, 0u8, 0u8]
}

/// The TrueType collection signature `ttcf`.
pub open spec fn collection_tag() -> Seq<u8> {
    seq!['t' as u8, 't' as u8, 'c' as u8, 'f' as u8]
}

/// The OpenType-with-CFF signature `OTTO`.
pub open spec fn cff_opentype_tag() -> Seq<u8> {
    seq!['O' as u8, 'T' as u8, 'T' as u8, 'O' as u8]
}

/// `%!PS`, the start of a PostScript resource.
pub open spec fn postscript_tag() -> Seq<u8> {
    seq!['%' as u8, '!' as u8, 'P' as u8, 'S' as u8]
}

/// `%!FontType1`.
pub open spec fn fonttype1_tag() -> Seq<u8> {
    seq!['%' as u8, '!' as u8, 'F' as u8, 'o' as u8, 'n' as u8, 't' as u8, 'T' as u8, 'y' as u8, 'p' as u8, 'e' as u8, '1' as u8]
}

/// A stream holds a TrueType font or collection: its first four bytes are
/// `true`, `00 01 00 00` or `ttcf`.
pub open spec fn is_truetype_stream(d: Seq<u8>) -> bool {
    ||| occurs_at(d, mac_truetype_tag(), 0)
    ||| occurs_at(d, sfnt_version_tag(), 0)
    ||| occurs_at(d, collection_tag(), 0)
}

/// A stream holds an OpenType font with CFF outlines: it starts with `OTTO`.
pub open spec fn is_opentype_stream(d: Seq<u8>) -> bool {
    occurs_at(d, cff_opentype_tag(), 0)
}

/// A stream holds a PFB Type 1 font: it has at least 21 bytes, the first
/// segment header is `0x80` followed by a segment type of at most 3, and the
/// segment data (from byte 6) starts with `%!PS` or `%!FontType1`.
pub open spec fn is_type1_stream(d: Seq<u8>) -> bool {
    &&& d.len() >= 21
    &&& d[0] == 0x80
    &&& d[1] <= 3
    &&& (occurs_at(d, postscript_tag(), 6) || occurs_at(d, fonttype1_tag(), 6))
}

fn tag4(a: u8, b: u8, c: u8, e: u8) -> (r: [u8; 4])
    ensures
        r@ == seq![a, b, c, e],
{
    let r = [a, b, c, e];
    assert(r@ =~= seq![a, b, c, e]);
    r
}

/// Whether the stream holds a TrueType font or collection.
pub fn check_stream_is_truetype(data: &[u8]) -> (r: bool)
    ensures
        r == is_truetype_stream(data@),
{
    let mac = tag4('t' as u8, 'r' as u8, 'u' as u8, 'e' as u8);
    let win = tag4(0, 1, 0, 0);
    let ttc = tag4('t' as u8, 't' as u8, 'c' as u8, 'f' as u8);
    matches_at(data, 0, &mac) || matches_at(data, 0, &win) || matches_at(data, 0, &ttc)
}

/// Whether the stream holds an OpenType font with CFF outlines.
pub fn check_stream_is_opentype(data: &[u8]) -> (r: bool)
    ensures
        r == is_opentype_stream(data@),
{
    let otto = tag4('O' as u8, 'T' as u8, 'T' as u8, 'O' as u8);
    matches_at(data, 0, &otto)
}

/// Whether the stream holds a PFB-wrapped Type 1 font. The signatures
/// `%!PS-AdobeFont`, `%!FontType1` and `%!PS` are tried in turn.
pub fn check_stream_is_type1(data: &[u8]) -> (r: bool)
    ensures
        r == is_type1_stream(data@),
{
    if data.len() < 21 {
        return false;
    }
    if data[0] != 0x80 || data[1] > 3 {
        return false;
    }
    let adobe: [u8; 14] = [
        '%' as u8, '!' as u8, 'P' as u8, 'S' as u8, '-' as u8, 'A' as u8, 'd' as u8,
        'o' as u8, 'b' as u8, 'e' as u8, 'F' as u8, 'o' as u8, 'n' as u8, 't' as u8,
    ];
    let fonttype1: [u8; 11] = [
        '%' as u8, '!' as u8, 'F' as u8, 'o' as u8, 'n' as u8, 't' as u8, 'T' as u8,
        'y' as u8, 'p' as u8, 'e' as u8, '1' as u8,
    ];
    let ps = tag4('%' as u8, '!' as u8, 'P' as u8, 'S' as u8);
    assert(fonttype1@ =~= fonttype1_tag());
    assert(ps@ =~= postscript_tag());
    let adobe_found = matches_at(data, 6, &adobe);
    if adobe_found {
        assert(data@.subrange(6, 10) =~= data@.subrange(6, 20).subrange(0, 4));
        assert(adobe@.subrange(0, 4) =~= postscript_tag());
    }
    if adobe_found || matches_at(data, 6, &fonttype1) {
        return true;
    }
    if matches_at(data, 6, &ps) {
        return true;
    }
    false
}


/// The stream ended before a value the check has to read.
#[derive(Clone, Copy, Debug, PartialEq, Eq, Structural)]
pub struct PrematureEnd;

/// The `sfnt` resource type.
pub open spec fn sfnt_type() -> int {
    0x73666e74
}

/// The big-endian 16-bit value at `p`.
pub open spec fn be16(d: Seq<u8>, p: int) -> int {
    d[p] * 0x100 + d[p + 1]
}

/// The big-endian 32-bit value at `p`.
pub open spec fn be32(d: Seq<u8>, p: int) -> int {
    d[p] * 0x100_0000 + d[p + 1] * 0x1_0000 + d[p + 2] * 0x100 + d[p + 3]
}

/// `x` reduced to 32 bits, for `0 <= x < 2^33`.
pub open spec fn wrap32(x: int) -> int {
    if x > 0xffff_ffff {
        x - 0x1_0000_0000
    } else {
        x
    }
}

/// Scans `remaining` entries of a resource type list from `at`: each entry
/// is a four-byte type followed by four further bytes. `Ok(true)` when an
/// entry of type `sfnt` is met, `Err` when the stream ends first.
pub open spec fn type_list_has_sfnt(d: Seq<u8>, at: int, remaining: nat) -> Result<bool, PrematureEnd>
    decreases remaining,
{
    if remaining == 0 {
        Ok(false)
    } else if at + 4 > d.len() {
        Err(PrematureEnd)
    } else if be32(d, at) == sfnt_type() {
        Ok(true)
    } else if at + 8 > d.len() {
        Err(PrematureEnd)
    } else {
        type_list_has_sfnt(d, at + 8, (remaining - 1) as nat)
    }
}

/// Whether a resource fork holds an `sfnt` resource. The resource map
/// offset `m` is the 32-bit value at byte 4; the type list offset `t` is the
/// 16-bit value at `m + 0x18`; the type list at `m + t` holds a 16-bit count
/// `n` followed by `n + 1` entries. Offsets wrap at 32 bits. `Err` when the
/// stream ends before a value that is read.
pub open spec fn dfont_has_sfnt(d: Seq<u8>) -> Result<bool, PrematureEnd> {
    if d.len() < 8 {
        Err(PrematureEnd)
    } else {
        let map = be32(d, 4);
        let list_ref = wrap32(map + 0x18);
        if list_ref + 2 > d.len() {
            Err(PrematureEnd)
        } else {
            let list = wrap32(map + be16(d, list_ref));
            if list + 2 > d.len() {
                Err(PrematureEnd)
            } else {
                type_list_has_sfnt(d, list + 2, (be16(d, list) + 1) as nat)
            }
        }
    }
}

fn read_u16(d: &[u8], at: u64) -> (r: Result<u16, PrematureEnd>)
    ensures
        at + 2 <= d@.len() ==> r == Ok::<u16, PrematureEnd>(be16(d@, at as int) as u16),
        at + 2 > d@.len() ==> r == Err::<u16, PrematureEnd>(PrematureEnd),
{
    if at >= d.len() as u64 || d.len() as u64 - at < 2 {
        return Err(PrematureEnd);
    }
    let p = at as usize;
    Ok((d[p] as u16) * 0x100 + d[p + 1] as u16)
}

fn read_u32(d: &[u8], at: u64) -> (r: Result<u32, PrematureEnd>)
    ensures
        at + 4 <= d@.len() ==> r == Ok::<u32, PrematureEnd>(be32(d@, at as int) as u32),
        at + 4 > d@.len() ==> r == Err::<u32, PrematureEnd>(PrematureEnd),
{
    if at >= d.len() as u64 || d.len() as u64 - at < 4 {
        return Err(PrematureEnd);
    }
    let p = at as usize;
    Ok((d[p] as u32) * 0x100_0000 + (d[p + 1] as u32) * 0x1_0000 + (d[p + 2] as u32) * 0x100 + d[p + 3] as u32)
}

/// Whether a resource-fork stream holds an `sfnt` resource; `Err` when the
/// stream ends before a value that has to be read.
pub fn check_stream_is_dfont(data: &[u8]) -> (r: Result<bool, PrematureEnd>)
    ensures
        r == dfont_has_sfnt(data@),
{
    read_u32(data, 0)?;
    let map = read_u32(data, 4)?;
    let list_ref = map.wrapping_add(0x18) as u64;
    let list_off = read_u16(data, list_ref)?;
    let list = map.wrapping_add(list_off as u32) as u64;
    let n = read_u16(data, list)?;
    let ghost d = data@;
    let mut at: u64 = list + 2;
    let mut remaining: u32 = n as u32 + 1;
    while remaining > 0
        invariant
            d == data@,
            at <= 0x2_0000_0000 + 8 * (0x1_0000 - remaining),
            remaining <= 0x1_0000,
            type_list_has_sfnt(d, at as int, remaining as nat) == dfont_has_sfnt(d),
        decreases remaining,
    {
        let t = read_u32(data, at)?;
        if t == 0x73666e74 {
            return Ok(true);
        }
        read_u32(data, at + 4)?;
        at = at + 8;
        remaining = remaining - 1;
    }
    Ok(false)
}


/// No stream carries two of the signatures: a Type 1 PFB stream, a TrueType
/// stream and a CFF OpenType stream are told apart by their first bytes.
pub proof fn law_signatures_exclusive(d: Seq<u8>)
    ensures
        !(is_truetype_stream(d) && is_opentype_stream(d)),
        !(is_type1_stream(d) && is_truetype_stream(d)),
        !(is_type1_stream(d) && is_opentype_stream(d)),
{
    if occurs_at(d, mac_truetype_tag(), 0) {
        assert(d[0] == d.subrange(0, 4)[0]);
    }
    if occurs_at(d, sfnt_version_tag(), 0) {
        assert(d[0] == d.subrange(0, 4)[0]);
    }
    if occurs_at(d, collection_tag(), 0) {
        assert(d[0] == d.subrange(0, 4)[0]);
    }
    if occurs_at(d, cff_opentype_tag(), 0) {
        assert(d[0] == d.subrange(0, 4)[0]);
    }
}

proof fn lemma_occurs_in_prefix(d: Seq<u8>, e: Seq<u8>, tag: Seq<u8>, at: int)
    requires
        0 <= at,
        at + tag.len() <= d.len(),
    ensures
        occurs_at(d + e, tag, at) == occurs_at(d, tag, at),
{
    assert((d + e).subrange(at, at + tag.len()) =~= d.subrange(at, at + tag.len()));
}

/// The format checks look only at the leading bytes: once the stream has
/// the 4 (TrueType, OpenType) or 21 (Type 1) bytes they read, more bytes do
/// not change the answer.
pub proof fn law_checks_read_only_the_head(d: Seq<u8>, e: Seq<u8>)
    ensures
        d.len() >= 4 ==> is_truetype_stream(d + e) == is_truetype_stream(d),
        d.len() >= 4 ==> is_opentype_stream(d + e) == is_opentype_stream(d),
        d.len() >= 21 ==> is_type1_stream(d + e) == is_type1_stream(d),
{
    if d.len() >= 4 {
        lemma_occurs_in_prefix(d, e, mac_truetype_tag(), 0);
        lemma_occurs_in_prefix(d, e, sfnt_version_tag(), 0);
        lemma_occurs_in_prefix(d, e, collection_tag(), 0);
        lemma_occurs_in_prefix(d, e, cff_opentype_tag(), 0);
    }
    if d.len() >= 21 {
        lemma_occurs_in_prefix(d, e, postscript_tag(), 6);
        lemma_occurs_in_prefix(d, e, fonttype1_tag(), 6);
        assert((d + e)[0] == d[0]);
        assert((d + e)[1] == d[1]);
    }
}

proof fn lemma_type_list_extends(d: Seq<u8>, e: Seq<u8>, at: int, remaining: nat)
    requires
        at >= 0,
        type_list_has_sfnt(d, at, remaining) is Ok,
    ensures
        type_list_has_sfnt(d + e, at, remaining) == type_list_has_sfnt(d, at, remaining),
    decreases remaining,
{
    if remaining > 0 {
        assert((d + e)[at] == d[at]);
        assert((d + e)[at + 1] == d[at + 1]);
        assert((d + e)[at + 2] == d[at + 2]);
        assert((d + e)[at + 3] == d[at + 3]);
        if be32(d, at) != sfnt_type() {
            lemma_type_list_extends(d, e, at + 8, (remaining - 1) as nat);
        }
    }
}

/// A decided resource-fork check stays decided the same way when the stream
/// turns out to be longer: only a premature end can change with more bytes.
pub proof fn law_dfont_decision_is_stable(d: Seq<u8>, e: Seq<u8>)
    requires
        dfont_has_sfnt(d) is Ok,
    ensures
        dfont_has_sfnt(d + e) == dfont_has_sfnt(d),
{
    let de = d + e;
    assert forall|i: int| 0 <= i < d.len() implies de[i] == d[i] by {}
    let map = be32(d, 4);
    assert(be32(de, 4) == map);
    let list_ref = wrap32(map + 0x18);
    assert(be16(de, list_ref) == be16(d, list_ref));
    let list = wrap32(map + be16(d, list_ref));
    assert(be16(de, list) == be16(d, list));
    lemma_type_list_extends(d, e, list + 2, (be16(d, list) + 1) as nat);
}


proof fn lemma_type_list_reads_from(d: Seq<u8>, d2: Seq<u8>, at: int, remaining: nat, from: int)
    requires
        d.len() == d2.len(),
        at >= from,
        forall|i: int| from <= i < d.len() ==> d[i] == d2[i],
    ensures
        type_list_has_sfnt(d, at, remaining) == type_list_has_sfnt(d2, at, remaining),
    decreases remaining,
{
    if remaining > 0 && at + 4 <= d.len() {
        assert(d[at] == d2[at] && d[at + 1] == d2[at + 1] && d[at + 2] == d2[at + 2] && d[at + 3] == d2[at + 3]);
        lemma_type_list_reads_from(d, d2, at + 8, (remaining - 1) as nat, from);
    }
}

/// The resource map is found through the offset stored big-endian in bytes
/// 4 to 8: when the map there (not wrapping past 32 bits) has a type list
/// whose first type is `sfnt`, the stream holds an `sfnt` resource.
pub proof fn law_dfont_map_offset_is_at_byte_4(d: Seq<u8>)
    requires
        d.len() >= 8,
        ({
            let map = d[4] * 0x100_0000 + d[5] * 0x1_0000 + d[6] * 0x100 + d[7];
            let list = map + d[map + 0x18] * 0x100 + d[map + 0x19];
            &&& map + 0x1a <= d.len()
            &&& map + 0x18 <= 0xffff_ffff
            &&& list <= 0xffff_ffff
            &&& list + 6 <= d.len()
            &&& d[list + 2] == 's' as u8
            &&& d[list + 3] == 'f' as u8
            &&& d[list + 4] == 'n' as u8
            &&& d[list + 5] == 't' as u8
        }),
    ensures
        dfont_has_sfnt(d) == Ok::<bool, PrematureEnd>(true),
{
    let map = be32(d, 4);
    let list_ref = wrap32(map + 0x18);
    assert(list_ref == map + 0x18);
    let list = wrap32(map + be16(d, list_ref));
    assert(list == map + be16(d, map + 0x18));
    assert(be32(d, list + 2) == sfnt_type());
    assert(type_list_has_sfnt(d, list + 2, (be16(d, list) + 1) as nat) == Ok::<bool, PrematureEnd>(true));
}

/// Bytes 0 to 4 (the resource data offset) do not decide anything: two
/// streams that differ only there give the same answer, as long as the
/// resource map lies past the 8-byte header and its offsets do not wrap.
pub proof fn law_dfont_ignores_data_offset(d: Seq<u8>, d2: Seq<u8>)
    requires
        d.len() == d2.len(),
        d.len() >= 8,
        forall|i: int| 4 <= i < d.len() ==> d[i] == d2[i],
        8 <= d[4] * 0x100_0000 + d[5] * 0x1_0000 + d[6] * 0x100 + d[7] <= 0xffff_ffff - 0x1_0018,
    ensures
        dfont_has_sfnt(d) == dfont_has_sfnt(d2),
{
    assert(d[4] == d2[4] && d[5] == d2[5] && d[6] == d2[6] && d[7] == d2[7]);
    let map = be32(d, 4);
    assert(be32(d2, 4) == map);
    let list_ref = map + 0x18;
    if list_ref + 2 <= d.len() {
        assert(d[list_ref] == d2[list_ref] && d[list_ref + 1] == d2[list_ref + 1]);
        let list = map + be16(d, list_ref);
        if list + 2 <= d.len() {
            assert(d[list] == d2[list] && d[list + 1] == d2[list + 1]);
            lemma_type_list_reads_from(d, d2, list + 2, (be16(d, list) + 1) as nat, 4);
        }
    }
}

/// The signatures by their bytes: TrueType is `t r u e`, `00 01 00 00` or
/// `t t c f` in bytes 0 to 4; CFF OpenType is `O T T O` there; a PFB Type 1
/// font has at least 21 bytes, `0x80` then a segment type of at most 3, and
/// `%!PS` or `%!FontType1` from byte 6.
pub proof fn law_signature_bytes(d: Seq<u8>)
    ensures
        is_truetype_stream(d) <==> d.len() >= 4 && ((d[0] == 't' as u8 && d[1] == 'r' as u8 && d[2] == 'u' as u8 && d[3] == 'e' as u8) || (d[0] == 0 && d[1] == 1 && d[2] == 0 && d[3] == 0)
            || (d[0] == 't' as u8 && d[1] == 't' as u8 && d[2] == 'c' as u8 && d[3] == 'f' as u8)),
        is_opentype_stream(d) <==> d.len() >= 4 && (d[0] == 'O' as u8 && d[1] == 'T' as u8 && d[2] == 'T' as u8 && d[3] == 'O' as u8),
        is_type1_stream(d) <==> d.len() >= 21 && d[0] == 0x80 && d[1] <= 3 && ((d[6] == '%' as u8 && d[7] == '!' as u8 && d[8] == 'P' as u8 && d[9] == 'S' as u8) || (d[6] == '%' as u8 && d[7] == '!' as u8 && d[8] == 'F' as u8 && d[9] == 'o' as u8 && d[10] == 'n' as u8 && d[11] == 't' as u8 && d[12] == 'T' as u8 && d[13] == 'y' as u8 && d[14] == 'p' as u8 && d[15] == 'e' as u8 && d[16] == '1' as u8)),
{
    if d.len() >= 4 {
        assert(d.subrange(0, 4) =~= seq![d[0], d[1], d[2], d[3]]);
    }
    if d.len() >= 21 {
        assert(d.subrange(6, 10) =~= seq![d[6], d[7], d[8], d[9]]);
        assert(d.subrange(6, 17) =~= seq![d[6], d[7], d[8], d[9], d[10], d[11], d[12], d[13], d[14], d[15], d[16]]);
    }
}

} // verus!
