//! Layout of the embedded CFF font file: the size reserved for it and the
//! offsets at which its parts are written, in the order of the CFF data
//! layout (header, Name INDEX, Top DICT INDEX, String INDEX, Global Subrs
//! INDEX, Encoding, charset, CharStrings INDEX, Private DICT).
use vstd::prelude::*;

verus! {

/// The sizes in bytes of the parts of a CFF font file.
#[derive(Clone, Copy, Debug, PartialEq, Eq, Structural)]
pub struct FontFileParts {
    pub header: usize,
    pub name_index: usize,
    pub top_dict_index: usize,
    pub string_index: usize,
    pub gsubr_index: usize,
    pub encoding: usize,
    pub charset: usize,
    pub charstrings: usize,
    pub private_dict: usize,
}

/// Where the parts of a CFF font file start, and its total length.
#[derive(Clone, Copy, Debug, PartialEq, Eq, Structural)]
pub struct FontFileLayout {
    pub top_dict_offset: usize,
    pub encoding_offset: usize,
    pub charset_offset: usize,
    pub charstrings_offset: usize,
    /// Recorded in the Top DICT only when there is a non-empty Private DICT.
    pub private_offset: Option<usize>,
    pub length: usize,
}

/// The total size of all parts.
pub open spec fn parts_total(p: FontFileParts) -> int {
    p.header + p.name_index + p.top_dict_index + p.string_index + p.gsubr_index + p.encoding + p.charset
        + p.charstrings + p.private_dict
}

/// The layout of a font file whose parts have the sizes `p`, written one
/// after the other; `has_private` tells whether the font has a Private DICT.
pub open spec fn layout_of(p: FontFileParts, has_private: bool) -> FontFileLayout {
    let top = p.header + p.name_index;
    let enc = top + p.top_dict_index + p.string_index + p.gsubr_index;
    let cs = enc + p.encoding;
    let chars = cs + p.charset;
    let private = chars + p.charstrings;
    FontFileLayout {
        top_dict_offset: top as usize,
        encoding_offset: enc as usize,
        charset_offset: cs as usize,
        charstrings_offset: chars as usize,
        private_offset: if has_private && p.private_dict > 0 {
            Some(private as usize)
        } else {
            None
        },
        length: parts_total(p) as usize,
    }
}

/// The offsets at which the parts are written and the length written.
pub fn fontfile_layout(p: &FontFileParts, has_private: bool) -> (l: FontFileLayout)
    requires
        parts_total(*p) <= usize::MAX,
    ensures
        l == layout_of(*p, has_private),
{
    let mut offset: usize = p.header;
    offset = offset + p.name_index;
    let top_dict_offset = offset;
    offset = offset + p.top_dict_index;
    offset = offset + p.string_index;
    offset = offset + p.gsubr_index;
    let encoding_offset = offset;
    offset = offset + p.encoding;
    let charset_offset = offset;
    offset = offset + p.charset;
    let charstrings_offset = offset;
    offset = offset + p.charstrings;
    let private_offset = if has_private && p.private_dict > 0 {
        Some(offset)
    } else {
        None
    };
    offset = offset + p.private_dict;
    FontFileLayout {
        top_dict_offset,
        encoding_offset,
        charset_offset,
        charstrings_offset,
        private_offset,
        length: offset,
    }
}

/// The size reserved for a format 1 encoding with its supplements.
pub open spec fn encoding_size_estimate(num_ranges: int, num_supps: int) -> int {
    2 + num_ranges * 2 + 1 + num_supps * 3
}

/// The size reserved for a format 0 charset.
pub open spec fn charset_size_estimate(num_entries: int) -> int {
    1 + num_entries * 2
}

/// The size reserved for the font file: a four-byte header, the INDEX and
/// DICT sizes of `p`, and the encoding and charset sizes estimated from
/// their entry counts (the header, encoding and charset sizes of `p` are
/// not read).
pub open spec fn size_estimate(p: FontFileParts, num_ranges: int, num_supps: int, charset_entries: int) -> int {
    4 + p.name_index + p.top_dict_index + p.string_index + p.gsubr_index + encoding_size_estimate(
        num_ranges,
        num_supps,
    ) + charset_size_estimate(charset_entries) + p.charstrings + p.private_dict
}

/// The size reserved for the font file before it is written.
pub fn fontfile_size_estimate(p: &FontFileParts, num_ranges: u8, num_supps: u8, charset_entries: u16) -> (r: usize)
    requires
        size_estimate(*p, num_ranges as int, num_supps as int, charset_entries as int) <= usize::MAX,
    ensures
        r == size_estimate(*p, num_ranges as int, num_supps as int, charset_entries as int),
{
    let mut len: usize = 4;
    len = len + p.name_index;
    len = len + p.top_dict_index;
    len = len + p.string_index;
    len = len + p.gsubr_index;
    len = len + 2 + num_ranges as usize * 2 + 1 + num_supps as usize * 3;
    len = len + 1 + charset_entries as usize * 2;
    len = len + p.charstrings;
    len = len + p.private_dict;
    len
}

/// The parts are laid out in order without gaps or overlaps, and when the
/// header is four bytes and the encoding and charset are as large as
/// estimated, the file fills exactly the size reserved for it.
pub proof fn law_layout_fills_reserved_size(
    p: FontFileParts,
    has_private: bool,
    num_ranges: int,
    num_supps: int,
    charset_entries: int,
)
    requires
        parts_total(p) <= usize::MAX,
    ensures
        ({
            let l = layout_of(p, has_private);
            &&& l.top_dict_offset <= l.encoding_offset <= l.charset_offset <= l.charstrings_offset <= l.length
            &&& l.charset_offset - l.encoding_offset == p.encoding
            &&& l.charstrings_offset - l.charset_offset == p.charset
            &&& l.length - l.charstrings_offset == p.charstrings + p.private_dict
            &&& (p.header == 4 && p.encoding == encoding_size_estimate(num_ranges, num_supps) && p.charset
                == charset_size_estimate(charset_entries)) ==> l.length == size_estimate(
                p,
                num_ranges,
                num_supps,
                charset_entries,
            )
        }),
{
}

/// The parts follow the CFF data layout order: the Top DICT INDEX right
/// after the header and Name INDEX, the Encoding after the Top DICT, String
/// and Global Subrs INDEXes, then charset, CharStrings and the Private DICT,
/// whose offset is recorded exactly when the font has a non-empty one.
pub proof fn law_layout_follows_cff_order(p: FontFileParts, has_private: bool)
    requires
        parts_total(p) <= usize::MAX,
    ensures
        ({
            let l = layout_of(p, has_private);
            &&& l.top_dict_offset == p.header + p.name_index
            &&& l.encoding_offset == l.top_dict_offset + p.top_dict_index + p.string_index + p.gsubr_index
            &&& l.charset_offset == l.encoding_offset + p.encoding
            &&& l.charstrings_offset == l.charset_offset + p.charset
            &&& (l.private_offset is Some <==> has_private && p.private_dict > 0)
            &&& (l.private_offset is Some ==> l.private_offset.unwrap() == l.charstrings_offset + p.charstrings)
            &&& l.length == l.charstrings_offset + p.charstrings + p.private_dict
        }),
{
}

} // verus!
