//! File-name rules: default suffixes, the resource fork of a dfont, the
//! temporary directory and the template for temporary files. Names are the
//! bytes of a C string, without its terminating NUL.
use vstd::prelude::*;
use crate::bytes::{has_byte, has_suffix, contains_byte, ends_with, concat};

verus! {

/// `basename` with `sfx` appended when `basename` has no `.` at all and
/// `sfx` is not empty; otherwise `basename` itself.
pub open spec fn with_suffix(basename: Seq<u8>, sfx: Seq<u8>) -> Seq<u8> {
    if !has_byte(basename, '.' as u8) && sfx.len() > 0 {
        basename + sfx
    } else {
        basename
    }
}

/// Gives `basename` the suffix `sfx` unless it already has a `.` anywhere
/// in it (a copy of `basename` when `sfx` is empty).
pub fn ensuresuffix(basename: &[u8], sfx: &[u8]) -> (r: Vec<u8>)
    ensures
        r@ == with_suffix(basename@, sfx@),
{
    if !contains_byte(basename, '.' as u8) && sfx.len() > 0 {
        concat(basename, sfx)
    } else {
        concat(basename, &[])
    }
}

/// The name ensuring a suffix gives starts with the name it was given, and
/// ensuring the same suffix again changes nothing when the suffix holds a
/// `.` (as `.otf` does) or is empty.
pub proof fn law_ensuresuffix_settles(basename: Seq<u8>, sfx: Seq<u8>)
    ensures
        with_suffix(basename, sfx).subrange(0, basename.len() as int) == basename,
        (has_byte(sfx, '.' as u8) || sfx.len() == 0) ==> with_suffix(with_suffix(basename, sfx), sfx)
            == with_suffix(basename, sfx),
{
    let r = with_suffix(basename, sfx);
    assert(r.subrange(0, basename.len() as int) =~= basename);
    if has_byte(sfx, '.' as u8) && !has_byte(basename, '.' as u8) {
        let i = choose|i: int| 0 <= i < sfx.len() && sfx[i] == '.' as u8;
        assert(r[basename.len() + i] == '.' as u8);
    }
}

/// `.dfont`.
pub open spec fn dfont_suffix() -> Seq<u8> {
    seq!['.' as u8, 'd' as u8, 'f' as u8, 'o' as u8, 'n' as u8, 't' as u8]
}

/// `/rsrc`, the path of a file's resource fork.
pub open spec fn resource_fork_suffix() -> Seq<u8> {
    seq!['/' as u8, 'r' as u8, 's' as u8, 'r' as u8, 'c' as u8]
}

/// The name a dfont is opened under: a name longer than six bytes that does
/// not end in `.dfont` is read through its resource fork (`/rsrc`
/// appended); any other name is used as it is.
pub open spec fn dfont_name(filename: Seq<u8>) -> Seq<u8> {
    if filename.len() > 6 && !has_suffix(filename, dfont_suffix()) {
        filename + resource_fork_suffix()
    } else {
        filename
    }
}

/// The name under which a dfont file is opened.
pub fn dfont_file_name(filename: &[u8]) -> (r: Vec<u8>)
    ensures
        r@ == dfont_name(filename@),
{
    let dfont: [u8; 6] = ['.' as u8, 'd' as u8, 'f' as u8, 'o' as u8, 'n' as u8, 't' as u8];
    let rsrc: [u8; 5] = ['/' as u8, 'r' as u8, 's' as u8, 'r' as u8, 'c' as u8];
    assert(dfont@ =~= dfont_suffix());
    assert(rsrc@ =~= resource_fork_suffix());
    if filename.len() > 6 && !ends_with(filename, &dfont) {
        concat(filename, &rsrc)
    } else {
        concat(filename, &[])
    }
}

/// `/tmp`, the temporary directory when `TMPDIR` is not set.
pub open spec fn default_tmpdir() -> Seq<u8> {
    seq!['/' as u8, 't' as u8, 'm' as u8, 'p' as u8]
}

/// `s` without its trailing `/` bytes, keeping at least one byte.
pub open spec fn strip_trailing_slashes(s: Seq<u8>) -> Seq<u8>
    decreases s.len(),
{
    if s.len() > 1 && s.last() == '/' as u8 {
        strip_trailing_slashes(s.drop_last())
    } else {
        s
    }
}

/// The temporary directory: the value of `TMPDIR` when it is set, else
/// `/tmp`, without trailing slashes (a lone `/` is kept).
pub open spec fn tmpdir_name(env_value: Option<Seq<u8>>) -> Seq<u8> {
    match env_value {
        Some(v) => strip_trailing_slashes(v),
        None => strip_trailing_slashes(default_tmpdir()),
    }
}

/// The temporary directory, from the value of `TMPDIR` if it is set.
pub fn dpx_tmpdir(env_value: Option<&[u8]>) -> (r: Vec<u8>)
    ensures
        r@ == tmpdir_name(
            match env_value {
                Some(v) => Some(v@),
                None => None,
            },
        ),
{
    let fallback: [u8; 4] = ['/' as u8, 't' as u8, 'm' as u8, 'p' as u8];
    assert(fallback@ =~= default_tmpdir());
    let mut r = match env_value {
        Some(v) => concat(v, &[]),
        None => concat(&fallback, &[]),
    };
    let ghost full = r@;
    while r.len() > 1 && r[r.len() - 1] == '/' as u8
        invariant
            strip_trailing_slashes(r@) == strip_trailing_slashes(full),
        decreases r.len(),
    {
        r.pop();
    }
    r
}

/// Stripping trailing slashes keeps a prefix of the name, does not empty a
/// non-empty name, leaves no trailing `/` except on `/` itself, and a second
/// stripping changes nothing.
pub proof fn law_tmpdir_stripping(s: Seq<u8>)
    ensures
        strip_trailing_slashes(s).len() <= s.len(),
        strip_trailing_slashes(s) == s.subrange(0, strip_trailing_slashes(s).len() as int),
        s.len() > 0 ==> strip_trailing_slashes(s).len() > 0,
        strip_trailing_slashes(s).len() > 1 ==> strip_trailing_slashes(s).last() != '/' as u8,
        strip_trailing_slashes(strip_trailing_slashes(s)) == strip_trailing_slashes(s),
    decreases s.len(),
{
    if s.len() > 1 && s.last() == '/' as u8 {
        law_tmpdir_stripping(s.drop_last());
        let t = strip_trailing_slashes(s.drop_last());
        assert(s.drop_last().subrange(0, t.len() as int) =~= s.subrange(0, t.len() as int));
    } else {
        assert(s.subrange(0, s.len() as int) =~= s);
    }
}

/// `/dvipdfmx.XXXXXX`, appended to the temporary directory to form the
/// template of a temporary file name.
pub open spec fn temp_file_suffix() -> Seq<u8> {
    seq![
        '/' as u8, 'd' as u8, 'v' as u8, 'i' as u8, 'p' as u8, 'd' as u8, 'f' as u8, 'm' as u8,
        'x' as u8, '.' as u8, 'X' as u8, 'X' as u8, 'X' as u8, 'X' as u8, 'X' as u8, 'X' as u8,
    ]
}

/// The template from which a temporary file is created in `tmpdir`; the six
/// trailing `X` bytes are replaced when the file is made.
pub fn temp_file_template(tmpdir: &[u8]) -> (r: Vec<u8>)
    ensures
        r@ == tmpdir@ + temp_file_suffix(),
{
    let tail: [u8; 16] = [
        '/' as u8, 'd' as u8, 'v' as u8, 'i' as u8, 'p' as u8, 'd' as u8, 'f' as u8, 'm' as u8,
        'x' as u8, '.' as u8, 'X' as u8, 'X' as u8, 'X' as u8, 'X' as u8, 'X' as u8, 'X' as u8,
    ];
    assert(tail@ =~= temp_file_suffix());
    concat(tmpdir, &tail)
}

/// The names by their bytes: a name longer than six bytes is read through
/// `NAME/rsrc` unless it ends in `.dfont`; without `TMPDIR` the temporary
/// directory is `/tmp`; temporary files are made from `DIR/dvipdfmx.XXXXXX`.
pub proof fn law_name_bytes(filename: Seq<u8>)
    ensures
        dfont_name(filename) == if filename.len() > 6 && !(filename[filename.len() - 6 + 0] == '.' as u8 && filename[filename.len() - 6 + 1] == 'd' as u8 && filename[filename.len() - 6 + 2] == 'f' as u8 && filename[filename.len() - 6 + 3] == 'o' as u8 && filename[filename.len() - 6 + 4] == 'n' as u8 && filename[filename.len() - 6 + 5] == 't' as u8) {
            filename + seq!['/' as u8, 'r' as u8, 's' as u8, 'r' as u8, 'c' as u8]
        } else {
            filename
        },
        tmpdir_name(None) == seq!['/' as u8, 't' as u8, 'm' as u8, 'p' as u8],
        temp_file_suffix() == seq!['/' as u8, 'd' as u8, 'v' as u8, 'i' as u8, 'p' as u8, 'd' as u8, 'f' as u8, 'm' as u8, 'x' as u8, '.' as u8, 'X' as u8, 'X' as u8, 'X' as u8, 'X' as u8, 'X' as u8, 'X' as u8],
{
    let n = filename.len() as int;
    if n > 6 {
        assert(filename.subrange(n - 6, n) =~= seq![filename[n - 6], filename[n - 5], filename[n - 4], filename[n - 3], filename[n - 2], filename[n - 1]]);
    }
    assert(resource_fork_suffix() =~= seq!['/' as u8, 'r' as u8, 's' as u8, 'r' as u8, 'c' as u8]);
    assert(default_tmpdir() =~= seq!['/' as u8, 't' as u8, 'm' as u8, 'p' as u8]);
    assert(strip_trailing_slashes(default_tmpdir()) == default_tmpdir());
    assert(temp_file_suffix() =~= seq!['/' as u8, 'd' as u8, 'v' as u8, 'i' as u8, 'p' as u8, 'd' as u8, 'f' as u8, 'm' as u8, 'x' as u8, '.' as u8, 'X' as u8, 'X' as u8, 'X' as u8, 'X' as u8, 'X' as u8, 'X' as u8]);
}

} // verus!
