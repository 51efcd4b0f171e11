//! The settings the file helpers keep between calls: the verbosity level and
//! the cache-keeping mode that decides whether temporary files are removed.
use vstd::prelude::*;

verus! {

/// Verbosity and cache-keeping mode. `keep_cache == 1` keeps temporary
/// files unless their removal is forced; `-1` (set by
/// [`dpx_delete_old_cache`] with `life == -2`) and `0` remove them.
pub struct DpxFileSettings {
    pub verbose: i32,
    pub keep_cache: i32,
}

/// Whether a temporary file is removed when it is released: always when
/// the removal is forced, and otherwise unless the cache is kept.
pub open spec fn removes(s: DpxFileSettings, force: i32) -> bool {
    force != 0 || s.keep_cache != 1
}

/// The settings after the cache is given the life `life`.
pub open spec fn with_cache_life(s: DpxFileSettings, life: i32) -> DpxFileSettings {
    if life == -2 {
        DpxFileSettings { verbose: s.verbose, keep_cache: -1i32 }
    } else {
        s
    }
}

impl DpxFileSettings {
    /// The settings at start-up: not verbose, temporary files removed.
    pub fn new() -> (s: Self)
        ensures
            s.verbose == 0,
            s.keep_cache == 0,
    {
        DpxFileSettings { verbose: 0, keep_cache: 0 }
    }

    /// Whether a temporary file is removed when it is released: always when
    /// the removal is forced, and otherwise unless the cache is kept.
    pub fn removes_temp_file(&self, force: i32) -> (r: bool)
        ensures
            r == removes(*self, force),
    {
        force != 0 || self.keep_cache != 1
    }
}

/// Sets the verbosity level.
pub fn dpx_file_set_verbose(settings: &mut DpxFileSettings, level: i32)
    ensures
        final(settings).verbose == level,
        final(settings).keep_cache == old(settings).keep_cache,
{
    settings.verbose = level;
}

/// Old cache files are no longer deleted; a `life` of -2 switches to
/// removing every temporary file.
pub fn dpx_delete_old_cache(settings: &mut DpxFileSettings, life: i32)
    ensures
        *final(settings) == with_cache_life(*old(settings), life),
{
    if life == -2 {
        settings.keep_cache = -1;
    }
}

/// Converting a file through an external filter is disabled: the result is
/// always the failure code -1.
pub fn dpx_file_apply_filter(cmdtmpl: &[u8], input: &[u8], output: &[u8], version: u8) -> (r: i32)
    ensures
        r == -1,
{
    -1
}

/// After the cache is given a life of -2, every temporary file is removed,
/// forced or not; a forced removal happens under any settings.
pub proof fn law_cache_life_minus_two_removes_all(s: DpxFileSettings, force: i32)
    ensures
        removes(with_cache_life(s, -2i32), force),
        force != 0 ==> removes(s, force),
{
}

} // verus!
