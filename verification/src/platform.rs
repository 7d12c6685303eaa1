//! The platform identifier and the platform-conditional choices that
//! depend on it.

use crate::strings::str_eq;
use vstd::prelude::*;

verus! {

/// True for the platform identifiers of the Windows target, where the
/// executable naming convention, the font handling and the seed set
/// differ.
pub open spec fn spec_is_windows_platform(platform: Seq<char>) -> bool {
    platform == "windows"@ || platform == "win32"@
}

/// Decides whether a platform identifier names the Windows target.
pub fn is_windows_platform(platform: &str) -> (r: bool)
    ensures
        r == spec_is_windows_platform(platform@),
{
    str_eq(platform, "windows") || str_eq(platform, "win32")
}

} // verus!
