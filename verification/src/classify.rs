//! The link-strategy classifier: a pure decision over the file's
//! category, its relative path and the platform.

use crate::platform::is_windows_platform;
use crate::platform::spec_is_windows_platform;
use crate::strings::ends_with;
use crate::strings::last_path_segment;
use crate::strings::str_ends_with;
use crate::strings::str_eq;
use crate::strings::str_last_path_segment;
use vstd::prelude::*;
use vstd::string::StrSliceExecFns;

verus! {

/// The category a file is listed under in its package's record.
#[derive(Clone, Copy, Debug, PartialEq, Eq, Structural)]
pub enum FileCategory {
    Binary,
    Documentation,
    Runtime,
    Source,
}

/// How one file is reproduced under the local root.
#[derive(Clone, Copy, Debug, PartialEq, Eq, Structural)]
pub enum LinkStrategy {
    /// A symbolic link to the absolute global path.
    Symlink,
    /// A hard link, falling back to a full copy on any failure.
    HardlinkOrCopy,
    /// Always a full copy.
    Copy,
}

/// The strategy for one file.  Rules, first match wins: the lookup-path
/// resolver executable is hard-linked or copied, so that it observes its
/// own location under the local root; the font-map configuration is
/// copied, because later tooling mutates it in place; font containers on
/// the Windows target are hard-linked or copied around a platform defect
/// with symbolic links; everything else is symlinked.
pub open spec fn spec_classify(
    category: FileCategory,
    rel_path: Seq<char>,
    platform: Seq<char>,
) -> LinkStrategy {
    let seg = last_path_segment(rel_path, spec_is_windows_platform(platform));
    if category is Binary && (seg == "kpsewhich"@ || (spec_is_windows_platform(platform)
        && seg == "kpsewhich.exe"@)) {
        LinkStrategy::HardlinkOrCopy
    } else if category is Runtime && seg == "updmap.cfg"@ {
        LinkStrategy::Copy
    } else if category is Runtime && spec_is_windows_platform(platform) && ends_with(
        seg,
        ".otf"@,
    ) && seg.len() > 4 {
        LinkStrategy::HardlinkOrCopy
    } else {
        LinkStrategy::Symlink
    }
}

/// Classifies one file; deterministic and total.
pub fn classify(category: FileCategory, rel_path: &str, platform: &str) -> (r: LinkStrategy)
    ensures
        r == spec_classify(category, rel_path@, platform@),
{
    let windows = is_windows_platform(platform);
    let seg = str_last_path_segment(rel_path, windows);
    let is_binary = matches!(category, FileCategory::Binary);
    let is_runtime = matches!(category, FileCategory::Runtime);
    if is_binary && (str_eq(seg.as_str(), "kpsewhich") || (windows && str_eq(
        seg.as_str(),
        "kpsewhich.exe",
    ))) {
        LinkStrategy::HardlinkOrCopy
    } else if is_runtime && str_eq(seg.as_str(), "updmap.cfg") {
        LinkStrategy::Copy
    } else if is_runtime && windows && str_ends_with(seg.as_str(), ".otf")
        && seg.as_str().unicode_len() > 4 {
        LinkStrategy::HardlinkOrCopy
    } else {
        LinkStrategy::Symlink
    }
}

} // verus!
