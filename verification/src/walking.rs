//! How the searching tools walk a directory.
use vstd::prelude::*;
use crate::text::same;

verus! {

/// How a directory is walked.
#[derive(Debug, PartialEq, Eq, Clone, Copy, Structural)]
pub struct WalkSettings {
    /// Whether the ignore rules are read: `.gitignore`, `.ignore`,
    /// `.git/info/exclude` and the global ones.
    pub standard_filters: bool,
    /// Whether hidden entries are dropped.
    pub hidden: bool,
    /// Whether links are followed.
    pub follow_links: bool,
}

/// How a directory is walked. Hidden entries are kept: being hidden is not an
/// ignore rule, and dropping them would hide `.github/workflows/`.
pub fn walk_settings(include_ignored: bool) -> (s: WalkSettings)
    ensures
        s == (WalkSettings {
            standard_filters: !include_ignored,
            hidden: false,
            follow_links: true,
        }),
{
    WalkSettings { standard_filters: !include_ignored, hidden: false, follow_links: true }
}

/// Whether an entry of the name is walked. `.git` is not, whatever the settings:
/// there is nothing to find there.
pub fn is_walked(file_name: &str) -> (r: bool)
    ensures
        r == (file_name@ != ".git"@),
{
    !same(file_name, ".git")
}

} // verus!
