//! The kinds of version group a config file can hold.

use vstd::prelude::*;
use crate::group_selector::GroupSelector;

verus! {

/// A version group whose dependencies should not be used at all.
pub struct BannedVersionGroup {
    pub selector: GroupSelector,
    pub is_banned: bool,
}

/// A version group whose dependencies are not checked.
pub struct IgnoredVersionGroup {
    pub selector: GroupSelector,
    pub is_ignored: bool,
}

/// A version group whose dependencies should all use one version.
pub struct PinnedVersionGroup {
    pub selector: GroupSelector,
    pub pin_version: String,
}

/// A version group whose dependencies' ranges should all overlap.
pub struct SameRangeVersionGroup {
    pub selector: GroupSelector,
    pub policy: String,
}

/// A version group whose dependencies follow the versions used in some
/// named packages.
pub struct SnappedToVersionGroup {
    pub selector: GroupSelector,
    pub snap_to: Vec<String>,
}

/// A version group whose dependencies follow the highest or lowest version
/// in use.
pub struct StandardVersionGroup {
    pub selector: GroupSelector,
    pub prefer_version: String,
}

pub enum VersionGroup {
    Banned(BannedVersionGroup),
    Ignored(IgnoredVersionGroup),
    Pinned(PinnedVersionGroup),
    SameRange(SameRangeVersionGroup),
    SnappedTo(SnappedToVersionGroup),
    Standard(StandardVersionGroup),
}

} // verus!
