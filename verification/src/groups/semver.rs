//! The kinds of semver group a config file can hold.

use vstd::prelude::*;
use crate::group_selector::GroupSelector;

verus! {

/// A semver group whose instances keep whatever range they have.
pub struct DisabledSemverGroup {
    pub selector: GroupSelector,
    pub is_disabled: bool,
}

/// A semver group whose instances are not checked at all.
pub struct IgnoredSemverGroup {
    pub selector: GroupSelector,
    pub is_ignored: bool,
}

/// A semver group whose instances should all use one range operator.
pub struct WithRangeSemverGroup {
    pub selector: GroupSelector,
    pub range: String,
}

pub enum SemverGroup {
    Disabled(DisabledSemverGroup),
    Ignored(IgnoredSemverGroup),
    WithRange(WithRangeSemverGroup),
}

} // verus!
