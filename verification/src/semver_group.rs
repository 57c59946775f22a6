//! Semver groups: which range the specifiers of selected instances should use.

use vstd::prelude::*;
use crate::group_selector::GroupSelector;
use crate::specifier::semver_range::{range_from_chars, SemverRange};

verus! {

#[derive(Clone, Copy, Debug, PartialEq, Eq, Structural)]
pub enum SemverGroupVariant {
    Disabled,
    Ignored,
    WithRange,
}

#[derive(Clone, Debug)]
pub struct SemverGroup {
    /// What behaviour has this group been configured to exhibit?
    pub variant: SemverGroupVariant,
    /// Data to determine which instances should be added to this group
    pub selector: GroupSelector,
    /// The Semver Range which all instances in this group should use
    pub range: Option<SemverRange>,
}

/// A semver group as written in a config file.
#[derive(Clone, Debug)]
pub struct AnySemverGroup {
    pub dependencies: Vec<String>,
    pub dependency_types: Vec<String>,
    pub label: String,
    pub packages: Vec<String>,
    pub specifier_types: Vec<String>,
    pub is_disabled: Option<bool>,
    pub is_ignored: Option<bool>,
    pub range: Option<String>,
}

/// A config item defines a semver group when it disables or ignores, or
/// names a range.
pub open spec fn is_valid_semver_group(group: AnySemverGroup) -> bool {
    group.is_disabled == Some(true) || group.is_ignored == Some(true) || group.range is Some
}

/// The variant a config item gives its semver group.
pub open spec fn semver_group_variant(group: AnySemverGroup) -> SemverGroupVariant {
    if group.is_disabled == Some(true) {
        SemverGroupVariant::Disabled
    } else if group.is_ignored == Some(true) {
        SemverGroupVariant::Ignored
    } else {
        SemverGroupVariant::WithRange
    }
}

fn clone_strings(v: &Vec<String>) -> (r: Vec<String>)
    ensures
        r@ == v@,
{
    let mut out: Vec<String> = Vec::new();
    let mut i: usize = 0;
    while i < v.len()
        invariant
            i <= v@.len(),
            out@ == v@.subrange(0, i as int),
        decreases v@.len() - i,
    {
        out.push(v[i].clone());
        assert(out@ =~= v@.subrange(0, i + 1));
        i = i + 1;
    }
    assert(out@ =~= v@);
    out
}

impl SemverGroup {
    /// Create a default/catch-all group which would apply to any instance
    pub fn get_catch_all() -> (r: SemverGroup)
        ensures
            r.variant == SemverGroupVariant::Disabled,
            r.range is None,
            r.selector.dependencies@.len() == 0,
            r.selector.dependency_types@.len() == 0,
            r.selector.packages@.len() == 0,
            r.selector.specifier_types@.len() == 0,
            r.selector.label@ == "Default Semver Group"@,
    {
        SemverGroup {
            variant: SemverGroupVariant::Disabled,
            selector: GroupSelector::new(
                Vec::new(),
                Vec::new(),
                String::from_str("Default Semver Group"),
                Vec::new(),
                Vec::new(),
            ),
            range: None,
        }
    }

    /// Create a single semver group from a config item from the rcfile.
    pub fn from_config(group: &AnySemverGroup) -> (r: SemverGroup)
        requires
            is_valid_semver_group(*group),
        ensures
            r.variant == semver_group_variant(*group),
            r.variant == SemverGroupVariant::WithRange ==> r.range == range_from_chars(
                group.range.unwrap()@,
            ),
            r.variant != SemverGroupVariant::WithRange ==> r.range is None,
            r.selector.dependencies@ == group.dependencies@,
            r.selector.dependency_types@ == group.dependency_types@,
            r.selector.label@ == group.label@,
            r.selector.packages@ == group.packages@,
            r.selector.specifier_types@ == group.specifier_types@,
    {
        let selector = GroupSelector::new(
            clone_strings(&group.dependencies),
            clone_strings(&group.dependency_types),
            group.label.clone(),
            clone_strings(&group.packages),
            clone_strings(&group.specifier_types),
        );
        if group.is_disabled == Some(true) {
            SemverGroup { variant: SemverGroupVariant::Disabled, selector, range: None }
        } else if group.is_ignored == Some(true) {
            SemverGroup { variant: SemverGroupVariant::Ignored, selector, range: None }
        } else {
            let range = match &group.range {
                Some(range) => SemverRange::new(range.as_str()),
                None => None,
            };
            SemverGroup { variant: SemverGroupVariant::WithRange, selector, range }
        }
    }
}

} // verus!
