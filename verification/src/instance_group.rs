//! Every instance of one dependency, gathered with the specifiers they use.

use vstd::prelude::*;
use crate::instance::Instance;
use crate::text::str_is;

verus! {

/// A group of instances of the same dependency, which all have the same
/// version specifier once they are valid.
pub struct InstanceGroup<'a> {
    /// The name of the dependency
    pub name: String,
    /// Every instance of this dependency in this version group.
    pub all: Vec<&'a Instance>,
    /// The version specifier which all instances in this group should have
    pub expected_version: Option<String>,
    /// If this dependency is a local package, this is the local instance.
    pub local: Option<&'a Instance>,
    /// All instances with `Specifier::NonSemver` versions
    pub non_semver: Vec<&'a Instance>,
    /// All instances with `Specifier::Semver` versions
    pub semver: Vec<&'a Instance>,
    /// Each entry is a unique raw version specifier, with every instance which
    /// has that version specifier.
    ///
    /// If there is more than one unique version, then we have mismatches
    pub by_specifier: Vec<(String, Vec<&'a Instance>)>,
}

impl<'a> InstanceGroup<'a> {
    /// No specifier is listed twice in `by_specifier`.
    pub open spec fn wf(&self) -> bool {
        forall|i: int, j: int|
            0 <= i < j < self.by_specifier@.len() ==> (#[trigger] self.by_specifier@[i]).0@
                != (#[trigger] self.by_specifier@[j]).0@
    }

    /// An empty group for the dependency `name`.
    pub fn new(name: String) -> (r: InstanceGroup<'a>)
        ensures
            r.wf(),
            r.name == name,
            r.all@.len() == 0,
            r.expected_version is None,
            r.local is None,
            r.non_semver@.len() == 0,
            r.semver@.len() == 0,
            r.by_specifier@.len() == 0,
    {
        InstanceGroup {
            name,
            all: Vec::new(),
            expected_version: None,
            local: None,
            non_semver: Vec::new(),
            semver: Vec::new(),
            by_specifier: Vec::new(),
        }
    }

    /// Is the exact same specifier used by all instances in this group? As
    /// no specifier is listed twice, that is when exactly one is listed.
    pub fn has_identical_specifiers(&self) -> (r: bool)
        requires
            self.wf(),
        ensures
            r == (self.by_specifier@.len() == 1),
    {
        self.by_specifier.len() == 1
    }

    /// Does `actual` differ from what this group expects? Without an expected
    /// version, a group that holds specifiers which are not semver cannot
    /// agree on one, so every instance mismatches.
    pub fn is_mismatch(&self, actual: &String) -> (r: bool)
        requires
            self.expected_version is Some || self.non_semver@.len() > 0,
        ensures
            r == match self.expected_version {
                Some(expected) => actual@ != expected@,
                None => true,
            },
    {
        match &self.expected_version {
            Some(expected) => !str_is(actual.as_str(), expected.as_str()),
            None => true,
        }
    }
}

} // verus!
