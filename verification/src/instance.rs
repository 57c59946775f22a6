//! One occurrence of a dependency in one package.json file.

use vstd::prelude::*;
use crate::dependency_type::{DependencyType, Strategy};
use crate::json::{at_pointer, member_value, with_at_pointer, with_member_at, without_member_at, Json, JsonView};
use crate::instance_state::InstanceState;
use crate::semver_group::SemverGroup;
use crate::specifier::Specifier;
use crate::specifier::orderable::{node_semver_range_satisfies, node_semver_version_parse, range_satisfies, same_version};
use crate::specifier::semver::Semver;
use crate::specifier::semver_range::SemverRange;
use crate::specifier::simple_semver::SimpleSemver;
use crate::text::str_is;

verus! {

#[derive(Clone, Debug)]
pub struct Instance {
    /// The given version specifier, which should never be mutated.
    /// eg. `Specifier::Exact("16.8.0")`, `Specifier::Range("^16.8.0")`
    pub actual: Specifier,
    /// The dependency type to use to read/write this instance
    pub dependency_type: DependencyType,
    /// The latest version specifier which is mutated by Syncpack
    pub expected: Specifier,
    /// The file path of the package.json file this instance belongs to
    pub file_path: String,
    /// A unique identifier for this instance
    pub id: String,
    /// Whether this is a package developed in this repo
    pub is_local: bool,
    /// eg. "in /devDependencies of @foo/numberwang"
    pub location_hint: String,
    /// The dependency name eg. "react", "react-dom"
    pub name: String,
    /// The `.name` of the package.json this file is in
    pub package_name: String,
    /// If this instance belongs to a `WithRange` semver group, this is the range.
    /// This is used by Version Groups while determining the preferred version,
    /// to try to also satisfy any applicable semver group ranges
    pub prefer_range: Option<SemverRange>,
    /// What linting found out about this instance
    pub state: InstanceState,
    /// When a pinned version wins over the range of its semver group, the
    /// specifier the semver group would have given it
    pub overridden: Option<Specifier>,
}

/// Two specifiers are simple semver whose versions node-semver reads as
/// equal (ranges and build metadata aside).
pub open spec fn same_version_number(a: Specifier, b: Specifier) -> bool {
    match (a.simple(), b.simple()) {
        (Some(x), Some(y)) => match (
            node_semver_version_parse(x.orderable_version_chars()),
            node_semver_version_parse(y.orderable_version_chars()),
        ) {
            (Some(p), Some(q)) => same_version(p, q),
            _ => false,
        },
        _ => false,
    }
}

/// The id of an instance: "{name} in {path} of {package}".
pub open spec fn instance_id(name: Seq<char>, path: Seq<char>, package_name: Seq<char>) -> Seq<char> {
    name + " in "@ + path + " of "@ + package_name
}

/// What visiting reads of an instance: its own specifier, whether it is the
/// local one, and the range its semver group prefers.
pub struct InstanceView {
    pub actual: Specifier,
    pub is_local: bool,
    pub prefer_range: Option<SemverRange>,
}

impl View for Instance {
    type V = InstanceView;

    open spec fn view(&self) -> InstanceView {
        InstanceView { actual: self.actual, is_local: self.is_local, prefer_range: self.prefer_range }
    }
}

impl InstanceView {
    /// It is in a semver group whose range is not `range`.
    pub open spec fn prefers_range_other_than(self, range: SemverRange) -> bool {
        match self.prefer_range {
            Some(r) => r != range,
            None => false,
        }
    }

    /// Its own specifier is simple semver with the range its semver group
    /// prefers.
    pub open spec fn matches_preferred_range(self) -> bool {
        match (self.prefer_range, self.actual.simple()) {
            (Some(r), Some(a)) => a.range() == r,
            _ => false,
        }
    }

    /// Node-semver finds that its specifier, with the range of its semver
    /// group, is satisfied by the version of `target`.
    pub open spec fn preferred_range_satisfies(self, target: Specifier) -> bool {
        match (self.prefer_range, self.actual.simple(), target.simple()) {
            (Some(r), Some(a), Some(t)) => node_semver_range_satisfies(
                a.raw_with_range(r),
                t.orderable_version_chars(),
            ) == Some(true),
            _ => false,
        }
    }

    /// `s` is its own simple semver specifier with the range of its semver
    /// group.
    pub open spec fn is_with_preferred_range(self, s: Specifier) -> bool {
        match (self.prefer_range, self.actual.simple(), s.simple()) {
            (Some(r), Some(a), Some(v)) => {
                &&& v.wf()
                &&& v.kind() == a.kind_with_range(r)
                &&& v.raw() == a.raw_with_range(r)
            },
            _ => false,
        }
    }
}

impl Instance {
    /// The specifiers of the instance are well formed.
    pub open spec fn wf(self) -> bool {
        self.actual.wf() && self.expected.wf()
    }

    pub fn new(
        name: String,
        raw_specifier: String,
        dependency_type: &DependencyType,
        package_name: String,
        file_path: String,
    ) -> (r: Instance)
        ensures
            r.wf(),
            r.actual.kind() == crate::specifier::new_kind(raw_specifier@),
            r.actual.kind() != crate::specifier::SpecifierKind::Missing ==> r.actual.raw()
                == crate::specifier::parser::sanitised(raw_specifier@),
            r.expected == r.actual,
            r.name@ == name@,
            r.package_name@ == package_name@,
            r.file_path@ == file_path@,
            r.id@ == instance_id(name@, dependency_type.path@, package_name@),
            r.location_hint@ == "in "@ + dependency_type.path@ + " of "@ + package_name@,
            r.is_local == (dependency_type.path@ == "/version"@),
            r.dependency_type == *dependency_type,
            r.prefer_range is None,
            r.state == InstanceState::Unknown,
            r.overridden is None,
    {
        let specifier = Specifier::new(raw_specifier.as_str());
        let mut id = name.clone();
        id.append(" in ");
        id.append(dependency_type.path.as_str());
        id.append(" of ");
        id.append(package_name.as_str());
        let mut location_hint = String::from_str("in ");
        location_hint.append(dependency_type.path.as_str());
        location_hint.append(" of ");
        location_hint.append(package_name.as_str());
        Instance {
            actual: specifier.duplicate(),
            dependency_type: dependency_type.duplicate(),
            expected: specifier,
            file_path,
            id,
            is_local: str_is(dependency_type.path.as_str(), "/version"),
            location_hint,
            name,
            package_name,
            prefer_range: None,
            state: InstanceState::Unknown,
            overridden: None,
        }
    }

    /// Updated the expected version specifier for this instance to match the
    /// preferred semver range of the given semver group
    pub fn apply_semver_group(&mut self, group: &SemverGroup)
        requires
            old(self).wf(),
        ensures
            final(self).wf(),
            match group.range {
                Some(r) => {
                    &&& final(self).prefer_range == Some(r)
                    &&& match old(self).expected.simple() {
                        Some(e) => final(self).expected.simple() matches Some(v) && v.kind()
                            == e.kind_with_range(r) && v.raw() == e.raw_with_range(r),
                        None => final(self).expected == old(self).expected,
                    }
                },
                None => final(self).prefer_range == old(self).prefer_range && final(self).expected
                    == old(self).expected,
            },
            final(self).actual == old(self).actual,
            final(self).is_local == old(self).is_local,
            final(self).name == old(self).name,
            final(self).package_name == old(self).package_name,
            final(self).id == old(self).id,
            final(self).dependency_type == old(self).dependency_type,
            final(self).state == old(self).state,
            final(self).overridden == old(self).overridden,
    {
        if let Some(range) = &group.range {
            self.prefer_range = Some(*range);
            if let Some(simple_semver) = self.expected.get_simple_semver() {
                self.expected = Specifier::Semver(Semver::Simple(simple_semver.with_range(range)));
            }
        }
    }

    /// Does this instance's specifier match the expected specifier for this
    /// dependency except for by its own semver group's preferred semver range?
    ///
    /// ✓ it has a semver group
    /// ✓ its own version matches its expected version (eg. "1.1.0" == "1.1.0")
    /// ✓ its expected version matches the expected version of the group
    /// ✘ only its own semver range is different
    pub fn has_range_mismatch(&self, preferred: &Specifier) -> (r: bool)
        requires
            self.wf(),
            preferred.wf(),
        ensures
            r == (self.prefer_range is Some && match (
                self.actual.simple(),
                self.expected.simple(),
                preferred.simple(),
            ) {
                (Some(a), Some(e), Some(_)) => same_version_number(self.actual, self.expected)
                    && same_version_number(self.expected, *preferred) && e.range() != a.range(),
                _ => false,
            }),
    {
        if self.prefer_range.is_none() {
            return false;
        }
        match (self.actual.get_simple_semver(), self.expected.get_simple_semver(), preferred.get_simple_semver()) {
            (Some(actual), Some(expected), Some(other)) => {
                actual.has_same_version(&expected) && expected.has_same_version(&other)
                    && !expected.has_same_range(&actual)
            },
            _ => false,
        }
    }

    /// Does the given semver specifier have the expected range for this
    /// instance's semver group?
    pub fn matches_semver_group(&self, specifier: &Specifier) -> (r: bool)
        requires
            specifier.wf(),
        ensures
            r == match (self.prefer_range, specifier.simple()) {
                (Some(range), Some(s)) => s.range() == range,
                _ => false,
            },
    {
        match (&self.prefer_range, specifier.get_simple_semver()) {
            (Some(range), Some(simple_semver)) => simple_semver.get_range() == *range,
            _ => false,
        }
    }

    /// Get the expected version specifier for this instance with the semver
    /// group's preferred range applied
    pub fn get_fixed_range_mismatch(&self) -> (r: Specifier)
        requires
            self.wf(),
            self.prefer_range is Some,
            self.expected.simple() is Some,
        ensures
            r.wf(),
            r.simple() matches Some(v) && v.kind() == self.expected.simple().unwrap().kind_with_range(
                self.prefer_range.unwrap(),
            ) && v.raw() == self.expected.simple().unwrap().raw_with_range(self.prefer_range.unwrap()),
    {
        let range = self.prefer_range.unwrap();
        let expected = self.expected.get_simple_semver().unwrap();
        Specifier::Semver(Semver::Simple(expected.with_range(&range)))
    }

    /// Is its own specifier the same as `specifier`?
    pub fn already_equals(&self, specifier: &Specifier) -> (r: bool)
        ensures
            r == self.actual.same_as(*specifier),
    {
        self.actual.equals(specifier)
    }

    /// Is its own specifier simple semver with the same version number as
    /// `specifier` (ranges aside)?
    pub fn has_same_version_number_as(&self, specifier: &Specifier) -> (r: bool)
        requires
            self.wf(),
            specifier.wf(),
        ensures
            r == same_version_number(self.actual, *specifier),
    {
        match (self.actual.get_simple_semver(), specifier.get_simple_semver()) {
            (Some(a), Some(b)) => a.has_same_version(&b),
            _ => false,
        }
    }

    /// Is it in a semver group whose range is not `range`?
    pub fn must_match_preferred_semver_range_which_is_not(&self, range: &SemverRange) -> (r: bool)
        ensures
            r == self@.prefers_range_other_than(*range),
    {
        match &self.prefer_range {
            Some(r) => *r != *range,
            None => false,
        }
    }

    /// Is it in a semver group whose range differs from that of `specifier`?
    pub fn must_match_preferred_semver_range_which_differs_to(&self, specifier: &Specifier) -> (r: bool)
        requires
            specifier.wf(),
        ensures
            r == (self.prefer_range is Some && !(specifier.simple() matches Some(s)
                && s.range() == self.prefer_range.unwrap())),
    {
        match (&self.prefer_range, specifier.get_simple_semver()) {
            (Some(r), Some(s)) => s.get_range() != *r,
            (Some(_), None) => true,
            _ => false,
        }
    }

    /// Does its own specifier have the range its semver group prefers?
    pub fn matches_preferred_semver_range(&self) -> (r: bool)
        requires
            self.wf(),
        ensures
            r == self@.matches_preferred_range(),
    {
        self.matches_semver_group(&self.actual)
    }

    /// Its own specifier with the range of its semver group, when it is
    /// simple semver and in such a group.
    pub fn get_specifier_with_preferred_semver_range(&self) -> (r: Option<Specifier>)
        requires
            self.wf(),
        ensures
            match r {
                Some(s) => s.wf() && self@.is_with_preferred_range(s),
                None => self.prefer_range is None || self.actual.simple() is None,
            },
    {
        match (&self.prefer_range, self.actual.get_simple_semver()) {
            (Some(range), Some(simple_semver)) => Some(
                Specifier::Semver(Semver::Simple(simple_semver.with_range(range))),
            ),
            _ => None,
        }
    }

    /// Would its specifier, with the range of its semver group, be satisfied
    /// by the version of `target`, as node-semver sees it?
    pub fn specifier_with_preferred_semver_range_will_satisfy(&self, target: &Specifier) -> (r: bool)
        requires
            self.wf(),
            target.wf(),
        ensures
            r == self@.preferred_range_satisfies(*target),
    {
        match (&self.prefer_range, self.actual.get_simple_semver(), target.get_simple_semver()) {
            (Some(range), Some(a), Some(t)) => {
                let with_range = a.with_range(range);
                let range_string = with_range.unwrap();
                let version_string = t.get_orderable_version_string();
                proof {
                    crate::specifier::simple_semver::lemma_simple_semver_readable(with_range);
                }
                range_satisfies(range_string.as_str(), version_string.as_str()) == Some(true)
            },
            _ => false,
        }
    }

    /// Record what linting found out about this instance and the specifier
    /// it should have.
    pub fn set_state(&mut self, state: InstanceState, expected: &Specifier)
        ensures
            final(self).state == state,
            final(self).expected == *expected,
            final(self).actual == old(self).actual,
            final(self).prefer_range == old(self).prefer_range,
            final(self).is_local == old(self).is_local,
            final(self).name == old(self).name,
            final(self).package_name == old(self).package_name,
            final(self).id == old(self).id,
            final(self).overridden == old(self).overridden,
    {
        self.state = state;
        self.expected = expected.duplicate();
    }
}

/// The package.json contents once `raw` is written as the version of the
/// instance, as its dependency type's strategy stores versions.
pub open spec fn with_specifier_written(package: JsonView, inst: Instance, raw: Seq<char>) -> JsonView {
    let path = inst.dependency_type.path@;
    match inst.dependency_type.strategy {
        Strategy::NameAndVersionProps => with_at_pointer(package, path, JsonView::Str(raw)),
        Strategy::NamedVersionString => with_at_pointer(package, path, JsonView::Str(inst.name@ + seq!['@'] + raw)),
        Strategy::UnnamedVersionString => with_at_pointer(package, path, JsonView::Str(raw)),
        Strategy::VersionsByName => with_member_at(package, path, inst.name@, JsonView::Str(raw)),
        Strategy::InvalidConfig => package,
    }
}

/// The package.json contents once the instance is removed from them: only
/// dependency types that list versions by name can lose one.
pub open spec fn with_instance_removed(package: JsonView, inst: Instance) -> JsonView {
    match inst.dependency_type.strategy {
        Strategy::VersionsByName => without_member_at(package, inst.dependency_type.path@, inst.name@),
        _ => package,
    }
}

/// Can a version be written for the instance? Its strategy is known and, when
/// versions are listed by name, the instance's entry is there.
pub open spec fn can_write(package: JsonView, inst: Instance) -> bool {
    &&& inst.dependency_type.strategy != Strategy::InvalidConfig
    &&& inst.dependency_type.strategy == Strategy::VersionsByName ==> (at_pointer(
        package,
        inst.dependency_type.path@,
    ) matches Some(JsonView::Object(members)) && member_value(members, inst.name@) is Some)
}

impl Instance {
    /// Write a version of this instance to the package.json.
    pub fn write_specifier(&self, package: &mut Json, specifier: &Specifier)
        requires
            can_write(old(package).view(), *self),
        ensures
            final(package).view() == with_specifier_written(old(package).view(), *self, specifier.text()),
    {
        let raw = specifier.unwrap();
        match self.dependency_type.strategy {
            Strategy::NameAndVersionProps => {
                package.set_prop(self.dependency_type.path.as_str(), Json::Str(raw));
            },
            Strategy::NamedVersionString => {
                let mut chars = crate::text::to_chars(self.name.as_str());
                chars.push('@');
                let raw_chars = crate::text::to_chars(raw.as_str());
                let mut i: usize = 0;
                let ghost start = chars@;
                assert(start =~= self.name@ + seq!['@']);
                while i < raw_chars.len()
                    invariant
                        i <= raw_chars@.len(),
                        chars@ == start + raw_chars@.subrange(0, i as int),
                    decreases raw_chars@.len() - i,
                {
                    chars.push(raw_chars[i]);
                    proof {
                        assert(start + raw_chars@.subrange(0, i + 1) =~= (start + raw_chars@.subrange(0, i as int)).push(
                            raw_chars@[i as int],
                        ));
                    }
                    i = i + 1;
                }
                proof {
                    assert(raw_chars@.subrange(0, raw_chars@.len() as int) =~= raw_chars@);
                }
                let full_value = crate::text::string_from_chars(chars.as_slice());
                assert(full_value@ == self.name@ + seq!['@'] + raw@);
                package.set_prop(self.dependency_type.path.as_str(), Json::Str(full_value));
            },
            Strategy::UnnamedVersionString => {
                package.set_prop(self.dependency_type.path.as_str(), Json::Str(raw));
            },
            Strategy::VersionsByName => {
                package.set_member(self.dependency_type.path.as_str(), &self.name, Json::Str(raw));
            },
            Strategy::InvalidConfig => {},
        }
    }

    /// Write a version to the package.json, and remember it as the
    /// instance's expected specifier.
    pub fn set_specifier(&mut self, package: &mut Json, specifier: &Specifier)
        requires
            can_write(old(package).view(), *old(self)),
        ensures
            final(package).view() == with_specifier_written(old(package).view(), *old(self), specifier.text()),
            final(self).expected == *specifier,
            final(self).state == old(self).state,
            final(self).actual == old(self).actual,
            final(self).name == old(self).name,
            final(self).dependency_type == old(self).dependency_type,
            final(self).file_path == old(self).file_path,
            final(self).id == old(self).id,
            final(self).is_local == old(self).is_local,
            final(self).package_name == old(self).package_name,
            final(self).prefer_range == old(self).prefer_range,
            final(self).overridden == old(self).overridden,
    {
        self.write_specifier(package, specifier);
        self.expected = specifier.duplicate();
    }

    /// Delete a version/dependency/instance from the package.json
    pub fn remove_from(&self, package: &mut Json)
        requires
            self.dependency_type.strategy != Strategy::InvalidConfig,
        ensures
            final(package).view() == with_instance_removed(old(package).view(), *self),
    {
        match self.dependency_type.strategy {
            Strategy::VersionsByName => {
                package.remove_member(self.dependency_type.path.as_str(), &self.name);
            },
            _ => {},
        }
    }
}

} // verus!
