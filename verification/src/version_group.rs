//! Version groups: the policy that the versions of selected dependencies
//! follow.

use vstd::prelude::*;
use crate::dependency::Dependency;
use crate::group_selector::GroupSelector;
use crate::instance::Instance;
use crate::specifier::{new_kind, Specifier, SpecifierKind};
use crate::specifier::parser::sanitised;
use crate::text::{str_is, string_push};

verus! {

/// What behaviour has this group been configured to exhibit?
#[derive(Clone, Copy, Debug, PartialEq, Eq, Structural)]
pub enum Variant {
    Banned,
    HighestSemver,
    Ignored,
    LowestSemver,
    Pinned,
    SameRange,
    SnappedTo,
}

#[derive(Clone, Debug)]
pub struct VersionGroup {
    /// What behaviour has this group been configured to exhibit?
    pub variant: Variant,
    /// Data to determine which instances should be added to this group
    pub selector: GroupSelector,
    /// Group instances of each dependency together for comparison.
    pub dependencies: Vec<Dependency>,
    /// The version to pin all instances to when variant is `Pinned`
    pub pin_version: Option<Specifier>,
    /// `name` properties of package.json files developed in the monorepo when variant is `SnappedTo`
    pub snap_to: Option<Vec<String>>,
}

/// A version group as written in a config file.
#[derive(Clone, Debug)]
pub struct AnyVersionGroup {
    pub dependencies: Vec<String>,
    pub dependency_types: Vec<String>,
    pub label: String,
    pub packages: Vec<String>,
    pub specifier_types: Vec<String>,
    pub is_banned: Option<bool>,
    pub is_ignored: Option<bool>,
    pub pin_version: Option<String>,
    pub policy: Option<String>,
    pub snap_to: Option<Vec<String>>,
    pub prefer_version: Option<String>,
}

/// The only policy a version group may name.
pub open spec fn is_known_policy(group: AnyVersionGroup) -> bool {
    match group.policy {
        Some(p) => group.is_banned == Some(true) || group.is_ignored == Some(true) || group.pin_version is Some
            || p@ == "sameRange"@,
        None => true,
    }
}

/// The variant a config item gives its version group: banned, ignored,
/// pinned, same range, snapped to, then the preferred version, in that
/// order of precedence.
pub open spec fn version_group_variant(group: AnyVersionGroup) -> Variant {
    if group.is_banned == Some(true) {
        Variant::Banned
    } else if group.is_ignored == Some(true) {
        Variant::Ignored
    } else if group.pin_version is Some {
        Variant::Pinned
    } else if group.policy is Some {
        Variant::SameRange
    } else if group.snap_to is Some {
        Variant::SnappedTo
    } else if group.prefer_version matches Some(p) && p@ == "lowestSemver"@ {
        Variant::LowestSemver
    } else {
        Variant::HighestSemver
    }
}

pub open spec fn strings_view(v: Seq<String>) -> Seq<Seq<char>> {
    v.map_values(|s: String| s@)
}

/// The dependency names of a selector with the keywords "$LOCAL" and
/// "!$LOCAL" replaced by the names of the packages (negated for "!$LOCAL").
pub open spec fn resolved_keywords(names: Seq<Seq<char>>, packages: Seq<Seq<char>>) -> Seq<Seq<char>>
    decreases names.len(),
{
    if names.len() == 0 {
        Seq::empty()
    } else {
        let first = names[0];
        let head = if first == "$LOCAL"@ {
            packages
        } else if first == "!$LOCAL"@ {
            packages.map_values(|p: Seq<char>| seq!['!'] + p)
        } else {
            seq![first]
        };
        head + resolved_keywords(names.drop_first(), packages)
    }
}

proof fn lemma_resolved_keywords_push(names: Seq<Seq<char>>, x: Seq<char>, packages: Seq<Seq<char>>)
    ensures
        resolved_keywords(names.push(x), packages) == resolved_keywords(names, packages)
            + resolved_keywords(seq![x], packages),
    decreases names.len(),
{
    if names.len() == 0 {
        assert(names.push(x) =~= seq![x]);
        assert(resolved_keywords(names, packages) =~= Seq::empty());
        assert(resolved_keywords(seq![x], packages) + Seq::<Seq<char>>::empty() =~= resolved_keywords(seq![x], packages));
    } else {
        assert(names.push(x).drop_first() =~= names.drop_first().push(x));
        lemma_resolved_keywords_push(names.drop_first(), x, packages);
        assert(seq![x].drop_first() =~= Seq::<Seq<char>>::empty());
    }
}

/// Resolve keywords such as `$LOCAL` and `!$LOCAL` to their actual values.
pub fn with_resolved_keywords(dependency_names: &Vec<String>, package_names: &Vec<String>) -> (r: Vec<String>)
    ensures
        strings_view(r@) == resolved_keywords(strings_view(dependency_names@), strings_view(package_names@)),
{
    let ghost packages = strings_view(package_names@);
    let mut resolved: Vec<String> = Vec::new();
    let mut i: usize = 0;
    while i < dependency_names.len()
        invariant
            i <= dependency_names@.len(),
            packages == strings_view(package_names@),
            strings_view(resolved@) == resolved_keywords(
                strings_view(dependency_names@.subrange(0, i as int)),
                packages,
            ),
        decreases dependency_names@.len() - i,
    {
        let name = &dependency_names[i];
        let ghost before = resolved@;
        proof {
            assert(strings_view(dependency_names@.subrange(0, i + 1)) =~= strings_view(
                dependency_names@.subrange(0, i as int),
            ).push(name@));
            lemma_resolved_keywords_push(strings_view(dependency_names@.subrange(0, i as int)), name@, packages);
            assert(seq![name@].drop_first() =~= Seq::<Seq<char>>::empty());
            assert(resolved_keywords(Seq::<Seq<char>>::empty(), packages) =~= Seq::<Seq<char>>::empty());
        }
        if str_is(name.as_str(), "$LOCAL") {
            let mut j: usize = 0;
            while j < package_names.len()
                invariant
                    j <= package_names@.len(),
                    packages == strings_view(package_names@),
                    strings_view(resolved@) == strings_view(before) + packages.subrange(0, j as int),
                decreases package_names@.len() - j,
            {
                let ghost prev = resolved@;
                let copy = package_names[j].clone();
                assert(copy@ == packages[j as int]);
                resolved.push(copy);
                assert(resolved@ == prev.push(copy));
                assert(strings_view(resolved@) =~= strings_view(prev).push(copy@));
                assert(packages.subrange(0, j + 1) =~= packages.subrange(0, j as int).push(packages[j as int]));
                assert(strings_view(resolved@) =~= strings_view(before) + packages.subrange(0, j + 1));
                j = j + 1;
            }
            assert(packages.subrange(0, package_names@.len() as int) =~= packages);
            assert(packages + Seq::<Seq<char>>::empty() =~= packages);
        } else if str_is(name.as_str(), "!$LOCAL") {
            let ghost negated = packages.map_values(|p: Seq<char>| seq!['!'] + p);
            let mut j: usize = 0;
            while j < package_names.len()
                invariant
                    j <= package_names@.len(),
                    packages == strings_view(package_names@),
                    negated == packages.map_values(|p: Seq<char>| seq!['!'] + p),
                    strings_view(resolved@) == strings_view(before) + negated.subrange(0, j as int),
                decreases package_names@.len() - j,
            {
                let mut negated_name = String::new();
                string_push(&mut negated_name, '!');
                negated_name.append(package_names[j].as_str());
                let ghost prev = resolved@;
                assert(negated_name@ == negated[j as int]);
                resolved.push(negated_name);
                assert(strings_view(resolved@) =~= strings_view(prev).push(negated[j as int]));
                assert(negated.subrange(0, j + 1) =~= negated.subrange(0, j as int).push(negated[j as int]));
                assert(strings_view(resolved@) =~= strings_view(before) + negated.subrange(0, j + 1));
                j = j + 1;
            }
            assert(negated.subrange(0, package_names@.len() as int) =~= negated);
            assert(negated + Seq::<Seq<char>>::empty() =~= negated);
        } else {
            resolved.push(name.clone());
            assert(strings_view(resolved@) =~= strings_view(before) + seq![name@]);
            assert(seq![name@] + Seq::<Seq<char>>::empty() =~= seq![name@]);
        }
        i = i + 1;
    }
    assert(dependency_names@.subrange(0, dependency_names@.len() as int) =~= dependency_names@);
    resolved
}

pub fn copy_strings(v: &Vec<String>) -> (r: Vec<String>)
    ensures
        r@ == v@,
{
    let mut out: Vec<String> = Vec::new();
    let mut i: usize = 0;
    while i < v.len()
        invariant
            i <= v@.len(),
            out@ == v@.subrange(0, i as int),
        decreases v@.len() - i,
    {
        out.push(v[i].clone());
        assert(out@ =~= v@.subrange(0, i + 1));
        i = i + 1;
    }
    assert(out@ =~= v@);
    out
}

/// The snapTo package names that are packages of the project, in order.
pub open spec fn known_packages(names: Seq<Seq<char>>, packages: Seq<Seq<char>>) -> Seq<Seq<char>>
    decreases names.len(),
{
    if names.len() == 0 {
        Seq::empty()
    } else {
        let rest = known_packages(names.drop_last(), packages);
        if packages.contains(names.last()) {
            rest.push(names.last())
        } else {
            rest
        }
    }
}

fn contains_string(v: &Vec<String>, s: &String) -> (r: bool)
    ensures
        r == strings_view(v@).contains(s@),
{
    let mut i: usize = 0;
    while i < v.len()
        invariant
            i <= v@.len(),
            forall|j: int| 0 <= j < i ==> v@[j]@ != s@,
        decreases v@.len() - i,
    {
        if str_is(v[i].as_str(), s.as_str()) {
            assert(strings_view(v@)[i as int] == s@);
            return true;
        }
        i = i + 1;
    }
    assert(!strings_view(v@).contains(s@)) by {
        if strings_view(v@).contains(s@) {
            let j = choose|j: int| 0 <= j < strings_view(v@).len() && strings_view(v@)[j] == s@;
            assert(v@[j]@ == s@);
        }
    }
    false
}

fn keep_known_packages(names: &Vec<String>, package_names: &Vec<String>) -> (r: Vec<String>)
    ensures
        strings_view(r@) == known_packages(strings_view(names@), strings_view(package_names@)),
{
    let ghost packages = strings_view(package_names@);
    let mut out: Vec<String> = Vec::new();
    let mut i: usize = 0;
    while i < names.len()
        invariant
            i <= names@.len(),
            packages == strings_view(package_names@),
            strings_view(out@) == known_packages(strings_view(names@.subrange(0, i as int)), packages),
        decreases names@.len() - i,
    {
        proof {
            assert(strings_view(names@.subrange(0, i + 1)).drop_last() =~= strings_view(
                names@.subrange(0, i as int),
            ));
            assert(strings_view(names@.subrange(0, i + 1)).last() == names@[i as int]@);
        }
        if contains_string(package_names, &names[i]) {
            out.push(names[i].clone());
        }
        assert(strings_view(out@) =~= known_packages(strings_view(names@.subrange(0, i + 1)), packages));
        i = i + 1;
    }
    assert(names@.subrange(0, names@.len() as int) =~= names@);
    out
}

impl VersionGroup {
    /// Create a default/catch-all group which would apply to any instance
    pub fn get_catch_all() -> (r: VersionGroup)
        ensures
            r.variant == Variant::HighestSemver,
            r.dependencies@.len() == 0,
            r.pin_version is None,
            r.snap_to is None,
            r.selector.dependencies@.len() == 0,
            r.selector.dependency_types@.len() == 0,
            r.selector.packages@.len() == 0,
            r.selector.specifier_types@.len() == 0,
            r.selector.label@ == "Default Version Group"@,
    {
        VersionGroup {
            variant: Variant::HighestSemver,
            selector: GroupSelector::new(
                Vec::new(),
                Vec::new(),
                String::from_str("Default Version Group"),
                Vec::new(),
                Vec::new(),
            ),
            dependencies: Vec::new(),
            pin_version: None,
            snap_to: None,
        }
    }

    /// Create a single version group from a config item from the rcfile.
    /// `package_names` are the names of the packages of the project.
    pub fn from_config(group: &AnyVersionGroup, package_names: &Vec<String>) -> (r: VersionGroup)
        requires
            is_known_policy(*group),
        ensures
            r.variant == version_group_variant(*group),
            r.dependencies@.len() == 0,
            strings_view(r.selector.dependencies@) == resolved_keywords(
                strings_view(group.dependencies@),
                strings_view(package_names@),
            ),
            r.selector.dependency_types@ == group.dependency_types@,
            r.selector.label@ == group.label@,
            r.selector.packages@ == group.packages@,
            r.selector.specifier_types@ == group.specifier_types@,
            r.variant == Variant::Pinned ==> (r.pin_version matches Some(p) && p.wf() && p.kind()
                == new_kind(group.pin_version.unwrap()@) && (p.kind() != SpecifierKind::Missing ==> p.raw()
                == sanitised(group.pin_version.unwrap()@))),
            r.variant != Variant::Pinned ==> r.pin_version is None,
            r.variant == Variant::SnappedTo ==> (r.snap_to matches Some(names) && strings_view(names@)
                == known_packages(strings_view(group.snap_to.unwrap()@), strings_view(package_names@))),
            r.variant != Variant::SnappedTo ==> r.snap_to is None,
    {
        let selector = GroupSelector::new(
            with_resolved_keywords(&group.dependencies, package_names),
            copy_strings(&group.dependency_types),
            group.label.clone(),
            copy_strings(&group.packages),
            copy_strings(&group.specifier_types),
        );
        if group.is_banned == Some(true) {
            return VersionGroup { variant: Variant::Banned, selector, dependencies: Vec::new(), pin_version: None, snap_to: None };
        }
        if group.is_ignored == Some(true) {
            return VersionGroup { variant: Variant::Ignored, selector, dependencies: Vec::new(), pin_version: None, snap_to: None };
        }
        if let Some(pin_version) = &group.pin_version {
            return VersionGroup {
                variant: Variant::Pinned,
                selector,
                dependencies: Vec::new(),
                pin_version: Some(Specifier::new(pin_version.as_str())),
                snap_to: None,
            };
        }
        if group.policy.is_some() {
            return VersionGroup { variant: Variant::SameRange, selector, dependencies: Vec::new(), pin_version: None, snap_to: None };
        }
        if let Some(snap_to) = &group.snap_to {
            return VersionGroup {
                variant: Variant::SnappedTo,
                selector,
                dependencies: Vec::new(),
                pin_version: None,
                snap_to: Some(keep_known_packages(snap_to, package_names)),
            };
        }
        let lowest = match &group.prefer_version {
            Some(p) => str_is(p.as_str(), "lowestSemver"),
            None => false,
        };
        VersionGroup {
            variant: if lowest { Variant::LowestSemver } else { Variant::HighestSemver },
            selector,
            dependencies: Vec::new(),
            pin_version: None,
            snap_to: None,
        }
    }
}

} // verus!
