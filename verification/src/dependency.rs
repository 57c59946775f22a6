//! Every instance of one dependency within one version group.

use vstd::prelude::*;
use crate::instance::{Instance, InstanceView};
use crate::specifier::{Specifier, SpecifierKind};
use crate::specifier::orderable::{compare_chars, compare_strings, lemma_compare_chars_flip, compare_ranked, node_semver_version_parse, Comparison, flip, law_compare_ranked_antisymmetric, law_compare_ranked_transitive};
use crate::version_group::{strings_view, Variant};
use crate::format::{lemma_stable_insert, stable_arrangement};

verus! {

#[derive(Clone, Copy, Debug, PartialEq, Eq, Structural)]
pub enum DependencyState {
    Valid,
    Warning,
    Invalid,
}

/// Valid, warning and invalid, in rising order of severity.
pub open spec fn severity(s: DependencyState) -> int {
    match s {
        DependencyState::Valid => 0,
        DependencyState::Warning => 1,
        DependencyState::Invalid => 2,
    }
}

/// The more severe of two states.
pub open spec fn worse(a: DependencyState, b: DependencyState) -> DependencyState {
    if severity(b) > severity(a) {
        b
    } else {
        a
    }
}

#[derive(Clone, Debug)]
pub struct Dependency {
    /// The name of the dependency
    pub name: String,
    /// What behaviour has this group been configured to exhibit?
    pub variant: Variant,
    /// Every instance of this dependency in this version group, as positions
    /// in the list of every instance of the project.
    pub instances: Vec<usize>,
    /// The expected version specifier which all instances of this dependency
    /// should be set to, in the event that they should all use the same version.
    pub expected: Option<Specifier>,
    /// The version to pin all instances to when variant is `Pinned`
    pub pinned_specifier: Option<Specifier>,
    /// package.json files developed in the monorepo when variant is `SnappedTo`
    pub snapped_to_packages: Option<Vec<String>>,
    /// The state of whether this dependency is valid, warning, or invalid
    pub state: DependencyState,
}

/// The instances that `idx` points at, in order.
pub open spec fn members(all: Seq<Instance>, idx: Seq<usize>) -> Seq<InstanceView> {
    idx.map_values(|j: usize| all[j as int]@)
}

/// Position of the last local instance among the first `n`.
pub open spec fn last_local(m: Seq<InstanceView>, n: int) -> Option<int>
    decreases n,
{
    if n <= 0 {
        None
    } else if m[n - 1].is_local {
        Some(n - 1)
    } else {
        last_local(m, n - 1)
    }
}

/// Does `candidate` take the place of `current` as the preferred version?
/// Both must be simple semver whose versions node-semver accepts, and
/// `candidate` must order above (for highest) or below (for lowest).
pub open spec fn replaces(candidate: Specifier, current: Specifier, highest: bool) -> bool {
    match (candidate.simple(), current.simple()) {
        (Some(a), Some(b)) => match (
            node_semver_version_parse(a.orderable_version_chars()),
            node_semver_version_parse(b.orderable_version_chars()),
        ) {
            (Some(va), Some(vb)) => compare_ranked(a.range(), va, b.range(), vb) == (if highest {
                Comparison::Greater
            } else {
                Comparison::Less
            }),
            _ => false,
        },
        _ => false,
    }
}

/// Position of the preferred simple semver instance among the first `n`:
/// the first simple semver one, replaced by each later one that orders
/// above it (for highest) or below it (for lowest).
pub open spec fn preferred(m: Seq<InstanceView>, n: int, highest: bool) -> Option<int>
    decreases n,
{
    if n <= 0 {
        None
    } else {
        let prev = preferred(m, n - 1, highest);
        if m[n - 1].actual.simple() is None {
            prev
        } else {
            match prev {
                None => Some(n - 1),
                Some(p) => if replaces(m[n - 1].actual, m[p].actual, highest) {
                    Some(n - 1)
                } else {
                    prev
                },
            }
        }
    }
}

/// Every instance has the same specifier as the first.
pub open spec fn all_identical(m: Seq<InstanceView>) -> bool {
    m.len() > 0 && forall|j: int| 0 <= j < m.len() ==> (#[trigger] m[j]).actual.same_as(m[0].actual)
}

/// Position of the first instance named `name` in one of the `packages`.
pub open spec fn first_in_packages(all: Seq<Instance>, name: Seq<char>, packages: Seq<Seq<char>>, n: int) -> Option<int>
    decreases n,
{
    if n <= 0 {
        None
    } else {
        match first_in_packages(all, name, packages, n - 1) {
            Some(k) => Some(k),
            None => if all[n - 1].name@ == name && packages.contains(all[n - 1].package_name@) {
                Some(n - 1)
            } else {
                None
            },
        }
    }
}

pub proof fn lemma_last_local_bounds(m: Seq<InstanceView>, n: int)
    ensures
        last_local(m, n) matches Some(p) ==> 0 <= p < n && m[p].is_local,
    decreases n,
{
    if n > 0 && !m[n - 1].is_local {
        lemma_last_local_bounds(m, n - 1);
    }
}

pub proof fn lemma_preferred_bounds(m: Seq<InstanceView>, n: int, highest: bool)
    ensures
        preferred(m, n, highest) matches Some(p) ==> 0 <= p < n && m[p].actual.simple() is Some,
    decreases n,
{
    if n > 0 {
        lemma_preferred_bounds(m, n - 1, highest);
    }
}

pub proof fn lemma_first_in_packages_bounds(all: Seq<Instance>, name: Seq<char>, packages: Seq<Seq<char>>, n: int)
    ensures
        first_in_packages(all, name, packages, n) matches Some(k) ==> 0 <= k < n && all[k].name@ == name
            && packages.contains(all[k].package_name@),
    decreases n,
{
    if n > 0 {
        lemma_first_in_packages_bounds(all, name, packages, n - 1);
    }
}

proof fn lemma_first_in_packages_stable(all: Seq<Instance>, name: Seq<char>, packages: Seq<Seq<char>>, m: int, n: int)
    requires
        m <= n,
        first_in_packages(all, name, packages, m) is Some,
    ensures
        first_in_packages(all, name, packages, n) == first_in_packages(all, name, packages, m),
    decreases n - m,
{
    if m < n {
        lemma_first_in_packages_stable(all, name, packages, m, n - 1);
    }
}

impl Dependency {
    /// Every position is in range, no instance is counted twice, and every
    /// instance is well formed.
    pub open spec fn wf(self, all: Seq<Instance>) -> bool {
        &&& forall|j: int| 0 <= j < self.instances@.len() ==> (#[trigger] self.instances@[j]) < all.len()
        &&& forall|j: int| 0 <= j < self.instances@.len() ==> all[#[trigger] self.instances@[j] as int].wf()
        &&& forall|j: int, k: int|
            0 <= j < self.instances@.len() && 0 <= k < self.instances@.len() && j != k
                ==> self.instances@[j] != self.instances@[k]
        &&& (self.variant == Variant::Pinned ==> (self.pinned_specifier matches Some(p) && p.wf()))
    }

    pub fn new(
        name: String,
        variant: Variant,
        pinned_specifier: Option<Specifier>,
        snapped_to_packages: Option<Vec<String>>,
    ) -> (r: Dependency)
        ensures
            r.name == name,
            r.variant == variant,
            r.instances@.len() == 0,
            r.expected is None,
            r.pinned_specifier == pinned_specifier,
            r.snapped_to_packages == snapped_to_packages,
            r.state == DependencyState::Valid,
    {
        Dependency {
            name,
            variant,
            instances: Vec::new(),
            expected: None,
            pinned_specifier,
            snapped_to_packages,
            state: DependencyState::Valid,
        }
    }

    pub fn has_state(&self, state: DependencyState) -> (r: bool)
        ensures
            r == (self.state == state),
    {
        self.state == state
    }

    /// Raise the state to `state` when that is more severe; a dependency
    /// never becomes less severe.
    pub fn set_state(&mut self, state: DependencyState)
        ensures
            final(self).state == worse(old(self).state, state),
            final(self).name == old(self).name,
            final(self).variant == old(self).variant,
            final(self).instances == old(self).instances,
            final(self).expected == old(self).expected,
            final(self).pinned_specifier == old(self).pinned_specifier,
            final(self).snapped_to_packages == old(self).snapped_to_packages,
    {
        let new_rank: u8 = match state {
            DependencyState::Valid => 0,
            DependencyState::Warning => 1,
            DependencyState::Invalid => 2,
        };
        let old_rank: u8 = match self.state {
            DependencyState::Valid => 0,
            DependencyState::Warning => 1,
            DependencyState::Invalid => 2,
        };
        if new_rank > old_rank {
            self.state = state;
        }
    }

    /// Add the instance at position `index` of the project's instances.
    pub fn add_instance(&mut self, index: usize)
        ensures
            final(self).instances@ == old(self).instances@.push(index),
            final(self).name == old(self).name,
            final(self).variant == old(self).variant,
            final(self).expected == old(self).expected,
            final(self).pinned_specifier == old(self).pinned_specifier,
            final(self).snapped_to_packages == old(self).snapped_to_packages,
            final(self).state == old(self).state,
    {
        self.instances.push(index);
    }

    pub fn set_expected_specifier(&mut self, specifier: &Specifier)
        ensures
            final(self).expected == Some(*specifier),
            final(self).name == old(self).name,
            final(self).variant == old(self).variant,
            final(self).instances == old(self).instances,
            final(self).pinned_specifier == old(self).pinned_specifier,
            final(self).snapped_to_packages == old(self).snapped_to_packages,
            final(self).state == old(self).state,
    {
        self.expected = Some(specifier.duplicate());
    }

    /// Position (among this dependency's instances) of the local instance:
    /// the last one that is local.
    pub fn get_local_position(&self, all: &Vec<Instance>) -> (r: Option<usize>)
        requires
            self.wf(all@),
        ensures
            r matches Some(p) ==> last_local(members(all@, self.instances@), self.instances@.len() as int)
                == Some(p as int),
            r is None ==> last_local(members(all@, self.instances@), self.instances@.len() as int) is None,
    {
        let ghost m = members(all@, self.instances@);
        let mut found: Option<usize> = None;
        let mut p: usize = 0;
        while p < self.instances.len()
            invariant
                self.wf(all@),
                m == members(all@, self.instances@),
                p <= self.instances@.len(),
                found matches Some(q) ==> last_local(m, p as int) == Some(q as int),
                found is None ==> last_local(m, p as int) is None,
            decreases self.instances@.len() - p,
        {
            let index = self.instances[p];
            assert(m[p as int] == all@[index as int]@);
            if all[index].is_local {
                found = Some(p);
            }
            p = p + 1;
        }
        found
    }

    /// The specifier of the local instance, if there is one.
    pub fn get_local_specifier(&self, all: &Vec<Instance>) -> (r: Option<Specifier>)
        requires
            self.wf(all@),
        ensures
            match last_local(members(all@, self.instances@), self.instances@.len() as int) {
                Some(p) => r == Some(members(all@, self.instances@)[p].actual),
                None => r is None,
            },
    {
        proof {
            lemma_last_local_bounds(members(all@, self.instances@), self.instances@.len() as int);
        }
        match self.get_local_position(all) {
            Some(p) => Some(all[self.instances[p]].actual.duplicate()),
            None => None,
        }
    }

    pub fn has_local_instance(&self, all: &Vec<Instance>) -> (r: bool)
        requires
            self.wf(all@),
        ensures
            r == (last_local(members(all@, self.instances@), self.instances@.len() as int) is Some),
    {
        self.get_local_position(all).is_some()
    }

    /// Is there a local instance whose specifier is not an exact version?
    pub fn has_local_instance_with_invalid_specifier(&self, all: &Vec<Instance>) -> (r: bool)
        requires
            self.wf(all@),
        ensures
            r == (match last_local(members(all@, self.instances@), self.instances@.len() as int) {
                Some(p) => members(all@, self.instances@)[p].actual.kind() != SpecifierKind::Exact,
                None => false,
            }),
    {
        match self.get_local_specifier(all) {
            Some(s) => !matches!(s, Specifier::Semver(crate::specifier::semver::Semver::Simple(
                crate::specifier::simple_semver::SimpleSemver::Exact(_),
            ))),
            None => false,
        }
    }

    /// Does every instance in this group have a specifier which is exactly the same?
    pub fn every_specifier_is_already_identical(&self, all: &Vec<Instance>) -> (r: bool)
        requires
            self.wf(all@),
        ensures
            r == all_identical(members(all@, self.instances@)),
    {
        let ghost m = members(all@, self.instances@);
        if self.instances.len() == 0 {
            return false;
        }
        let first = &all[self.instances[0]].actual;
        assert(m[0] == all@[self.instances@[0] as int]@);
        let mut p: usize = 0;
        while p < self.instances.len()
            invariant
                self.wf(all@),
                m == members(all@, self.instances@),
                m.len() > 0,
                *first == m[0].actual,
                p <= self.instances@.len(),
                forall|j: int| 0 <= j < p ==> (#[trigger] m[j]).actual.same_as(m[0].actual),
            decreases self.instances@.len() - p,
        {
            let index = self.instances[p];
            assert(m[p as int] == all@[index as int]@);
            if !all[index].actual.equals(first) {
                return false;
            }
            p = p + 1;
        }
        true
    }

    /// Position (among this dependency's instances) of the highest (or lowest)
    /// simple semver specifier.
    pub fn get_preferred_position(&self, all: &Vec<Instance>, highest: bool) -> (r: Option<usize>)
        requires
            self.wf(all@),
        ensures
            r matches Some(p) ==> preferred(members(all@, self.instances@), self.instances@.len() as int, highest)
                == Some(p as int),
            r is None ==> preferred(members(all@, self.instances@), self.instances@.len() as int, highest) is None,
    {
        let ghost m = members(all@, self.instances@);
        let target = if highest { Comparison::Greater } else { Comparison::Less };
        let mut best: Option<usize> = None;
        let mut p: usize = 0;
        while p < self.instances.len()
            invariant
                self.wf(all@),
                m == members(all@, self.instances@),
                p <= self.instances@.len(),
                target == (if highest { Comparison::Greater } else { Comparison::Less }),
                best matches Some(q) ==> preferred(m, p as int, highest) == Some(q as int),
                best is None ==> preferred(m, p as int, highest) is None,
            decreases self.instances@.len() - p,
        {
            proof {
                lemma_preferred_bounds(m, p as int, highest);
            }
            let index = self.instances[p];
            assert(m[p as int] == all@[index as int]@);
            if let Some(candidate) = all[index].actual.get_simple_semver() {
                match best {
                    None => {
                        best = Some(p);
                    },
                    Some(q) => {
                        let current_index = self.instances[q];
                        assert(m[q as int] == all@[current_index as int]@);
                        let current = all[current_index].actual.get_simple_semver().unwrap();
                        let replace = match (candidate.get_orderable(), current.get_orderable()) {
                            (Some(a), Some(b)) => a.compare(&b) == target,
                            _ => false,
                        };
                        if replace {
                            best = Some(p);
                        }
                    },
                }
            }
            p = p + 1;
        }
        best
    }

    /// Get the highest (or lowest) semver specifier in this group.
    pub fn get_highest_or_lowest_specifier(&self, all: &Vec<Instance>) -> (r: Option<Specifier>)
        requires
            self.wf(all@),
        ensures
            match preferred(
                members(all@, self.instances@),
                self.instances@.len() as int,
                self.variant != Variant::LowestSemver,
            ) {
                Some(p) => r == Some(members(all@, self.instances@)[p].actual),
                None => r is None,
            },
    {
        let highest = !matches!(self.variant, Variant::LowestSemver);
        proof {
            lemma_preferred_bounds(members(all@, self.instances@), self.instances@.len() as int, highest);
        }
        match self.get_preferred_position(all, highest) {
            Some(p) => Some(all[self.instances[p]].actual.duplicate()),
            None => None,
        }
    }

    /// The expected specifier of the first instance of this dependency found
    /// in one of the packages it is snapped to. We compare the expected (not
    /// actual) specifier because we're looking for what we should suggest as
    /// the correct specifier once `fix` is applied.
    pub fn get_snapped_to_specifier(&self, all: &Vec<Instance>) -> (r: Option<Specifier>)
        ensures
            match self.snapped_to_packages {
                Some(packages) => match first_in_packages(all@, self.name@, strings_view(packages@), all@.len() as int) {
                    Some(k) => r == Some(all@[k].expected),
                    None => r is None,
                },
                None => r is None,
            },
    {
        match &self.snapped_to_packages {
            None => None,
            Some(packages) => {
                let ghost pk = strings_view(packages@);
                let mut k: usize = 0;
                while k < all.len()
                    invariant
                        k <= all@.len(),
                        pk == strings_view(packages@),
                        self.snapped_to_packages == Some(*packages),
                        first_in_packages(all@, self.name@, pk, k as int) is None,
                    decreases all@.len() - k,
                {
                    let mut in_packages = false;
                    let mut j: usize = 0;
                    while j < packages.len()
                        invariant
                            j <= packages@.len(),
                            pk == strings_view(packages@),
                            k < all@.len(),
                            in_packages == exists|i: int| 0 <= i < j && pk[i] == all@[k as int].package_name@,
                        decreases packages@.len() - j,
                    {
                        if crate::text::str_is(packages[j].as_str(), all[k].package_name.as_str()) {
                            assert(pk[j as int] == all@[k as int].package_name@);
                            in_packages = true;
                        }
                        j = j + 1;
                    }
                    assert(in_packages == pk.contains(all@[k as int].package_name@));
                    if in_packages && crate::text::str_is(all[k].name.as_str(), self.name.as_str()) {
                        proof {
                            assert(first_in_packages(all@, self.name@, pk, k + 1) == Some(k as int));
                            lemma_first_in_packages_stable(all@, self.name@, pk, k + 1, all@.len() as int);
                        }
                        return Some(all[k].expected.duplicate());
                    }
                    k = k + 1;
                }
                None
            },
        }
    }
}

/// Node-semver accepts the version of every simple semver instance.
pub open spec fn all_orderable(m: Seq<InstanceView>) -> bool {
    forall|j: int|
        0 <= j < m.len() ==> ((#[trigger] m[j]).actual.simple() matches Some(v) ==> node_semver_version_parse(
            v.orderable_version_chars(),
        ) is Some)
}

/// The preferred version is the highest (or the lowest): there is one
/// exactly when some instance is simple semver, and no simple semver
/// instance orders above it (or below it, for the lowest).
pub proof fn law_preferred_is_extreme(m: Seq<InstanceView>, n: int, highest: bool)
    requires
        0 <= n <= m.len(),
        all_orderable(m),
    ensures
        (preferred(m, n, highest) is None) == (forall|j: int| 0 <= j < n ==> (#[trigger] m[j]).actual.simple() is None),
        preferred(m, n, highest) matches Some(p) ==> forall|j: int|
            0 <= j < n ==> !replaces(#[trigger] m[j].actual, m[p].actual, highest),
    decreases n,
{
    if n > 0 {
        law_preferred_is_extreme(m, n - 1, highest);
        lemma_preferred_bounds(m, n - 1, highest);
        let target = if highest { Comparison::Greater } else { Comparison::Less };
        let q = n - 1;
        let prev = preferred(m, n - 1, highest);
        if m[q].actual.simple() is Some {
            let a = m[q].actual.simple().unwrap();
            let va = node_semver_version_parse(a.orderable_version_chars()).unwrap();
            law_compare_ranked_antisymmetric(a.range(), va, a.range(), va);
            match prev {
                None => {
                    assert forall|j: int| 0 <= j < n implies !replaces(#[trigger] m[j].actual, m[q].actual, highest) by {
                        if j < q {
                            assert(m[j].actual.simple() is None);
                        }
                    }
                },
                Some(p) => {
                    if replaces(m[q].actual, m[p].actual, highest) {
                        let b = m[p].actual.simple().unwrap();
                        let vb = node_semver_version_parse(b.orderable_version_chars()).unwrap();
                        assert forall|j: int| 0 <= j < n implies !replaces(#[trigger] m[j].actual, m[q].actual, highest) by {
                            if j < q && replaces(m[j].actual, m[q].actual, highest) {
                                let c = m[j].actual.simple().unwrap();
                                let vc = node_semver_version_parse(c.orderable_version_chars()).unwrap();
                                law_compare_ranked_transitive(c.range(), vc, a.range(), va, b.range(), vb, target);
                                assert(replaces(m[j].actual, m[p].actual, highest));
                            }
                        }
                    }
                },
            }
        }
        if !(forall|j: int| 0 <= j < n ==> (#[trigger] m[j]).actual.simple() is None) {
            let j = choose|j: int| 0 <= j < n && (#[trigger] m[j]).actual.simple() is Some;
            if j < q {
                assert(prev is Some);
            }
        }
    }
}

/// The order in which instances are listed: by specifier, the highest
/// string first, then by package name; instances without a specifier last.
pub open spec fn display_order(a: Instance, b: Instance) -> Comparison {
    if a.actual is Missing && b.actual is Missing {
        Comparison::Equal
    } else if a.actual is Missing {
        Comparison::Greater
    } else if b.actual is Missing {
        Comparison::Less
    } else {
        match compare_chars(b.actual.text(), a.actual.text()) {
            Comparison::Equal => compare_chars(a.package_name@, b.package_name@),
            c => c,
        }
    }
}

/// The instance at `j` is not listed after the next one.
pub open spec fn listed_in_order_at(all: Seq<Instance>, idx: Seq<usize>, j: int) -> bool {
    display_order(all[idx[j] as int], all[idx[j + 1] as int]) != Comparison::Greater
}

/// Instances, by their positions among all instances, in the order they are
/// listed.
pub open spec fn listing_order(all: Seq<Instance>) -> spec_fn(usize, usize) -> Comparison {
    |a: usize, b: usize| display_order(all[a as int], all[b as int])
}

pub open spec fn listed_in_order(all: Seq<Instance>, idx: Seq<usize>) -> bool {
    forall|j: int| 0 <= j < idx.len() - 1 ==> #[trigger] listed_in_order_at(all, idx, j)
}

/// How two instances are listed, both ways round.
fn compare_for_display(a: &Instance, b: &Instance) -> (r: Comparison)
    ensures
        r == display_order(*a, *b),
        display_order(*b, *a) == flip(r),
{
    let a_missing = match &a.actual {
        Specifier::Missing => true,
        _ => false,
    };
    let b_missing = match &b.actual {
        Specifier::Missing => true,
        _ => false,
    };
    if a_missing && b_missing {
        Comparison::Equal
    } else if a_missing {
        Comparison::Greater
    } else if b_missing {
        Comparison::Less
    } else {
        let a_text = a.actual.unwrap();
        let b_text = b.actual.unwrap();
        proof {
            lemma_compare_chars_flip(b_text@, a_text@);
            lemma_compare_chars_flip(a.package_name@, b.package_name@);
        }
        match compare_strings(&b_text, &a_text) {
            Comparison::Equal => compare_strings(&a.package_name, &b.package_name),
            c => c,
        }
    }
}

proof fn lemma_insert_keeps_listing(all: Seq<Instance>, v: Seq<usize>, j: int, x: usize)
    requires
        0 <= j <= v.len(),
        listed_in_order(all, v),
        j > 0 ==> display_order(all[v[j - 1] as int], all[x as int]) != Comparison::Greater,
        j < v.len() ==> display_order(all[x as int], all[v[j] as int]) != Comparison::Greater,
    ensures
        listed_in_order(all, v.insert(j, x)),
{
    let nv = v.insert(j, x);
    assert forall|i: int| 0 <= i < nv.len() - 1 implies #[trigger] listed_in_order_at(all, nv, i) by {
        if i < j - 1 {
            assert(listed_in_order_at(all, v, i));
            assert(nv[i] == v[i] && nv[i + 1] == v[i + 1]);
        } else if i == j - 1 {
            assert(nv[i] == v[i] && nv[i + 1] == x);
        } else if i == j {
            assert(nv[i] == x && nv[i + 1] == v[i]);
        } else {
            assert(listed_in_order_at(all, v, i - 1));
            assert(nv[i] == v[i - 1] && nv[i + 1] == v[i]);
        }
    }
}

impl Dependency {
    /// Sort instances by actual specifier in descending order, and then package
    /// name in ascending order
    pub fn sort_instances(&mut self, all: &Vec<Instance>)
        requires
            forall|j: int| 0 <= j < old(self).instances@.len() ==> (#[trigger] old(self).instances@[j]) < all@.len(),
        ensures
            final(self).instances@.to_multiset() == old(self).instances@.to_multiset(),
            listed_in_order(all@, final(self).instances@),
            exists|p: Seq<int>| stable_arrangement(p, final(self).instances@, old(self).instances@, listing_order(all@)),
            final(self).name == old(self).name,
            final(self).variant == old(self).variant,
            final(self).expected == old(self).expected,
            final(self).pinned_specifier == old(self).pinned_specifier,
            final(self).snapped_to_packages == old(self).snapped_to_packages,
            final(self).state == old(self).state,
            old(self).wf(all@) ==> final(self).wf(all@),
    {
        let ghost given = self.instances@;
        let mut out: Vec<usize> = Vec::new();
        let mut k: usize = 0;
        let ghost mut arrangement: Seq<int> = Seq::empty();
        proof {
            assert(given.subrange(0, 0) =~= out@);
        }
        while k < self.instances.len()
            invariant
                k <= self.instances@.len(),
                self.instances@ == given,
                forall|j: int| 0 <= j < given.len() ==> (#[trigger] given[j]) < all@.len(),
                forall|j: int| 0 <= j < out@.len() ==> (#[trigger] out@[j]) < all@.len(),
                out@.to_multiset() == given.subrange(0, k as int).to_multiset(),
                listed_in_order(all@, out@),
                stable_arrangement(arrangement, out@, given.subrange(0, k as int), listing_order(all@)),
            decreases self.instances@.len() - k,
        {
            let x = self.instances[k];
            let mut j: usize = out.len();
            while j > 0 && compare_for_display(&all[x], &all[out[j - 1]]) == Comparison::Less
                invariant
                    j <= out@.len(),
                    x < all@.len(),
                    forall|i: int| 0 <= i < out@.len() ==> (#[trigger] out@[i]) < all@.len(),
                    forall|i: int|
                        j <= i < out@.len() ==> display_order(all@[x as int], all@[#[trigger] out@[i] as int])
                            == Comparison::Less,
                decreases j,
            {
                j = j - 1;
            }
            proof {
                if j < out@.len() {
                    assert(display_order(all@[x as int], all@[out@[j as int] as int]) == Comparison::Less);
                }
                lemma_insert_keeps_listing(all@, out@, j as int, x);
                lemma_stable_insert(arrangement, out@, given.subrange(0, k as int), listing_order(all@), j as int, x);
                arrangement = arrangement.insert(j as int, k as int);
                vstd::seq_lib::to_multiset_insert(out@, j as int, x);
                assert(given.subrange(0, k + 1) =~= given.subrange(0, k as int).push(x));
                vstd::seq_lib::to_multiset_build(given.subrange(0, k as int), x);
            }
            let ghost before = out@;
            out.insert(j, x);
            proof {
                assert forall|i: int| 0 <= i < out@.len() implies (#[trigger] out@[i]) < all@.len() by {
                    if i < j {
                        assert(out@[i] == before[i]);
                    } else if i > j {
                        assert(out@[i] == before[i - 1]);
                    }
                }
            }
            k = k + 1;
        }
        proof {
            assert(given.subrange(0, given.len() as int) =~= given);
            if self.wf(all@) {
                given.lemma_multiset_has_no_duplicates();
                out@.lemma_multiset_has_no_duplicates_conv();
                assert forall|j: int| 0 <= j < out@.len() implies all@[#[trigger] out@[j] as int].wf() by {
                    assert(out@.contains(out@[j]));
                    vstd::seq_lib::to_multiset_contains(out@, out@[j]);
                    vstd::seq_lib::to_multiset_contains(given, out@[j]);
                    let i = choose|i: int| 0 <= i < given.len() && given[i] == out@[j];
                    assert(all@[given[i] as int].wf());
                }
            }
        }
        self.instances = out;
    }
}

} // verus!
