//! Every instance of the project sorted into its semver group and into the
//! version group whose policy it follows.

use vstd::prelude::*;
use crate::dependency::Dependency;
use crate::group_selector::GroupSelector;
use crate::instance::Instance;
use crate::semver_group::SemverGroup;
use crate::specifier::config_identifier;
use crate::version_group::{Variant, VersionGroup};
use crate::text::str_is;

verus! {

pub struct Context {
    /// Every instance of the project
    pub instances: Vec<Instance>,
    /// All semver groups, the catch-all last
    pub semver_groups: Vec<SemverGroup>,
    /// All version groups, the catch-all last, with their dependencies
    pub version_groups: Vec<VersionGroup>,
}

/// The names in an optional list of names.
pub open spec fn names_of(names: Option<Vec<String>>) -> Option<Seq<Seq<char>>> {
    match names {
        Some(v) => Some(crate::version_group::strings_view(v@)),
        None => None,
    }
}

/// Does the selector accept the instance?
pub open spec fn selects(selector: GroupSelector, inst: Instance) -> bool {
    selector.accepts(
        inst.name@,
        inst.dependency_type.name@,
        inst.package_name@,
        config_identifier(inst.actual.kind()),
    )
}

/// The first selector from position `g` on that accepts the instance.
pub open spec fn first_selecting(selectors: Seq<GroupSelector>, inst: Instance, g: int) -> Option<int>
    decreases selectors.len() - g,
{
    if g < 0 || g >= selectors.len() {
        None
    } else if selects(selectors[g], inst) {
        Some(g)
    } else {
        first_selecting(selectors, inst, g + 1)
    }
}

pub open spec fn version_selectors(groups: Seq<VersionGroup>) -> Seq<GroupSelector> {
    groups.map_values(|g: VersionGroup| g.selector)
}

pub open spec fn semver_selectors(groups: Seq<SemverGroup>) -> Seq<GroupSelector> {
    groups.map_values(|g: SemverGroup| g.selector)
}

/// A version group ready to be filled: no dependencies yet, and a
/// well-formed pinned version when it pins one.
pub open spec fn fresh_version_group(group: VersionGroup) -> bool {
    &&& group.dependencies@.len() == 0
    &&& (group.variant == Variant::Pinned ==> (group.pin_version matches Some(p) && p.wf()))
}

/// The dependencies of each group hold, in rising order, the instances
/// below `bound` that the group is the first to select, under their names,
/// and carry the group's policy.
pub open spec fn groups_hold(groups: Seq<VersionGroup>, selectors: Seq<GroupSelector>, all: Seq<Instance>, bound: int) -> bool {
    forall|g: int, d: int|
        0 <= g < groups.len() && 0 <= d < groups[g].dependencies@.len() ==> {
            let dep = #[trigger] groups[g].dependencies@[d];
            &&& dep.variant == groups[g].variant
            &&& dep.pinned_specifier == groups[g].pin_version
            &&& names_of(dep.snapped_to_packages) == names_of(groups[g].snap_to)
            &&& forall|j: int| 0 <= j < dep.instances@.len() ==> {
                let x = #[trigger] dep.instances@[j] as int;
                &&& x < bound
                &&& x < all.len()
                &&& first_selecting(selectors, all[x], 0) == Some(g)
                &&& all[x].name@ == dep.name@
            }
            &&& forall|i: int, j: int| 0 <= i < j < dep.instances@.len() ==> dep.instances@[i] < dep.instances@[j]
        }
}

/// No two dependencies of a group have the same name.
pub open spec fn names_distinct(groups: Seq<VersionGroup>) -> bool {
    forall|g: int, d1: int, d2: int|
        0 <= g < groups.len() && 0 <= d1 < groups[g].dependencies@.len() && 0 <= d2 < groups[g].dependencies@.len()
            && d1 != d2 ==> (#[trigger] groups[g].dependencies@[d1]).name@ != (#[trigger] groups[g].dependencies@[d2]).name@
}

/// Every instance below `bound` is held by a dependency of the first group
/// that selects it.
pub open spec fn groups_complete(groups: Seq<VersionGroup>, selectors: Seq<GroupSelector>, all: Seq<Instance>, bound: int) -> bool {
    forall|x: int|
        0 <= x < bound ==> (#[trigger] first_selecting(selectors, all[x], 0) matches Some(g) ==> exists|d: int, j: int|
            0 <= d < groups[g].dependencies@.len() && 0 <= j < groups[g].dependencies@[d].instances@.len()
                && groups[g].dependencies@[d].instances@[j] == x)
}


/// The two instances are selected alike: same name, dependency type,
/// package and kind of specifier.
pub open spec fn selects_same(a: Instance, b: Instance) -> bool {
    &&& a.name@ == b.name@
    &&& a.dependency_type.name@ == b.dependency_type.name@
    &&& a.package_name@ == b.package_name@
    &&& a.actual.kind() == b.actual.kind()
}

pub proof fn lemma_first_selecting_same(sels: Seq<GroupSelector>, a: Instance, b: Instance, g: int)
    requires
        selects_same(a, b),
    ensures
        first_selecting(sels, a, g) == first_selecting(sels, b, g),
    decreases sels.len() - g,
{
    if 0 <= g < sels.len() {
        lemma_first_selecting_same(sels, a, b, g + 1);
    }
}

proof fn lemma_first_selecting_bounds(sels: Seq<GroupSelector>, inst: Instance, g: int)
    ensures
        first_selecting(sels, inst, g) matches Some(x) ==> g <= x < sels.len(),
    decreases sels.len() - g,
{
    if 0 <= g < sels.len() && !selects(sels[g], inst) {
        lemma_first_selecting_bounds(sels, inst, g + 1);
    }
}

/// The last selector has empty lists and accepts every instance.
proof fn lemma_first_selecting_catch_all(sels: Seq<GroupSelector>, inst: Instance)
    requires
        sels.len() > 0,
        sels.last().dependencies@.len() == 0,
        sels.last().dependency_types@.len() == 0,
        sels.last().packages@.len() == 0,
        sels.last().specifier_types@.len() == 0,
    ensures
        first_selecting(sels, inst, 0) is Some,
{
    lemma_first_selecting_reaches(sels, inst, 0);
}

proof fn lemma_first_selecting_reaches(sels: Seq<GroupSelector>, inst: Instance, g: int)
    requires
        0 <= g < sels.len(),
        sels.last().dependencies@.len() == 0,
        sels.last().dependency_types@.len() == 0,
        sels.last().packages@.len() == 0,
        sels.last().specifier_types@.len() == 0,
    ensures
        first_selecting(sels, inst, g) is Some,
    decreases sels.len() - g,
{
    if g == sels.len() - 1 {
        assert(crate::group_selector::strings_view(sels.last().dependencies@).len() == 0);
        assert(crate::group_selector::strings_view(sels.last().dependency_types@).len() == 0);
        assert(crate::group_selector::strings_view(sels.last().packages@).len() == 0);
        assert(crate::group_selector::strings_view(sels.last().specifier_types@).len() == 0);
        assert(selects(sels[g], inst));
    } else if !selects(sels[g], inst) {
        lemma_first_selecting_reaches(sels, inst, g + 1);
    }
}

/// Groups that hold instances below `k` still do when only instances from
/// `k` on change, as long as those below keep how they are selected.
proof fn lemma_hold_frame(groups: Seq<VersionGroup>, sels: Seq<GroupSelector>, a: Seq<Instance>, b: Seq<Instance>, k: int)
    requires
        a.len() == b.len(),
        forall|x: int| 0 <= x < k ==> a[x] == b[x],
        groups_hold(groups, sels, a, k),
        groups_complete(groups, sels, a, k),
    ensures
        groups_hold(groups, sels, b, k),
        groups_complete(groups, sels, b, k),
{
    assert forall|x: int| 0 <= x < k implies (#[trigger] first_selecting(sels, b[x], 0)) == first_selecting(sels, a[x], 0) by {
        assert(a[x] == b[x]);
    }
    assert forall|g: int, d: int| 0 <= g < groups.len() && 0 <= d < groups[g].dependencies@.len() implies {
        let dep = #[trigger] groups[g].dependencies@[d];
        &&& dep.variant == groups[g].variant
        &&& dep.pinned_specifier == groups[g].pin_version
        &&& names_of(dep.snapped_to_packages) == names_of(groups[g].snap_to)
        &&& forall|j: int| 0 <= j < dep.instances@.len() ==> {
            let x = #[trigger] dep.instances@[j] as int;
            &&& x < k
            &&& x < b.len()
            &&& first_selecting(sels, b[x], 0) == Some(g)
            &&& b[x].name@ == dep.name@
        }
        &&& forall|i: int, j: int| 0 <= i < j < dep.instances@.len() ==> dep.instances@[i] < dep.instances@[j]
    } by {
        let dep = groups[g].dependencies@[d];
        assert forall|j: int| 0 <= j < dep.instances@.len() implies {
            let x = #[trigger] dep.instances@[j] as int;
            &&& x < k
            &&& x < b.len()
            &&& first_selecting(sels, b[x], 0) == Some(g)
            &&& b[x].name@ == dep.name@
        } by {
            let x = dep.instances@[j] as int;
            assert(a[x] == b[x]);
        }
    }
    assert forall|x: int| 0 <= x < k implies (#[trigger] first_selecting(sels, b[x], 0) matches Some(g)
        ==> exists|e: int, j: int|
        0 <= e < groups[g].dependencies@.len() && 0 <= j < groups[g].dependencies@[e].instances@.len()
            && groups[g].dependencies@[e].instances@[j] == x) by {
        assert(a[x] == b[x]);
        assert(first_selecting(sels, a[x], 0) == first_selecting(sels, b[x], 0));
    }
}

/// `after` has every group, dependency and member of `before` at the same
/// places, and the same group settings.
pub open spec fn extends(before: Seq<VersionGroup>, after: Seq<VersionGroup>) -> bool {
    &&& before.len() == after.len()
    &&& forall|g: int|
        0 <= g < before.len() ==> {
            &&& (#[trigger] after[g]).selector == before[g].selector
            &&& after[g].variant == before[g].variant
            &&& after[g].pin_version == before[g].pin_version
            &&& after[g].snap_to == before[g].snap_to
            &&& after[g].dependencies@.len() >= before[g].dependencies@.len()
            &&& forall|d: int|
                0 <= d < before[g].dependencies@.len() ==> {
                    &&& (#[trigger] after[g].dependencies@[d]).instances@.len()
                        >= before[g].dependencies@[d].instances@.len()
                    &&& forall|j: int|
                        0 <= j < before[g].dependencies@[d].instances@.len() ==> (
                        #[trigger] after[g].dependencies@[d].instances@[j])
                            == before[g].dependencies@[d].instances@[j]
                }
        }
}

proof fn lemma_extends_trans(a: Seq<VersionGroup>, b: Seq<VersionGroup>, c: Seq<VersionGroup>)
    requires
        extends(a, b),
        extends(b, c),
    ensures
        extends(a, c),
{
    assert forall|g: int| 0 <= g < a.len() implies {
        &&& (#[trigger] c[g]).selector == a[g].selector
        &&& c[g].variant == a[g].variant
        &&& c[g].pin_version == a[g].pin_version
        &&& c[g].snap_to == a[g].snap_to
        &&& c[g].dependencies@.len() >= a[g].dependencies@.len()
        &&& forall|d: int|
            0 <= d < a[g].dependencies@.len() ==> {
                &&& (#[trigger] c[g].dependencies@[d]).instances@.len() >= a[g].dependencies@[d].instances@.len()
                &&& forall|j: int|
                    0 <= j < a[g].dependencies@[d].instances@.len() ==> (
                    #[trigger] c[g].dependencies@[d].instances@[j]) == a[g].dependencies@[d].instances@[j]
            }
    } by {
        assert(b[g].selector == a[g].selector);
        assert(c[g].selector == b[g].selector);
        assert forall|d: int| 0 <= d < a[g].dependencies@.len() implies {
            &&& (#[trigger] c[g].dependencies@[d]).instances@.len() >= a[g].dependencies@[d].instances@.len()
            &&& forall|j: int|
                0 <= j < a[g].dependencies@[d].instances@.len() ==> (
                #[trigger] c[g].dependencies@[d].instances@[j]) == a[g].dependencies@[d].instances@[j]
        } by {
            assert(b[g].dependencies@[d].instances@.len() >= a[g].dependencies@[d].instances@.len());
            assert forall|j: int| 0 <= j < a[g].dependencies@[d].instances@.len() implies (
            #[trigger] c[g].dependencies@[d].instances@[j]) == a[g].dependencies@[d].instances@[j] by {
                assert(b[g].dependencies@[d].instances@[j] == a[g].dependencies@[d].instances@[j]);
            }
        }
    }
}

/// The first group in `groups` whose selector accepts the instance.
fn first_selecting_version_group(groups: &Vec<VersionGroup>, inst: &Instance) -> (r: Option<usize>)
    ensures
        match first_selecting(version_selectors(groups@), *inst, 0) {
            Some(g) => r == Some(g as usize),
            None => r is None,
        },
        r matches Some(g) ==> g < groups@.len(),
        r matches Some(g) ==> first_selecting(version_selectors(groups@), *inst, 0) == Some(g as int),
{
    let ghost sels = version_selectors(groups@);
    proof {
        lemma_first_selecting_bounds(sels, *inst, 0);
    }
    let kind = inst.actual.get_config_identifier();
    let mut g: usize = 0;
    while g < groups.len()
        invariant
            g <= groups@.len(),
            sels == version_selectors(groups@),
            kind@ == config_identifier(inst.actual.kind()),
            first_selecting(sels, *inst, 0) == first_selecting(sels, *inst, g as int),
        decreases groups@.len() - g,
    {
        assert(sels[g as int] == groups@[g as int].selector);
        if groups[g].selector.can_add(
            inst.name.as_str(),
            inst.dependency_type.name.as_str(),
            inst.package_name.as_str(),
            kind.as_str(),
        ) {
            return Some(g);
        }
        g = g + 1;
    }
    None
}

/// The first group in `groups` whose selector accepts the instance.
fn first_selecting_semver_group(groups: &Vec<SemverGroup>, inst: &Instance) -> (r: Option<usize>)
    ensures
        match first_selecting(semver_selectors(groups@), *inst, 0) {
            Some(g) => r == Some(g as usize),
            None => r is None,
        },
        r matches Some(g) ==> g < groups@.len(),
        r matches Some(g) ==> first_selecting(semver_selectors(groups@), *inst, 0) == Some(g as int),
{
    let ghost sels = semver_selectors(groups@);
    proof {
        lemma_first_selecting_bounds(sels, *inst, 0);
    }
    let kind = inst.actual.get_config_identifier();
    let mut g: usize = 0;
    while g < groups.len()
        invariant
            g <= groups@.len(),
            sels == semver_selectors(groups@),
            kind@ == config_identifier(inst.actual.kind()),
            first_selecting(sels, *inst, 0) == first_selecting(sels, *inst, g as int),
        decreases groups@.len() - g,
    {
        assert(sels[g as int] == groups@[g as int].selector);
        if groups[g].selector.can_add(
            inst.name.as_str(),
            inst.dependency_type.name.as_str(),
            inst.package_name.as_str(),
            kind.as_str(),
        ) {
            return Some(g);
        }
        g = g + 1;
    }
    None
}

/// Add instance `k` to the dependency named `name` of group `v`, creating
/// the dependency when the group has none of that name yet.
fn add_to_group(groups: &mut Vec<VersionGroup>, v: usize, k: usize, name: &String) -> (d: usize)
    requires
        v < old(groups)@.len(),
    ensures
        extends(old(groups)@, final(groups)@),
        forall|g: int| 0 <= g < old(groups)@.len() && g != v ==> (#[trigger] final(groups)@[g]) == old(groups)@[g],
        d < final(groups)@[v as int].dependencies@.len(),
        d <= old(groups)@[v as int].dependencies@.len(),
        final(groups)@[v as int].dependencies@.len() == (if d < old(groups)@[v as int].dependencies@.len() {
            old(groups)@[v as int].dependencies@.len()
        } else {
            old(groups)@[v as int].dependencies@.len() + 1
        }),
        final(groups)@[v as int].dependencies@[d as int].name@ == name@,
        final(groups)@[v as int].dependencies@[d as int].instances@ == (if d < old(groups)@[v as int].dependencies@.len() {
            old(groups)@[v as int].dependencies@[d as int].instances@
        } else {
            Seq::empty()
        }).push(k),
        d == old(groups)@[v as int].dependencies@.len() ==> final(groups)@[v as int].dependencies@[d as int].variant
            == old(groups)@[v as int].variant,
        d == old(groups)@[v as int].dependencies@.len() ==> final(groups)@[v as int].dependencies@[d as int].pinned_specifier
            == old(groups)@[v as int].pin_version,
        d == old(groups)@[v as int].dependencies@.len() ==> names_of(final(groups)@[v as int].dependencies@[d as int].snapped_to_packages)
            == names_of(old(groups)@[v as int].snap_to),
        d < old(groups)@[v as int].dependencies@.len() ==> final(groups)@[v as int].dependencies@[d as int].name
            == old(groups)@[v as int].dependencies@[d as int].name,
        d < old(groups)@[v as int].dependencies@.len() ==> final(groups)@[v as int].dependencies@[d as int].variant
            == old(groups)@[v as int].dependencies@[d as int].variant,
        d < old(groups)@[v as int].dependencies@.len() ==> final(groups)@[v as int].dependencies@[d as int].pinned_specifier
            == old(groups)@[v as int].dependencies@[d as int].pinned_specifier,
        d < old(groups)@[v as int].dependencies@.len() ==> final(groups)@[v as int].dependencies@[d as int].snapped_to_packages
            == old(groups)@[v as int].dependencies@[d as int].snapped_to_packages,
        forall|e: int|
            0 <= e < old(groups)@[v as int].dependencies@.len() && e != d ==> (
            #[trigger] final(groups)@[v as int].dependencies@[e]) == old(groups)@[v as int].dependencies@[e],
        d == old(groups)@[v as int].dependencies@.len() ==> forall|e: int|
            0 <= e < old(groups)@[v as int].dependencies@.len() ==> (#[trigger] old(groups)@[v as int].dependencies@[e]).name@
                != name@,
{
    let mut group = groups.remove(v);
    let n = group.dependencies.len();
    let mut d: usize = 0;
    while d < group.dependencies.len() && !str_is(group.dependencies[d].name.as_str(), name.as_str())
        invariant
            d <= group.dependencies@.len(),
            group == old(groups)@[v as int],
            forall|e: int| 0 <= e < d ==> group.dependencies@[e].name@ != name@,
        decreases group.dependencies@.len() - d,
    {
        d = d + 1;
    }
    if d == group.dependencies.len() {
        let pinned = match &group.pin_version {
            Some(p) => Some(p.duplicate()),
            None => None,
        };
        let snapped = match &group.snap_to {
            Some(names) => Some(crate::version_group::copy_strings(names)),
            None => None,
        };
        group.dependencies.push(Dependency::new(name.clone(), group.variant, pinned, snapped));
    }
    let ghost before_deps = group.dependencies@;
    let mut dep = group.dependencies.remove(d);
    dep.add_instance(k);
    group.dependencies.insert(d, dep);
    assert(group.dependencies@ =~= before_deps.update(d as int, dep));
    groups.insert(v, group);
    assert(groups@ =~= old(groups)@.update(v as int, group));
    d
}

impl Context {
    /// Every dependency of every version group holds well-formed instances
    /// and the policy of its group.
    pub open spec fn wf(self) -> bool {
        &&& forall|k: int| 0 <= k < self.instances@.len() ==> (#[trigger] self.instances@[k]).wf()
        &&& forall|g: int, d: int|
            0 <= g < self.version_groups@.len() && 0 <= d < self.version_groups@[g].dependencies@.len()
                ==> (#[trigger] self.version_groups@[g].dependencies@[d]).wf(self.instances@)
    }
}

/// Adding instance `k` to the dependency of its name in the first group that
/// selects it keeps every group holding and listing exactly what it should.
proof fn lemma_add_keeps_groups(
    before: Seq<VersionGroup>,
    after: Seq<VersionGroup>,
    sels: Seq<GroupSelector>,
    all: Seq<Instance>,
    k: usize,
    v: int,
    d: int,
)
    requires
        k < all.len(),
        0 <= v < before.len(),
        sels.len() == before.len(),
        groups_hold(before, sels, all, k as int),
        groups_complete(before, sels, all, k as int),
        first_selecting(sels, all[k as int], 0) == Some(v),
        extends(before, after),
        forall|g: int| 0 <= g < before.len() && g != v ==> (#[trigger] after[g]) == before[g],
        0 <= d < after[v].dependencies@.len(),
        d <= before[v].dependencies@.len(),
        after[v].dependencies@.len() == (if d < before[v].dependencies@.len() {
            before[v].dependencies@.len()
        } else {
            before[v].dependencies@.len() + 1
        }),
        after[v].dependencies@[d].name@ == all[k as int].name@,
        after[v].dependencies@[d].instances@ == (if d < before[v].dependencies@.len() {
            before[v].dependencies@[d].instances@
        } else {
            Seq::empty()
        }).push(k as usize),
        d == before[v].dependencies@.len() ==> after[v].dependencies@[d].variant == before[v].variant,
        d == before[v].dependencies@.len() ==> after[v].dependencies@[d].pinned_specifier == before[v].pin_version,
        d == before[v].dependencies@.len() ==> names_of(after[v].dependencies@[d].snapped_to_packages) == names_of(
            before[v].snap_to,
        ),
        d < before[v].dependencies@.len() ==> after[v].dependencies@[d].name == before[v].dependencies@[d].name,
        d < before[v].dependencies@.len() ==> after[v].dependencies@[d].variant == before[v].dependencies@[d].variant,
        d < before[v].dependencies@.len() ==> after[v].dependencies@[d].pinned_specifier
            == before[v].dependencies@[d].pinned_specifier,
        d < before[v].dependencies@.len() ==> after[v].dependencies@[d].snapped_to_packages
            == before[v].dependencies@[d].snapped_to_packages,
        forall|e: int|
            0 <= e < before[v].dependencies@.len() && e != d ==> (#[trigger] after[v].dependencies@[e])
                == before[v].dependencies@[e],
        d == before[v].dependencies@.len() ==> forall|e: int|
            0 <= e < before[v].dependencies@.len() ==> (#[trigger] before[v].dependencies@[e]).name@ != all[k as int].name@,
        names_distinct(before),
    ensures
        names_distinct(after),
        groups_hold(after, sels, all, k + 1),
        groups_complete(after, sels, all, k + 1),
{
    assert forall|g: int, e: int|
        0 <= g < after.len() && 0 <= e < after[g].dependencies@.len() implies {
            let dep = #[trigger] after[g].dependencies@[e];
            &&& dep.variant == after[g].variant
            &&& dep.pinned_specifier == after[g].pin_version
            &&& names_of(dep.snapped_to_packages) == names_of(after[g].snap_to)
            &&& forall|j: int| 0 <= j < dep.instances@.len() ==> {
                let x = #[trigger] dep.instances@[j] as int;
                &&& x < k + 1
                &&& x < all.len()
                &&& first_selecting(sels, all[x], 0) == Some(g)
                &&& all[x].name@ == dep.name@
            }
            &&& forall|i: int, j: int| 0 <= i < j < dep.instances@.len() ==> dep.instances@[i] < dep.instances@[j]
        } by {
        if g != v || e != d {
            assert(after[g].dependencies@[e] == before[g].dependencies@[e]);
            assert(after[g] == before[g] || g == v);
        } else {
            let dep = after[g].dependencies@[e];
            let old_seq = if d < before[v].dependencies@.len() {
                before[v].dependencies@[d].instances@
            } else {
                Seq::<usize>::empty()
            };
            assert(dep.instances@ == old_seq.push(k as usize));
            if d < before[v].dependencies@.len() {
                let old_dep = before[v].dependencies@[d];
                assert(old_dep == before[g].dependencies@[d]);
            }
            assert forall|j: int| 0 <= j < old_seq.len() implies {
                let x = #[trigger] old_seq[j] as int;
                &&& x < k as int
                &&& x < all.len()
                &&& first_selecting(sels, all[x], 0) == Some(g)
                &&& all[x].name@ == dep.name@
            } by {
                let old_dep = before[v].dependencies@[d];
                assert(old_seq[j] == old_dep.instances@[j]);
            }
            assert forall|j: int| 0 <= j < dep.instances@.len() implies {
                let x = #[trigger] dep.instances@[j] as int;
                &&& x < k + 1
                &&& x < all.len()
                &&& first_selecting(sels, all[x], 0) == Some(g)
                &&& all[x].name@ == dep.name@
            } by {
                if j < old_seq.len() {
                    assert(dep.instances@[j] == old_seq[j]);
                } else {
                    assert(dep.instances@[j] == k as usize);
                }
            }
            assert forall|i: int, j: int| 0 <= i < j < dep.instances@.len() implies dep.instances@[i]
                < dep.instances@[j] by {
                assert(dep.instances@[i] == old_seq[i]);
                if j < old_seq.len() {
                    assert(dep.instances@[j] == old_seq[j]);
                    let old_dep = before[v].dependencies@[d];
                    assert(old_seq[i] == old_dep.instances@[i]);
                    assert(old_seq[j] == old_dep.instances@[j]);
                } else {
                    assert(dep.instances@[j] == k as usize);
                    assert((old_seq[i] as int) < k);
                }
            }
        }
    }
    assert forall|g: int, d1: int, d2: int|
        0 <= g < after.len() && 0 <= d1 < after[g].dependencies@.len() && 0 <= d2 < after[g].dependencies@.len()
            && d1 != d2 implies (#[trigger] after[g].dependencies@[d1]).name@ != (#[trigger] after[g].dependencies@[d2]).name@ by {
        if g == v {
            if d1 != d && d2 != d {
                assert(after[g].dependencies@[d1] == before[g].dependencies@[d1]);
                assert(after[g].dependencies@[d2] == before[g].dependencies@[d2]);
            } else if d1 == d {
                assert(after[g].dependencies@[d2] == before[g].dependencies@[d2]);
                if d < before[v].dependencies@.len() {
                    assert(before[g].dependencies@[d1].name@ != before[g].dependencies@[d2].name@);
                }
            } else {
                assert(after[g].dependencies@[d1] == before[g].dependencies@[d1]);
                if d < before[v].dependencies@.len() {
                    assert(before[g].dependencies@[d1].name@ != before[g].dependencies@[d2].name@);
                }
            }
        } else {
            assert(after[g] == before[g]);
        }
    }
    assert forall|x: int| 0 <= x < k + 1 implies (#[trigger] first_selecting(sels, all[x], 0) matches Some(g)
        ==> exists|e: int, j: int|
        0 <= e < after[g].dependencies@.len() && 0 <= j < after[g].dependencies@[e].instances@.len()
            && after[g].dependencies@[e].instances@[j] == x) by {
        if x == k {
            let j = after[v].dependencies@[d].instances@.len() - 1;
            assert(after[v].dependencies@[d].instances@[j] == k);
        } else {
            lemma_first_selecting_bounds(sels, all[x], 0);
            if let Some(g) = first_selecting(sels, all[x], 0) {
                let (e, j) = choose|e: int, j: int|
                    0 <= e < before[g].dependencies@.len() && 0 <= j < before[g].dependencies@[e].instances@.len()
                        && before[g].dependencies@[e].instances@[j] == x;
                assert(after[g].dependencies@[e].instances@[j] == x);
            }
        }
    }
}

impl Context {
    /// Sort every instance into the first semver group and the first version
    /// group that select it; a catch-all group of each kind is added last,
    /// so every instance finds both. Within a version group, instances are
    /// held by the dependency of their name, in the order they come.
    pub fn create(
        instances: Vec<Instance>,
        semver_groups: Vec<SemverGroup>,
        version_groups: Vec<VersionGroup>,
    ) -> (r: Context)
        requires
            forall|k: int| 0 <= k < instances@.len() ==> (#[trigger] instances@[k]).wf(),
            forall|g: int| 0 <= g < version_groups@.len() ==> fresh_version_group(#[trigger] version_groups@[g]),
        ensures
            r.wf(),
            r.instances@.len() == instances@.len(),
            r.semver_groups@.len() == semver_groups@.len() + 1,
            r.semver_groups@.subrange(0, semver_groups@.len() as int) == semver_groups@,
            r.semver_groups@.last().range is None,
            r.semver_groups@.last().variant == crate::semver_group::SemverGroupVariant::Disabled,
            r.version_groups@.len() == version_groups@.len() + 1,
            forall|g: int| 0 <= g < version_groups@.len() ==> {
                &&& (#[trigger] r.version_groups@[g]).selector == version_groups@[g].selector
                &&& r.version_groups@[g].variant == version_groups@[g].variant
                &&& r.version_groups@[g].pin_version == version_groups@[g].pin_version
                &&& r.version_groups@[g].snap_to == version_groups@[g].snap_to
            },
            r.version_groups@.last().variant == Variant::HighestSemver,
            forall|k: int| 0 <= k < instances@.len() ==> {
                let before = instances@[k];
                let after = #[trigger] r.instances@[k];
                &&& after.actual == before.actual
                &&& after.is_local == before.is_local
                &&& after.name == before.name
                &&& after.package_name == before.package_name
                &&& after.id == before.id
                &&& after.dependency_type == before.dependency_type
                &&& after.state == before.state
                &&& after.overridden == before.overridden
                &&& match first_selecting(semver_selectors(r.semver_groups@), before, 0) {
                    Some(g) => match r.semver_groups@[g].range {
                        Some(range) => after.prefer_range == Some(range),
                        None => after.prefer_range == before.prefer_range && after.expected == before.expected,
                    },
                    None => after.prefer_range == before.prefer_range && after.expected == before.expected,
                }
            },
            groups_hold(r.version_groups@, version_selectors(r.version_groups@), r.instances@, r.instances@.len() as int),
            groups_complete(r.version_groups@, version_selectors(r.version_groups@), r.instances@, r.instances@.len() as int),
            names_distinct(r.version_groups@),
            crate::visit_packages::sorted(r),
    {
        let mut semver_groups = semver_groups;
        semver_groups.push(SemverGroup::get_catch_all());
        let mut version_groups = version_groups;
        let ghost given = version_groups@;
        version_groups.push(VersionGroup::get_catch_all());
        let mut instances = instances;
        let n = instances.len();
        let ghost orig = instances@;
        let ghost vsels = version_selectors(version_groups@);
        let ghost ssels = semver_selectors(semver_groups@);
        let ghost start = version_groups@;
        assert forall|g: int| 0 <= g < start.len() implies (#[trigger] start[g]).dependencies@.len() == 0 by {
            if g < given.len() {
                assert(start[g] == given[g]);
            }
        }
        let mut k: usize = 0;
        while k < n
            invariant
                instances@.len() == n,
                n == orig.len(),
                k <= n,
                vsels == version_selectors(version_groups@),
                ssels == semver_selectors(semver_groups@),
                extends(start, version_groups@),
                start.len() == given.len() + 1,
                forall|g: int| 0 <= g < given.len() ==> (#[trigger] start[g]) == given[g],
                start.last().variant == Variant::HighestSemver,
                start.last().pin_version is None,
                start.last().selector.dependencies@.len() == 0,
                start.last().selector.dependency_types@.len() == 0,
                start.last().selector.packages@.len() == 0,
                start.last().selector.specifier_types@.len() == 0,
                forall|g: int| 0 <= g < given.len() ==> fresh_version_group(#[trigger] given[g]),
                forall|x: int| 0 <= x < n ==> (#[trigger] instances@[x]).wf(),
                forall|x: int| k <= x < n ==> (#[trigger] instances@[x]) == orig[x],
                forall|x: int| 0 <= x < k ==> {
                    let before = orig[x];
                    let after = #[trigger] instances@[x];
                    &&& after.actual == before.actual
                    &&& after.is_local == before.is_local
                    &&& after.name == before.name
                    &&& after.package_name == before.package_name
                    &&& after.id == before.id
                    &&& after.dependency_type == before.dependency_type
                    &&& after.state == before.state
                    &&& after.overridden == before.overridden
                    &&& match first_selecting(ssels, before, 0) {
                        Some(g) => match semver_groups@[g].range {
                            Some(range) => after.prefer_range == Some(range),
                            None => after.prefer_range == before.prefer_range && after.expected == before.expected,
                        },
                        None => after.prefer_range == before.prefer_range && after.expected == before.expected,
                    }
                },
                groups_hold(version_groups@, vsels, instances@, k as int),
                groups_complete(version_groups@, vsels, instances@, k as int),
                names_distinct(version_groups@),
            decreases n - k,
        {
            let ghost insts_before = instances@;
            proof {
                lemma_first_selecting_bounds(ssels, instances@[k as int], 0);
                lemma_first_selecting_bounds(vsels, instances@[k as int], 0);
            }
            match first_selecting_semver_group(&semver_groups, &instances[k]) {
                Some(g) => {
                    assert(first_selecting(ssels, orig[k as int], 0) == Some(g as int));
                    let mut inst = instances.remove(k);
                    assert(inst == insts_before[k as int]);
                    inst.apply_semver_group(&semver_groups[g]);
                    instances.insert(k, inst);
                    assert(instances@ =~= insts_before.update(k as int, inst));
                    assert(instances@[k as int] == inst);
                    assert(match semver_groups@[g as int].range {
                        Some(range) => inst.prefer_range == Some(range),
                        None => inst.prefer_range == orig[k as int].prefer_range && inst.expected == orig[k as int].expected,
                    });
                },
                None => {},
            }
            proof {
                lemma_first_selecting_bounds(vsels, instances@[k as int], 0);
                assert(forall|x: int| 0 <= x < n && x != k ==> instances@[x] == insts_before[x]);
                assert(selects_same(insts_before[k as int], instances@[k as int]));
                lemma_first_selecting_same(vsels, insts_before[k as int], instances@[k as int], 0);
                lemma_hold_frame(version_groups@, vsels, insts_before, instances@, k as int);
            }
            let ghost groups_before = version_groups@;
            match first_selecting_version_group(&version_groups, &instances[k]) {
                Some(v) => {
                    let name = instances[k].name.clone();
                    let d = add_to_group(&mut version_groups, v, k, &name);
                    proof {
                        assert(first_selecting(vsels, instances@[k as int], 0) == Some(v as int));
                        lemma_add_keeps_groups(groups_before, version_groups@, vsels, instances@, k, v as int, d as int);
                        lemma_extends_trans(start, groups_before, version_groups@);
                        assert(version_selectors(version_groups@) =~= vsels);
                    }
                },
                None => {
                    proof {
                        assert(vsels.last() == version_groups@.last().selector);
                        assert(version_groups@.last().selector == start.last().selector);
                        lemma_first_selecting_catch_all(vsels, instances@[k as int]);
                        assert(false);
                    }
                },
            }
            k = k + 1;
        }
        let _len = instances.len();
        let ctx = Context { instances, semver_groups, version_groups };
        proof {
            assert forall|g: int, d: int|
                0 <= g < ctx.version_groups@.len() && 0 <= d < ctx.version_groups@[g].dependencies@.len() implies (
                #[trigger] ctx.version_groups@[g].dependencies@[d]).wf(ctx.instances@) by {
                let dep = ctx.version_groups@[g].dependencies@[d];
                assert(dep.variant == ctx.version_groups@[g].variant);
                assert(dep.pinned_specifier == ctx.version_groups@[g].pin_version);
                assert(ctx.version_groups@[g].pin_version == start[g].pin_version);
                if g < given.len() {
                    assert(start[g] == given[g]);
                    assert(fresh_version_group(given[g]));
                }
                assert forall|j: int, k: int|
                    0 <= j < dep.instances@.len() && 0 <= k < dep.instances@.len() && j != k implies dep.instances@[j]
                    != dep.instances@[k] by {
                    if j < k {
                        assert(dep.instances@[j] < dep.instances@[k]);
                    } else {
                        assert(dep.instances@[k] < dep.instances@[j]);
                    }
                }
            }
        }
        ctx
    }
}

} // verus!

