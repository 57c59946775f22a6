//! Fixing: the expected specifier of every fixable instance is written back
//! to the package.json file it was read from.
//!
//! A write only changes what is already there: an instance whose expected
//! specifier is missing (a banned dependency) removes its entry, any other
//! replaces the entry's specifier. When several instances write the same
//! entry, the last one in the order of the instances wins.

use vstd::prelude::*;
use crate::context::Context;
use crate::instance::{can_write, with_instance_removed, with_specifier_written, Instance};
use crate::json::{Json, JsonView};
use crate::dependency_type::Strategy;
use crate::instance_state::{InstanceState, InvalidInstance};
use crate::packages::{is_local_type, DependencyEntry, PackageJson};
use crate::specifier::Specifier;
use crate::text::str_is;

verus! {

/// Does fixing write the expected specifier of an instance in this state?
pub open spec fn writes_back(state: InstanceState) -> bool {
    state matches InstanceState::Invalid(InvalidInstance::Fixable(_))
}

/// Does an instance in this state leave the project invalid after fixing?
pub open spec fn blocks_fix(state: InstanceState) -> bool {
    ||| state matches InstanceState::Invalid(InvalidInstance::Unfixable(_))
    ||| state matches InstanceState::Invalid(InvalidInstance::Conflict(_))
}

/// What an instance writes: its expected specifier, or a removal when it is
/// expected to be missing.
pub open spec fn written(i: Instance) -> Option<Seq<char>> {
    if i.expected is Missing {
        None
    } else {
        Some(i.expected.text())
    }
}

/// Does the instance write the entry `name` of the dependency type `kind` in
/// the file `file`?
pub open spec fn writes_entry(i: Instance, file: Seq<char>, kind: Seq<char>, name: Seq<char>) -> bool {
    &&& writes_back(i.state)
    &&& !is_local_type(i.dependency_type)
    &&& i.file_path@ == file
    &&& i.dependency_type.name@ == kind
    &&& i.name@ == name
}

/// Does the instance write the version of the file `file`?
pub open spec fn writes_version(i: Instance, file: Seq<char>) -> bool {
    &&& writes_back(i.state)
    &&& is_local_type(i.dependency_type)
    &&& i.file_path@ == file
}

/// What becomes of a value (`None` when absent) after the instances, in
/// order, have written it: each instance that `hits` it writes what it
/// writes, as long as the value is still there.
pub open spec fn fate(
    instances: Seq<Instance>,
    hits: spec_fn(Instance) -> bool,
    given: Option<Seq<char>>,
) -> Option<Seq<char>>
    decreases instances.len(),
{
    if instances.len() == 0 {
        given
    } else {
        let prev = fate(instances.drop_last(), hits, given);
        if hits(instances.last()) && prev is Some {
            written(instances.last())
        } else {
            prev
        }
    }
}

/// A dependency entry as plain values: its type, its name, its specifier.
pub open spec fn entry_view(e: DependencyEntry) -> (Seq<char>, Seq<char>, Seq<char>) {
    (e.dependency_type@, e.name@, e.specifier@)
}

pub open spec fn entries_view(deps: Seq<DependencyEntry>) -> Seq<(Seq<char>, Seq<char>, Seq<char>)> {
    deps.map_values(|e: DependencyEntry| entry_view(e))
}

/// What is written of an entry of the file `file`.
pub open spec fn entry_fate(
    instances: Seq<Instance>,
    file: Seq<char>,
    e: (Seq<char>, Seq<char>, Seq<char>),
) -> Option<Seq<char>> {
    fate(instances, |i: Instance| writes_entry(i, file, e.0, e.1), Some(e.2))
}

/// The entries of the file `file` after fixing: the removed ones are gone,
/// the others carry what was written of them, in their order.
pub open spec fn fixed_entries(
    deps: Seq<(Seq<char>, Seq<char>, Seq<char>)>,
    file: Seq<char>,
    instances: Seq<Instance>,
) -> Seq<(Seq<char>, Seq<char>, Seq<char>)>
    decreases deps.len(),
{
    if deps.len() == 0 {
        Seq::empty()
    } else {
        let rest = fixed_entries(deps.drop_last(), file, instances);
        let e = deps.last();
        match entry_fate(instances, file, e) {
            Some(s) => rest.push((e.0, e.1, s)),
            None => rest,
        }
    }
}

pub open spec fn version_view(v: Option<String>) -> Option<Seq<char>> {
    match v {
        Some(s) => Some(s@),
        None => None,
    }
}

/// `after` is the file `before` once the instances have been written to it.
pub open spec fn fixed_package(before: PackageJson, after: PackageJson, instances: Seq<Instance>) -> bool {
    &&& after.name@ == before.name@
    &&& after.file_path@ == before.file_path@
    &&& version_view(after.version) == fate(
        instances,
        |i: Instance| writes_version(i, before.file_path@),
        version_view(before.version),
    )
    &&& entries_view(after.dependencies@) == fixed_entries(
        entries_view(before.dependencies@),
        before.file_path@,
        instances,
    )
}

fn state_writes_back(state: &InstanceState) -> (r: bool)
    ensures
        r == writes_back(*state),
{
    match state {
        InstanceState::Invalid(InvalidInstance::Fixable(_)) => true,
        _ => false,
    }
}

fn instance_writes_entry(i: &Instance, file: &String, kind: &String, name: &String) -> (r: bool)
    ensures
        r == writes_entry(*i, file@, kind@, name@),
{
    proof {
        reveal_strlit("/version");
    }
    state_writes_back(&i.state) && !str_is(i.dependency_type.path.as_str(), "/version") && str_is(
        i.file_path.as_str(),
        file.as_str(),
    ) && str_is(i.dependency_type.name.as_str(), kind.as_str()) && str_is(i.name.as_str(), name.as_str())
}

fn instance_writes_version(i: &Instance, file: &String) -> (r: bool)
    ensures
        r == writes_version(*i, file@),
{
    state_writes_back(&i.state) && str_is(i.dependency_type.path.as_str(), "/version") && str_is(
        i.file_path.as_str(),
        file.as_str(),
    )
}

/// What the instance writes, as an exec value.
fn written_by(i: &Instance) -> (r: Option<String>)
    ensures
        version_view(r) == written(*i),
{
    match &i.expected {
        Specifier::Missing => None,
        expected => Some(expected.unwrap()),
    }
}

/// What becomes of the version of `file` once the instances are written.
fn version_after(instances: &Vec<Instance>, file: &String, given: &Option<String>) -> (r: Option<String>)
    ensures
        version_view(r) == fate(instances@, |i: Instance| writes_version(i, file@), version_view(*given)),
{
    let ghost hits = |i: Instance| writes_version(i, file@);
    let mut current: Option<String> = match given {
        Some(v) => Some(v.clone()),
        None => None,
    };
    let mut k: usize = 0;
    while k < instances.len()
        invariant
            k <= instances@.len(),
            hits == (|i: Instance| writes_version(i, file@)),
            version_view(current) == fate(instances@.take(k as int), hits, version_view(*given)),
        decreases instances@.len() - k,
    {
        proof {
            assert(instances@.take(k + 1).drop_last() =~= instances@.take(k as int));
            assert(instances@.take(k + 1).last() == instances@[k as int]);
        }
        if current.is_some() && instance_writes_version(&instances[k], file) {
            current = written_by(&instances[k]);
        }
        k = k + 1;
    }
    proof {
        assert(instances@.take(instances@.len() as int) =~= instances@);
    }
    current
}

/// What becomes of one entry of `file` once the instances are written.
fn entry_after(instances: &Vec<Instance>, file: &String, entry: &DependencyEntry) -> (r: Option<String>)
    ensures
        version_view(r) == entry_fate(instances@, file@, entry_view(*entry)),
{
    let ghost hits = |i: Instance| writes_entry(i, file@, entry.dependency_type@, entry.name@);
    let mut current: Option<String> = Some(entry.specifier.clone());
    let mut k: usize = 0;
    while k < instances.len()
        invariant
            k <= instances@.len(),
            hits == (|i: Instance| writes_entry(i, file@, entry.dependency_type@, entry.name@)),
            version_view(current) == fate(instances@.take(k as int), hits, Some(entry.specifier@)),
        decreases instances@.len() - k,
    {
        proof {
            assert(instances@.take(k + 1).drop_last() =~= instances@.take(k as int));
            assert(instances@.take(k + 1).last() == instances@[k as int]);
        }
        if current.is_some() && instance_writes_entry(&instances[k], file, &entry.dependency_type, &entry.name) {
            current = written_by(&instances[k]);
        }
        k = k + 1;
    }
    proof {
        assert(instances@.take(instances@.len() as int) =~= instances@);
    }
    current
}

/// The package file once the instances are written to it.
fn fix_package(package: &PackageJson, instances: &Vec<Instance>) -> (r: PackageJson)
    ensures
        fixed_package(*package, r, instances@),
{
    let deps = &package.dependencies;
    let mut fixed: Vec<DependencyEntry> = Vec::new();
    let mut j: usize = 0;
    while j < deps.len()
        invariant
            j <= deps@.len(),
            *deps == package.dependencies,
            entries_view(fixed@) == fixed_entries(
                entries_view(deps@.subrange(0, j as int)),
                package.file_path@,
                instances@,
            ),
        decreases deps@.len() - j,
    {
        let entry = &deps[j];
        proof {
            assert(entries_view(deps@.subrange(0, j + 1)).drop_last() =~= entries_view(
                deps@.subrange(0, j as int),
            ));
            assert(entries_view(deps@.subrange(0, j + 1)).last() == entry_view(*entry));
        }
        match entry_after(instances, &package.file_path, entry) {
            Some(specifier) => {
                let ghost before = fixed@;
                fixed.push(
                    DependencyEntry {
                        dependency_type: entry.dependency_type.clone(),
                        name: entry.name.clone(),
                        specifier,
                    },
                );
                proof {
                    assert(entries_view(fixed@) =~= entries_view(before).push(
                        (entry.dependency_type@, entry.name@, specifier@),
                    ));
                }
            },
            None => {},
        }
        j = j + 1;
    }
    proof {
        assert(deps@.subrange(0, deps@.len() as int) =~= deps@);
    }
    PackageJson {
        name: package.name.clone(),
        version: version_after(instances, &package.file_path, &package.version),
        file_path: package.file_path.clone(),
        dependencies: fixed,
    }
}

/// Check whether all versions are according to config: true when no
/// instance of the context was found invalid.
pub fn is_valid(ctx: &Context) -> (r: bool)
    ensures
        r == forall|i: int| 0 <= i < ctx.instances@.len() ==> !((#[trigger] ctx.instances@[i]).state is Invalid),
{
    let mut valid = true;
    let mut k: usize = 0;
    while k < ctx.instances.len()
        invariant
            k <= ctx.instances@.len(),
            valid == forall|i: int| 0 <= i < k ==> !((#[trigger] ctx.instances@[i]).state is Invalid),
        decreases ctx.instances@.len() - k,
    {
        if let InstanceState::Invalid(_) = &ctx.instances[k].state {
            valid = false;
        }
        k = k + 1;
    }
    valid
}

/// Write the expected specifier of every fixable instance of the context
/// back to its package file, and say whether every instance could be fixed:
/// `false` when an instance is in a state that fixing cannot resolve.
pub fn fix(ctx: &Context, packages: &mut Vec<PackageJson>) -> (is_valid: bool)
    ensures
        final(packages)@.len() == old(packages)@.len(),
        forall|p: int|
            0 <= p < old(packages)@.len() ==> fixed_package(
                #[trigger] old(packages)@[p],
                final(packages)@[p],
                ctx.instances@,
            ),
        is_valid == forall|i: int| 0 <= i < ctx.instances@.len() ==> !blocks_fix(#[trigger] ctx.instances@[i].state),
{
    let ghost before = packages@;
    let mut p: usize = 0;
    while p < packages.len()
        invariant
            p <= packages@.len(),
            packages@.len() == before.len(),
            forall|q: int| 0 <= q < p ==> fixed_package(#[trigger] before[q], packages@[q], ctx.instances@),
            forall|q: int| p <= q < packages@.len() ==> #[trigger] packages@[q] == before[q],
        decreases packages@.len() - p,
    {
        let fixed = fix_package(&packages[p], &ctx.instances);
        packages[p] = fixed;
        p = p + 1;
    }
    let mut is_valid = true;
    let mut k: usize = 0;
    while k < ctx.instances.len()
        invariant
            k <= ctx.instances@.len(),
            is_valid == forall|i: int| 0 <= i < k ==> !blocks_fix(#[trigger] ctx.instances@[i].state),
        decreases ctx.instances@.len() - k,
    {
        let blocked = match &ctx.instances[k].state {
            InstanceState::Invalid(InvalidInstance::Unfixable(_)) => true,
            InstanceState::Invalid(InvalidInstance::Conflict(_)) => true,
            _ => false,
        };
        if blocked {
            is_valid = false;
        }
        k = k + 1;
    }
    is_valid
}

/// Nothing is written of an absent value.
proof fn lemma_fate_of_absent(instances: Seq<Instance>, hits: spec_fn(Instance) -> bool)
    ensures
        fate(instances, hits, None) is None,
    decreases instances.len(),
{
    if instances.len() > 0 {
        lemma_fate_of_absent(instances.drop_last(), hits);
    }
}

/// A value that no instance hits stays as it is.
proof fn lemma_fate_unhit(instances: Seq<Instance>, hits: spec_fn(Instance) -> bool, given: Option<Seq<char>>)
    requires
        forall|k: int| 0 <= k < instances.len() ==> !hits(#[trigger] instances[k]),
    ensures
        fate(instances, hits, given) == given,
    decreases instances.len(),
{
    if instances.len() > 0 {
        assert forall|k: int| 0 <= k < instances.drop_last().len() implies !hits(
            #[trigger] instances.drop_last()[k],
        ) by {
            assert(instances.drop_last()[k] == instances[k]);
        }
        lemma_fate_unhit(instances.drop_last(), hits, given);
        assert(!hits(instances[instances.len() - 1]));
    }
}

/// A value that an instance removes is gone.
proof fn lemma_fate_removed(instances: Seq<Instance>, hits: spec_fn(Instance) -> bool, given: Option<Seq<char>>, k: int)
    requires
        0 <= k < instances.len(),
        hits(instances[k]),
        written(instances[k]) is None,
    ensures
        fate(instances, hits, given) is None,
    decreases instances.len(),
{
    let prev = fate(instances.drop_last(), hits, given);
    if k == instances.len() - 1 {
        if prev is None {
        } else {
            assert(instances.last() == instances[k]);
        }
    } else {
        assert(instances.drop_last()[k] == instances[k]);
        lemma_fate_removed(instances.drop_last(), hits, given, k);
    }
}

/// When no instance that hits a present value removes it, it stays present.
proof fn lemma_fate_kept(instances: Seq<Instance>, hits: spec_fn(Instance) -> bool, x: Seq<char>)
    requires
        forall|k: int| 0 <= k < instances.len() && hits(#[trigger] instances[k]) ==> written(instances[k]) is Some,
    ensures
        fate(instances, hits, Some(x)) is Some,
    decreases instances.len(),
{
    if instances.len() > 0 {
        assert forall|k: int| 0 <= k < instances.drop_last().len() && hits(
            #[trigger] instances.drop_last()[k],
        ) implies written(instances.drop_last()[k]) is Some by {
            assert(instances.drop_last()[k] == instances[k]);
        }
        lemma_fate_kept(instances.drop_last(), hits, x);
        assert(instances.last() == instances[instances.len() - 1]);
    }
}

/// Once some instance hits a value and none removes it, what is written no
/// longer depends on what the value was.
proof fn lemma_fate_overwritten(
    instances: Seq<Instance>,
    hits: spec_fn(Instance) -> bool,
    x: Seq<char>,
    y: Seq<char>,
    w: int,
)
    requires
        0 <= w < instances.len(),
        hits(instances[w]),
        forall|k: int| 0 <= k < instances.len() && hits(#[trigger] instances[k]) ==> written(instances[k]) is Some,
    ensures
        fate(instances, hits, Some(x)) == fate(instances, hits, Some(y)),
    decreases instances.len(),
{
    let init = instances.drop_last();
    assert forall|k: int| 0 <= k < init.len() && hits(#[trigger] init[k]) implies written(init[k]) is Some by {
        assert(init[k] == instances[k]);
    }
    assert(instances.last() == instances[instances.len() - 1]);
    if hits(instances.last()) {
        lemma_fate_kept(init, hits, x);
        lemma_fate_kept(init, hits, y);
    } else {
        assert(w < instances.len() - 1);
        assert(init[w] == instances[w]);
        lemma_fate_overwritten(init, hits, x, y, w);
    }
}

/// Writing a value a second time changes nothing.
proof fn lemma_fate_idempotent(instances: Seq<Instance>, hits: spec_fn(Instance) -> bool, given: Option<Seq<char>>)
    ensures
        fate(instances, hits, fate(instances, hits, given)) == fate(instances, hits, given),
{
    lemma_fate_of_absent(instances, hits);
    if given is None {
    } else if exists|k: int| 0 <= k < instances.len() && hits(#[trigger] instances[k]) && written(instances[k]) is None {
        let k = choose|k: int| 0 <= k < instances.len() && hits(#[trigger] instances[k]) && written(instances[k]) is None;
        lemma_fate_removed(instances, hits, given, k);
    } else if exists|k: int| 0 <= k < instances.len() && hits(#[trigger] instances[k]) {
        let w = choose|k: int| 0 <= k < instances.len() && hits(#[trigger] instances[k]);
        lemma_fate_kept(instances, hits, given->0);
        let once = fate(instances, hits, given);
        lemma_fate_overwritten(instances, hits, once->0, given->0, w);
    } else {
        lemma_fate_unhit(instances, hits, given);
    }
}

proof fn lemma_fixed_entries_idempotent(
    deps: Seq<(Seq<char>, Seq<char>, Seq<char>)>,
    file: Seq<char>,
    instances: Seq<Instance>,
)
    ensures
        fixed_entries(fixed_entries(deps, file, instances), file, instances) == fixed_entries(deps, file, instances),
    decreases deps.len(),
{
    if deps.len() > 0 {
        let rest = fixed_entries(deps.drop_last(), file, instances);
        lemma_fixed_entries_idempotent(deps.drop_last(), file, instances);
        let e = deps.last();
        let hits = |i: Instance| writes_entry(i, file, e.0, e.1);
        match entry_fate(instances, file, e) {
            Some(s) => {
                let pushed = rest.push((e.0, e.1, s));
                assert(pushed.drop_last() =~= rest);
                lemma_fate_idempotent(instances, hits, Some(e.2));
                assert(entry_fate(instances, file, (e.0, e.1, s)) == fate(instances, hits, Some(s)));
            },
            None => {},
        }
    }
}

/// Nothing is written of a file when no instance of it is fixable.
proof fn lemma_fixed_entries_unhit(
    deps: Seq<(Seq<char>, Seq<char>, Seq<char>)>,
    file: Seq<char>,
    instances: Seq<Instance>,
)
    requires
        forall|k: int|
            0 <= k < instances.len() ==> !(writes_back((#[trigger] instances[k]).state) && instances[k].file_path@
                == file),
    ensures
        fixed_entries(deps, file, instances) == deps,
    decreases deps.len(),
{
    if deps.len() > 0 {
        lemma_fixed_entries_unhit(deps.drop_last(), file, instances);
        let e = deps.last();
        let hits = |i: Instance| writes_entry(i, file, e.0, e.1);
        assert forall|k: int| 0 <= k < instances.len() implies !hits(#[trigger] instances[k]) by {}
        lemma_fate_unhit(instances, hits, Some(e.2));
        assert(deps.drop_last().push(e) =~= deps);
    }
}

/// Fixing a package that was already fixed changes nothing: every entry
/// already holds what its instances expect, and what was removed is gone.
pub proof fn law_fix_is_idempotent(before: PackageJson, once: PackageJson, twice: PackageJson, instances: Seq<Instance>)
    requires
        fixed_package(before, once, instances),
        fixed_package(once, twice, instances),
    ensures
        twice.name@ == once.name@,
        twice.file_path@ == once.file_path@,
        version_view(twice.version) == version_view(once.version),
        entries_view(twice.dependencies@) == entries_view(once.dependencies@),
{
    let file = before.file_path@;
    lemma_fate_idempotent(instances, |i: Instance| writes_version(i, file), version_view(before.version));
    lemma_fixed_entries_idempotent(entries_view(before.dependencies@), file, instances);
}

/// A package that no fixable instance was read from is left as it was.
pub proof fn law_fix_leaves_other_packages(before: PackageJson, after: PackageJson, instances: Seq<Instance>)
    requires
        fixed_package(before, after, instances),
        forall|k: int|
            0 <= k < instances.len() ==> !(writes_back((#[trigger] instances[k]).state) && instances[k].file_path@
                == before.file_path@),
    ensures
        after.name@ == before.name@,
        version_view(after.version) == version_view(before.version),
        entries_view(after.dependencies@) == entries_view(before.dependencies@),
{
    let file = before.file_path@;
    let hits = |i: Instance| writes_version(i, file);
    assert forall|k: int| 0 <= k < instances.len() implies !hits(#[trigger] instances[k]) by {}
    lemma_fate_unhit(instances, hits, version_view(before.version));
    lemma_fixed_entries_unhit(entries_view(before.dependencies@), file, instances);
}

/// When the fixable instances of an entry agree on one specifier, fixing
/// writes that specifier to the entry.
pub proof fn law_fix_writes_the_expected_specifier(
    instances: Seq<Instance>,
    file: Seq<char>,
    entry: (Seq<char>, Seq<char>, Seq<char>),
    w: int,
    specifier: Seq<char>,
)
    requires
        0 <= w < instances.len(),
        writes_entry(instances[w], file, entry.0, entry.1),
        forall|k: int|
            0 <= k < instances.len() && writes_entry(#[trigger] instances[k], file, entry.0, entry.1) ==> written(
                instances[k],
            ) == Some(specifier),
    ensures
        entry_fate(instances, file, entry) == Some(specifier),
    decreases instances.len(),
{
    let hits = |i: Instance| writes_entry(i, file, entry.0, entry.1);
    let init = instances.drop_last();
    assert(instances.last() == instances[instances.len() - 1]);
    assert forall|k: int| 0 <= k < init.len() && hits(#[trigger] init[k]) implies written(init[k]) is Some by {
        assert(init[k] == instances[k]);
    }
    lemma_fate_kept(init, hits, entry.2);
    if !hits(instances.last()) {
        assert(init[w] == instances[w]);
        assert forall|k: int|
            0 <= k < init.len() && writes_entry(#[trigger] init[k], file, entry.0, entry.1) implies written(
            init[k],
        ) == Some(specifier) by {
            assert(init[k] == instances[k]);
        }
        law_fix_writes_the_expected_specifier(init, file, entry, w, specifier);
    }
}

/// An entry that a fixable instance expects to be missing (a banned
/// dependency) is removed from its file.
pub proof fn law_fix_removes_banned_entries(
    instances: Seq<Instance>,
    file: Seq<char>,
    entry: (Seq<char>, Seq<char>, Seq<char>),
    k: int,
)
    requires
        0 <= k < instances.len(),
        writes_entry(instances[k], file, entry.0, entry.1),
        instances[k].expected is Missing,
    ensures
        entry_fate(instances, file, entry) is None,
{
    lemma_fate_removed(instances, |i: Instance| writes_entry(i, file, entry.0, entry.1), Some(entry.2), k);
}

/// Fixing writes back every instance in a fixable state, whatever the
/// mismatch: when the fixable instances of a dependency entry of a file agree
/// on what they should be, the entry ends up with that specifier.
pub proof fn law_fixable_instances_are_written_back(
    instances: Seq<Instance>,
    file: Seq<char>,
    entry: (Seq<char>, Seq<char>, Seq<char>),
    w: int,
)
    requires
        0 <= w < instances.len(),
        instances[w].state matches InstanceState::Invalid(InvalidInstance::Fixable(_)),
        !is_local_type(instances[w].dependency_type),
        instances[w].file_path@ == file,
        instances[w].dependency_type.name@ == entry.0,
        instances[w].name@ == entry.1,
        !(instances[w].expected is Missing),
        forall|k: int|
            0 <= k < instances.len() && ((#[trigger] instances[k]).state is Invalid
                && instances[k].state->Invalid_0 is Fixable) && !is_local_type(instances[k].dependency_type) && instances[k].file_path@ == file
                && instances[k].dependency_type.name@ == entry.0 && instances[k].name@ == entry.1 ==> instances[k].expected
                == instances[w].expected,
    ensures
        entry_fate(instances, file, entry) == Some(instances[w].expected.text()),
{
    assert forall|k: int|
        0 <= k < instances.len() && writes_entry(#[trigger] instances[k], file, entry.0, entry.1) implies written(
        instances[k],
    ) == Some(instances[w].expected.text()) by {
        assert(instances[k].expected == instances[w].expected);
    }
    law_fix_writes_the_expected_specifier(instances, file, entry, w, instances[w].expected.text());
}

/// Can fixing write the instance to the contents of its file? A removal
/// needs a known strategy; a write needs that too and, when versions are
/// listed by name, the instance's entry.
pub open spec fn can_fix(contents: JsonView, i: Instance) -> bool {
    if i.expected is Missing {
        i.dependency_type.strategy != Strategy::InvalidConfig
    } else {
        can_write(contents, i)
    }
}

/// The contents of the file `file` after one instance is fixed in them.
pub open spec fn fix_step(contents: JsonView, i: Instance, file: Seq<char>) -> JsonView {
    if writes_back(i.state) && i.file_path@ == file && can_fix(contents, i) {
        if i.expected is Missing {
            with_instance_removed(contents, i)
        } else {
            with_specifier_written(contents, i, i.expected.text())
        }
    } else {
        contents
    }
}

/// The contents of the file `file` after the instances, in order, are fixed
/// in them.
pub open spec fn fixed_contents(contents: JsonView, instances: Seq<Instance>, file: Seq<char>) -> JsonView
    decreases instances.len(),
{
    if instances.len() == 0 {
        contents
    } else {
        fix_step(fixed_contents(contents, instances.drop_last(), file), instances.last(), file)
    }
}

/// Can fixing write the instance to these contents?
fn instance_can_fix(contents: &Json, i: &Instance) -> (r: bool)
    ensures
        r == can_fix(contents.view(), *i),
{
    match i.dependency_type.strategy {
        Strategy::InvalidConfig => false,
        Strategy::VersionsByName => match &i.expected {
            Specifier::Missing => true,
            _ => match contents.pointer(i.dependency_type.path.as_str()) {
                Some(versions) => versions.has_member(&i.name),
                None => false,
            },
        },
        _ => true,
    }
}

/// Write the expected specifier of every fixable instance read from the
/// file `file_path` into the file's contents, in the order of the
/// instances: a banned dependency is removed, any other gets its expected
/// specifier. An instance whose strategy is not known, or whose entry is no
/// longer there to be written, is passed over.
pub fn fix_contents(ctx: &Context, file_path: &String, contents: &mut Json)
    ensures
        final(contents).view() == fixed_contents(old(contents).view(), ctx.instances@, file_path@),
{
    let ghost start = contents.view();
    let mut k: usize = 0;
    while k < ctx.instances.len()
        invariant
            k <= ctx.instances@.len(),
            contents.view() == fixed_contents(start, ctx.instances@.take(k as int), file_path@),
        decreases ctx.instances@.len() - k,
    {
        let instance = &ctx.instances[k];
        proof {
            assert(ctx.instances@.take(k + 1).drop_last() =~= ctx.instances@.take(k as int));
            assert(ctx.instances@.take(k + 1).last() == *instance);
        }
        if state_writes_back(&instance.state) && str_is(instance.file_path.as_str(), file_path.as_str())
            && instance_can_fix(contents, instance) {
            match &instance.expected {
                Specifier::Missing => instance.remove_from(contents),
                expected => instance.write_specifier(contents, expected),
            }
        }
        k = k + 1;
    }
    proof {
        assert(ctx.instances@.take(ctx.instances@.len() as int) =~= ctx.instances@);
    }
}

} // verus!
