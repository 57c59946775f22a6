//! Judging every instance of a dependency against the policy of its version
//! group and the range of its semver group.

use vstd::prelude::*;
use crate::dependency::{
    all_identical, first_in_packages, last_local, members, preferred, worse, Dependency, DependencyState,
};
use crate::context::{groups_hold, names_distinct, version_selectors, Context, first_selecting};
use crate::version_group::{strings_view, VersionGroup};
use crate::instance::{same_version_number, Instance, InstanceView};
use crate::instance_state::{
    FixableInstance, InstanceState, InvalidInstance, SemverGroupAndVersionConflict, SuspectInstance,
    UnfixableInstance, ValidInstance,
};
use crate::specifier::orderable::{node_semver_ranges_overlap, ranges_overlap};
use crate::specifier::range_text::{range_is_readable, unreadable_range};
use crate::specifier::semver_range::SemverRange;
use crate::specifier::{Specifier, SpecifierKind};
use crate::version_group::Variant;

verus! {

/// Which specifier an instance should end up with.
pub enum Expectation {
    /// The one it already has
    Keep,
    /// The given one
    Use(Specifier),
    /// None: the instance should be removed
    Remove,
    /// Its own, with the range of its semver group
    PreferredRange,
}

/// What visiting decides for one instance.
pub struct Outcome {
    pub state: InstanceState,
    pub expected: Expectation,
    /// Whether the specifier its semver group would give it is recorded as
    /// overridden by a pinned version
    pub overridden: bool,
}

/// What visiting decided for one instance, as values.
#[derive(Clone, Debug)]
pub struct InstanceOutcome {
    pub state: InstanceState,
    pub expected: Specifier,
    pub overridden: Option<Specifier>,
}

pub open spec fn plain(state: InstanceState, expected: Expectation) -> Outcome {
    Outcome { state, expected, overridden: false }
}

pub open spec fn valid(v: ValidInstance) -> InstanceState {
    InstanceState::Valid(v)
}

pub open spec fn fixable(v: FixableInstance) -> InstanceState {
    InstanceState::Invalid(InvalidInstance::Fixable(v))
}

pub open spec fn unfixable(v: UnfixableInstance) -> InstanceState {
    InstanceState::Invalid(InvalidInstance::Unfixable(v))
}

pub open spec fn conflict(v: SemverGroupAndVersionConflict) -> InstanceState {
    InstanceState::Invalid(InvalidInstance::Conflict(v))
}

pub open spec fn suspect(v: SuspectInstance) -> InstanceState {
    InstanceState::Suspect(v)
}

/// An instance of a dependency developed in this monorepo, whose local
/// version `local` is exact: it should have that version, or the range of
/// its semver group when that range is satisfied by the local version.
pub open spec fn local_outcome(inst: InstanceView, local: Specifier) -> Outcome {
    if !same_version_number(inst.actual, local) {
        plain(fixable(FixableInstance::MismatchesLocal), Expectation::Use(local))
    } else if inst.prefers_range_other_than(SemverRange::Exact) {
        if inst.matches_preferred_range() {
            if inst.preferred_range_satisfies(local) {
                plain(valid(ValidInstance::MatchesLocal), Expectation::PreferredRange)
            } else {
                plain(conflict(SemverGroupAndVersionConflict::MatchConflictsWithLocal), Expectation::Keep)
            }
        } else if inst.preferred_range_satisfies(local) {
            plain(fixable(FixableInstance::SemverRangeMismatch), Expectation::PreferredRange)
        } else {
            plain(conflict(SemverGroupAndVersionConflict::MismatchConflictsWithLocal), Expectation::Keep)
        }
    } else if inst.actual.same_as(local) {
        plain(valid(ValidInstance::EqualsLocal), Expectation::Use(local))
    } else {
        plain(fixable(FixableInstance::MismatchesLocal), Expectation::Use(local))
    }
}

/// An instance judged against the preferred (highest or lowest) specifier of
/// its group, or against the specifier it is snapped to.
pub open spec fn prefer_outcome(inst: InstanceView, target: Specifier, snapped: bool) -> Outcome {
    let mismatches = if snapped {
        FixableInstance::MismatchesSnapToVersion
    } else {
        FixableInstance::MismatchesPreferVersion
    };
    let matches = if snapped {
        ValidInstance::MatchesSnapToVersion
    } else {
        ValidInstance::MatchesPreferVersion
    };
    let equals = if snapped {
        ValidInstance::EqualsSnapToVersion
    } else {
        ValidInstance::EqualsPreferVersion
    };
    let match_conflict = if snapped {
        SemverGroupAndVersionConflict::MatchConflictsWithSnapTo
    } else {
        SemverGroupAndVersionConflict::MatchConflictsWithPrefer
    };
    let mismatch_conflict = if snapped {
        SemverGroupAndVersionConflict::MismatchConflictsWithSnapTo
    } else {
        SemverGroupAndVersionConflict::MismatchConflictsWithPrefer
    };
    if !same_version_number(inst.actual, target) {
        plain(fixable(mismatches), Expectation::Use(target))
    } else if inst.prefers_range_other_than(target.simple().unwrap().range()) {
        if inst.matches_preferred_range() {
            if inst.preferred_range_satisfies(target) {
                plain(valid(matches), Expectation::Keep)
            } else {
                plain(conflict(match_conflict), Expectation::Keep)
            }
        } else if inst.preferred_range_satisfies(target) {
            plain(fixable(FixableInstance::SemverRangeMismatch), Expectation::PreferredRange)
        } else {
            plain(conflict(mismatch_conflict), Expectation::Keep)
        }
    } else if inst.actual.same_as(target) {
        plain(valid(equals), Expectation::Use(target))
    } else {
        plain(fixable(mismatches), Expectation::Use(target))
    }
}

/// An instance in a group pinned to `pinned`. A local instance is never
/// changed; a pinned version wins over the range of a semver group.
pub open spec fn pinned_outcome(inst: InstanceView, pinned: Specifier) -> Outcome {
    if inst.is_local {
        plain(suspect(SuspectInstance::RefuseToPinLocal), Expectation::Keep)
    } else if !same_version_number(inst.actual, pinned) {
        plain(fixable(FixableInstance::MismatchesPin), Expectation::Use(pinned))
    } else if inst.prefers_range_other_than(pinned.simple().unwrap().range()) {
        Outcome {
            state: fixable(
                if inst.matches_preferred_range() {
                    FixableInstance::PinMatchOverridesSemverRangeMatch
                } else {
                    FixableInstance::PinMatchOverridesSemverRangeMismatch
                },
            ),
            expected: Expectation::Use(pinned),
            overridden: true,
        }
    } else if inst.actual.same_as(pinned) {
        plain(valid(ValidInstance::EqualsPin), Expectation::Use(pinned))
    } else {
        plain(fixable(FixableInstance::MismatchesPin), Expectation::Use(pinned))
    }
}

/// An instance in a banned group should be removed, unless it is local.
pub open spec fn banned_outcome(inst: InstanceView) -> Outcome {
    if inst.is_local {
        plain(suspect(SuspectInstance::RefuseToBanLocal), Expectation::Keep)
    } else {
        plain(fixable(FixableInstance::Banned), Expectation::Remove)
    }
}

/// Node-semver finds the range of instance `i` overlapping with that of
/// every other instance. A range that node-semver cannot read without a
/// panic (`unreadable_range`) overlaps with none.
pub open spec fn overlaps_all(m: Seq<InstanceView>, i: int) -> bool {
    forall|j: int|
        0 <= j < m.len() && j != i ==> {
            &&& !unreadable_range(m[i].actual.text())
            &&& !unreadable_range(#[trigger] m[j].actual.text())
            &&& node_semver_ranges_overlap(m[i].actual.text(), m[j].actual.text()) == Some(true)
        }
}

/// An instance in a same range group: its semver group comes first, then
/// its range must overlap with every other.
pub open spec fn same_range_outcome(inst: InstanceView, overlaps: bool) -> Outcome {
    if inst.prefer_range is Some && inst.actual.simple() is Some && !inst.matches_preferred_range() {
        plain(fixable(FixableInstance::SemverRangeMismatch), Expectation::PreferredRange)
    } else if overlaps {
        plain(valid(ValidInstance::MatchesSameRangeGroup), Expectation::Keep)
    } else {
        plain(unfixable(UnfixableInstance::MismatchesSameRangeGroup), Expectation::Keep)
    }
}

/// An instance in a group snapped to the specifier `target` found in the
/// packages it is snapped to, if one was found.
pub open spec fn snapped_outcome(inst: InstanceView, target: Option<Specifier>) -> Outcome {
    match target {
        None => plain(unfixable(UnfixableInstance::SnapToVersionNotFound), Expectation::Keep),
        Some(t) => if inst.is_local && !inst.actual.same_as(t) {
            plain(suspect(SuspectInstance::RefuseToSnapLocal), Expectation::Keep)
        } else {
            prefer_outcome(inst, t, true)
        },
    }
}

/// Instance `i` of a group that prefers the highest (or lowest) version: a
/// local package's version wins when there is one, else the preferred simple
/// semver specifier, else all must be identical.
pub open spec fn standard_outcome(m: Seq<InstanceView>, i: int, highest: bool) -> Outcome {
    match last_local(m, m.len() as int) {
        Some(l) => if m[l].actual.kind() != SpecifierKind::Exact {
            if m[i].is_local {
                plain(suspect(SuspectInstance::InvalidLocalVersion), Expectation::Keep)
            } else {
                plain(unfixable(UnfixableInstance::MismatchesInvalidLocalVersion), Expectation::Keep)
            }
        } else if m[i].is_local {
            plain(valid(ValidInstance::ValidLocal), Expectation::Use(m[l].actual))
        } else {
            local_outcome(m[i], m[l].actual)
        },
        None => match preferred(m, m.len() as int, highest) {
            Some(h) => prefer_outcome(m[i], m[h].actual, false),
            None => if all_identical(m) {
                plain(valid(ValidInstance::EqualsNonSemverPreferVersion), Expectation::Keep)
            } else {
                plain(unfixable(UnfixableInstance::MismatchesNonSemverPreferVersion), Expectation::Keep)
            },
        },
    }
}

/// What visiting decides for instance `i` of the instances `m` of a
/// dependency in a group of the given variant.
#[verifier::opaque]
pub open spec fn dependency_outcome(
    variant: Variant,
    m: Seq<InstanceView>,
    i: int,
    pinned: Option<Specifier>,
    target: Option<Specifier>,
) -> Outcome {
    match variant {
        Variant::Banned => banned_outcome(m[i]),
        Variant::Ignored => plain(valid(ValidInstance::Ignored), Expectation::Keep),
        Variant::HighestSemver => standard_outcome(m, i, true),
        Variant::LowestSemver => standard_outcome(m, i, false),
        Variant::Pinned => pinned_outcome(m[i], pinned.unwrap()),
        Variant::SameRange => same_range_outcome(m[i], overlaps_all(m, i)),
        Variant::SnappedTo => snapped_outcome(m[i], target),
    }
}

/// The specifier every instance of the dependency should share, when the
/// policy names one.
pub open spec fn dependency_expected(
    variant: Variant,
    m: Seq<InstanceView>,
    pinned: Option<Specifier>,
    target: Option<Specifier>,
    current: Option<Specifier>,
) -> Option<Specifier> {
    match variant {
        Variant::HighestSemver | Variant::LowestSemver => match last_local(m, m.len() as int) {
            Some(l) => if m[l].actual.kind() == SpecifierKind::Exact {
                Some(m[l].actual)
            } else {
                current
            },
            None => match preferred(m, m.len() as int, variant == Variant::HighestSemver) {
                Some(h) => Some(m[h].actual),
                None => current,
            },
        },
        Variant::Pinned => pinned,
        Variant::SnappedTo => match target {
            Some(t) => Some(t),
            None => current,
        },
        _ => current,
    }
}

/// How severe a state makes its dependency: loose matches, suspect
/// instances and pinned versions that override a semver group are warnings;
/// other invalid instances are errors.
pub open spec fn state_severity(s: InstanceState) -> DependencyState {
    match s {
        InstanceState::Unknown => DependencyState::Valid,
        InstanceState::Valid(v) => match v {
            ValidInstance::MatchesLocal | ValidInstance::MatchesPreferVersion
            | ValidInstance::MatchesSnapToVersion => DependencyState::Warning,
            _ => DependencyState::Valid,
        },
        InstanceState::Suspect(_) => DependencyState::Warning,
        InstanceState::Invalid(InvalidInstance::Fixable(FixableInstance::PinMatchOverridesSemverRangeMatch))
        | InstanceState::Invalid(InvalidInstance::Fixable(FixableInstance::PinMatchOverridesSemverRangeMismatch)) => DependencyState::Warning,
        InstanceState::Invalid(_) => DependencyState::Invalid,
    }
}

/// The state of a dependency after raising `start` for each of `states`.
pub open spec fn worst(start: DependencyState, states: Seq<InstanceState>) -> DependencyState
    decreases states.len(),
{
    if states.len() == 0 {
        start
    } else {
        worse(worst(start, states.drop_last()), state_severity(states.last()))
    }
}

/// The decided states of every instance of the dependency, in order.
pub open spec fn outcome_states(
    variant: Variant,
    m: Seq<InstanceView>,
    pinned: Option<Specifier>,
    target: Option<Specifier>,
) -> Seq<InstanceState> {
    Seq::new(m.len(), |i: int| dependency_outcome(variant, m, i, pinned, target).state)
}

/// The outcome `o` carries out what was decided for `inst`.
pub open spec fn fits(o: InstanceOutcome, decided: Outcome, inst: InstanceView) -> bool {
    &&& o.state == decided.state
    &&& match decided.expected {
        Expectation::Keep => o.expected == inst.actual,
        Expectation::Use(s) => o.expected == s,
        Expectation::Remove => o.expected == Specifier::Missing,
        Expectation::PreferredRange => inst.is_with_preferred_range(o.expected),
    }
    &&& if decided.overridden {
        o.overridden matches Some(v) && inst.is_with_preferred_range(v)
    } else {
        o.overridden is None
    }
    &&& o.expected.wf()
}

/// `after` is `before` with what was decided for it recorded.
pub open spec fn applied(after: Instance, decided: Outcome, before: Instance) -> bool {
    &&& after.actual == before.actual
    &&& after.dependency_type == before.dependency_type
    &&& after.file_path == before.file_path
    &&& after.id == before.id
    &&& after.is_local == before.is_local
    &&& after.location_hint == before.location_hint
    &&& after.name == before.name
    &&& after.package_name == before.package_name
    &&& after.prefer_range == before.prefer_range
    &&& fits(InstanceOutcome { state: after.state, expected: after.expected, overridden: after.overridden }, decided, before@)
}

fn keep(inst: &Instance, state: InstanceState) -> (r: InstanceOutcome)
    requires
        inst.wf(),
    ensures
        r.state == state,
        r.expected == inst.actual,
        r.overridden is None,
        r.expected.wf(),
{
    InstanceOutcome { state, expected: inst.actual.duplicate(), overridden: None }
}

fn use_specifier(specifier: &Specifier, state: InstanceState) -> (r: InstanceOutcome)
    requires
        specifier.wf(),
    ensures
        r.state == state,
        r.expected == *specifier,
        r.overridden is None,
        r.expected.wf(),
{
    InstanceOutcome { state, expected: specifier.duplicate(), overridden: None }
}

fn with_preferred(inst: &Instance, state: InstanceState) -> (r: InstanceOutcome)
    requires
        inst.wf(),
        inst.prefer_range is Some,
        inst.actual.simple() is Some,
    ensures
        r.state == state,
        inst@.is_with_preferred_range(r.expected),
        r.overridden is None,
        r.expected.wf(),
{
    let expected = inst.get_specifier_with_preferred_semver_range();
    match expected {
        Some(e) => InstanceOutcome { state, expected: e, overridden: None },
        None => {
            proof {
                assert(false);
            }
            keep(inst, state)
        },
    }
}

fn decide_local(inst: &Instance, local: &Specifier) -> (r: InstanceOutcome)
    requires
        inst.wf(),
        local.wf(),
    ensures
        fits(r, local_outcome(inst@, *local), inst@),
{
    if !inst.has_same_version_number_as(local) {
        return use_specifier(local, InstanceState::fixable(FixableInstance::MismatchesLocal));
    }
    if inst.must_match_preferred_semver_range_which_is_not(&SemverRange::Exact) {
        if inst.matches_preferred_semver_range() {
            if inst.specifier_with_preferred_semver_range_will_satisfy(local) {
                with_preferred(inst, InstanceState::valid(ValidInstance::MatchesLocal))
            } else {
                keep(inst, InstanceState::conflict(SemverGroupAndVersionConflict::MatchConflictsWithLocal))
            }
        } else if inst.specifier_with_preferred_semver_range_will_satisfy(local) {
            with_preferred(inst, InstanceState::fixable(FixableInstance::SemverRangeMismatch))
        } else {
            keep(inst, InstanceState::conflict(SemverGroupAndVersionConflict::MismatchConflictsWithLocal))
        }
    } else if inst.already_equals(local) {
        use_specifier(local, InstanceState::valid(ValidInstance::EqualsLocal))
    } else {
        use_specifier(local, InstanceState::fixable(FixableInstance::MismatchesLocal))
    }
}

fn decide_prefer(inst: &Instance, target: &Specifier, snapped: bool) -> (r: InstanceOutcome)
    requires
        inst.wf(),
        target.wf(),
    ensures
        fits(r, prefer_outcome(inst@, *target, snapped), inst@),
{
    let mismatches = if snapped {
        FixableInstance::MismatchesSnapToVersion
    } else {
        FixableInstance::MismatchesPreferVersion
    };
    let matches = if snapped {
        ValidInstance::MatchesSnapToVersion
    } else {
        ValidInstance::MatchesPreferVersion
    };
    let equals = if snapped {
        ValidInstance::EqualsSnapToVersion
    } else {
        ValidInstance::EqualsPreferVersion
    };
    let match_conflict = if snapped {
        SemverGroupAndVersionConflict::MatchConflictsWithSnapTo
    } else {
        SemverGroupAndVersionConflict::MatchConflictsWithPrefer
    };
    let mismatch_conflict = if snapped {
        SemverGroupAndVersionConflict::MismatchConflictsWithSnapTo
    } else {
        SemverGroupAndVersionConflict::MismatchConflictsWithPrefer
    };
    if !inst.has_same_version_number_as(target) {
        return use_specifier(target, InstanceState::fixable(mismatches));
    }
    let target_range = match target.get_simple_semver() {
        Some(t) => t.get_range(),
        None => {
            proof {
                assert(false);
            }
            SemverRange::Exact
        },
    };
    if inst.must_match_preferred_semver_range_which_is_not(&target_range) {
        if inst.matches_preferred_semver_range() {
            if inst.specifier_with_preferred_semver_range_will_satisfy(target) {
                keep(inst, InstanceState::valid(matches))
            } else {
                keep(inst, InstanceState::conflict(match_conflict))
            }
        } else if inst.specifier_with_preferred_semver_range_will_satisfy(target) {
            with_preferred(inst, InstanceState::fixable(FixableInstance::SemverRangeMismatch))
        } else {
            keep(inst, InstanceState::conflict(mismatch_conflict))
        }
    } else if inst.already_equals(target) {
        use_specifier(target, InstanceState::valid(equals))
    } else {
        use_specifier(target, InstanceState::fixable(mismatches))
    }
}

fn decide_pinned(inst: &Instance, pinned: &Specifier) -> (r: InstanceOutcome)
    requires
        inst.wf(),
        pinned.wf(),
    ensures
        fits(r, pinned_outcome(inst@, *pinned), inst@),
{
    if inst.is_local {
        return keep(inst, InstanceState::suspect(SuspectInstance::RefuseToPinLocal));
    }
    if !inst.has_same_version_number_as(pinned) {
        return use_specifier(pinned, InstanceState::fixable(FixableInstance::MismatchesPin));
    }
    if inst.must_match_preferred_semver_range_which_differs_to(pinned) {
        let state = if inst.matches_preferred_semver_range() {
            InstanceState::fixable(FixableInstance::PinMatchOverridesSemverRangeMatch)
        } else {
            InstanceState::fixable(FixableInstance::PinMatchOverridesSemverRangeMismatch)
        };
        let overridden = with_preferred(inst, state);
        InstanceOutcome { state, expected: pinned.duplicate(), overridden: Some(overridden.expected) }
    } else if inst.already_equals(pinned) {
        use_specifier(pinned, InstanceState::valid(ValidInstance::EqualsPin))
    } else {
        use_specifier(pinned, InstanceState::fixable(FixableInstance::MismatchesPin))
    }
}

fn decide_banned(inst: &Instance) -> (r: InstanceOutcome)
    requires
        inst.wf(),
    ensures
        fits(r, banned_outcome(inst@), inst@),
{
    if inst.is_local {
        keep(inst, InstanceState::suspect(SuspectInstance::RefuseToBanLocal))
    } else {
        use_specifier(&Specifier::Missing, InstanceState::fixable(FixableInstance::Banned))
    }
}

fn decide_same_range(inst: &Instance, overlaps: bool) -> (r: InstanceOutcome)
    requires
        inst.wf(),
    ensures
        fits(r, same_range_outcome(inst@, overlaps), inst@),
{
    if inst.prefer_range.is_some() && inst.actual.is_simple_semver() && !inst.matches_preferred_semver_range() {
        with_preferred(inst, InstanceState::fixable(FixableInstance::SemverRangeMismatch))
    } else if overlaps {
        keep(inst, InstanceState::valid(ValidInstance::MatchesSameRangeGroup))
    } else {
        keep(inst, InstanceState::unfixable(UnfixableInstance::MismatchesSameRangeGroup))
    }
}

fn decide_snapped(inst: &Instance, target: &Option<Specifier>) -> (r: InstanceOutcome)
    requires
        inst.wf(),
        target matches Some(t) ==> t.wf(),
    ensures
        fits(r, snapped_outcome(inst@, *target), inst@),
{
    match target {
        None => keep(inst, InstanceState::unfixable(UnfixableInstance::SnapToVersionNotFound)),
        Some(t) => if inst.is_local && !inst.already_equals(t) {
            keep(inst, InstanceState::suspect(SuspectInstance::RefuseToSnapLocal))
        } else {
            decide_prefer(inst, t, true)
        },
    }
}

/// Does the range of instance `p` overlap with that of every other instance
/// of the dependency, as node-semver sees it? A range node-semver cannot
/// read without a panic is taken to overlap with none.
fn overlaps_every_other(all: &Vec<Instance>, dependency: &Dependency, p: usize) -> (r: bool)
    requires
        dependency.wf(all@),
        p < dependency.instances@.len(),
    ensures
        r == overlaps_all(members(all@, dependency.instances@), p as int),
{
    let ghost m = members(all@, dependency.instances@);
    let own = all[dependency.instances[p]].actual.unwrap();
    assert(m[p as int] == all@[dependency.instances@[p as int] as int]@);
    let mut q: usize = 0;
    while q < dependency.instances.len()
        invariant
            dependency.wf(all@),
            m == members(all@, dependency.instances@),
            p < m.len(),
            own@ == m[p as int].actual.text(),
            q <= m.len(),
            forall|j: int|
                0 <= j < q && j != p ==> {
                    &&& !unreadable_range(m[p as int].actual.text())
                    &&& !unreadable_range(#[trigger] m[j].actual.text())
                    &&& node_semver_ranges_overlap(m[p as int].actual.text(), m[j].actual.text()) == Some(true)
                },
        decreases m.len() - q,
    {
        if q != p {
            let other = all[dependency.instances[q]].actual.unwrap();
            assert(m[q as int] == all@[dependency.instances@[q as int] as int]@);
            if !range_is_readable(own.as_str()) || !range_is_readable(other.as_str()) {
                return false;
            }
            if ranges_overlap(own.as_str(), other.as_str()) != Some(true) {
                assert(node_semver_ranges_overlap(m[p as int].actual.text(), m[q as int].actual.text()) != Some(true));
                return false;
            }
        }
        q = q + 1;
    }
    true
}

/// Decide every instance of the dependency, in order.
pub fn decide_dependency(all: &Vec<Instance>, dependency: &Dependency, target: &Option<Specifier>) -> (r: Vec<InstanceOutcome>)
    requires
        dependency.wf(all@),
        target matches Some(t) ==> t.wf(),
    ensures
        r@.len() == dependency.instances@.len(),
        forall|p: int|
            0 <= p < r@.len() ==> fits(
                #[trigger] r@[p],
                dependency_outcome(
                    dependency.variant,
                    members(all@, dependency.instances@),
                    p,
                    dependency.pinned_specifier,
                    *target,
                ),
                members(all@, dependency.instances@)[p],
            ),
{
    let ghost m = members(all@, dependency.instances@);
    proof {
        reveal(dependency_outcome);
    }
    let n = dependency.instances.len();
    let local = match dependency.variant {
        Variant::HighestSemver | Variant::LowestSemver => dependency.get_local_position(all),
        _ => None,
    };
    let prefer = match (dependency.variant, local) {
        (Variant::HighestSemver, None) => dependency.get_preferred_position(all, true),
        (Variant::LowestSemver, None) => dependency.get_preferred_position(all, false),
        _ => None,
    };
    let identical = match (dependency.variant, local, prefer) {
        (Variant::HighestSemver, None, None) | (Variant::LowestSemver, None, None) => dependency.every_specifier_is_already_identical(all),
        _ => false,
    };
    proof {
        crate::dependency::lemma_last_local_bounds(m, n as int);
        crate::dependency::lemma_preferred_bounds(m, n as int, true);
        crate::dependency::lemma_preferred_bounds(m, n as int, false);
    }
    let mut out: Vec<InstanceOutcome> = Vec::new();
    let mut p: usize = 0;
    while p < n
        invariant
            dependency.wf(all@),
            m == members(all@, dependency.instances@),
            n == m.len(),
            p <= n,
            target matches Some(t) ==> t.wf(),
            out@.len() == p,
            (dependency.variant == Variant::HighestSemver || dependency.variant == Variant::LowestSemver) ==> (
                match local {
                    Some(l) => last_local(m, n as int) == Some(l as int),
                    None => last_local(m, n as int) is None,
                }),
            (dependency.variant == Variant::HighestSemver || dependency.variant == Variant::LowestSemver) && local is None ==> (
                match prefer {
                    Some(h) => preferred(m, n as int, dependency.variant == Variant::HighestSemver) == Some(h as int),
                    None => preferred(m, n as int, dependency.variant == Variant::HighestSemver) is None,
                }),
            (dependency.variant == Variant::HighestSemver || dependency.variant == Variant::LowestSemver) && local is None
                && prefer is None ==> identical == all_identical(m),
            local matches Some(l) ==> l < n,
            prefer matches Some(h) ==> h < n,
            forall|q: int|
                0 <= q < p ==> fits(
                    #[trigger] out@[q],
                    dependency_outcome(dependency.variant, m, q, dependency.pinned_specifier, *target),
                    m[q],
                ),
        decreases n - p,
    {
        proof {
            reveal(dependency_outcome);
        }
        let index = dependency.instances[p];
        let inst = &all[index];
        assert(m[p as int] == all@[index as int]@);
        let decided = match dependency.variant {
            Variant::Banned => decide_banned(inst),
            Variant::Ignored => keep(inst, InstanceState::valid(ValidInstance::Ignored)),
            Variant::HighestSemver | Variant::LowestSemver => {
                match local {
                    Some(l) => {
                        let local_instance = &all[dependency.instances[l]];
                        assert(m[l as int] == all@[dependency.instances@[l as int] as int]@);
                        if !matches!(local_instance.actual, Specifier::Semver(crate::specifier::semver::Semver::Simple(
                            crate::specifier::simple_semver::SimpleSemver::Exact(_),
                        ))) {
                            if inst.is_local {
                                keep(inst, InstanceState::suspect(SuspectInstance::InvalidLocalVersion))
                            } else {
                                keep(inst, InstanceState::unfixable(UnfixableInstance::MismatchesInvalidLocalVersion))
                            }
                        } else if inst.is_local {
                            use_specifier(&local_instance.actual, InstanceState::valid(ValidInstance::ValidLocal))
                        } else {
                            decide_local(inst, &local_instance.actual)
                        }
                    },
                    None => match prefer {
                        Some(h) => {
                            let preferred_instance = &all[dependency.instances[h]];
                            assert(m[h as int] == all@[dependency.instances@[h as int] as int]@);
                            decide_prefer(inst, &preferred_instance.actual, false)
                        },
                        None => if identical {
                            keep(inst, InstanceState::valid(ValidInstance::EqualsNonSemverPreferVersion))
                        } else {
                            keep(inst, InstanceState::unfixable(UnfixableInstance::MismatchesNonSemverPreferVersion))
                        },
                    },
                }
            },
            Variant::Pinned => {
                match &dependency.pinned_specifier {
                    Some(pinned) => decide_pinned(inst, pinned),
                    None => {
                        proof {
                            assert(false);
                        }
                        keep(inst, InstanceState::Unknown)
                    },
                }
            },
            Variant::SameRange => {
                let overlaps = overlaps_every_other(all, dependency, p);
                decide_same_range(inst, overlaps)
            },
            Variant::SnappedTo => decide_snapped(inst, target),
        };
        out.push(decided);
        p = p + 1;
    }
    out
}

/// `inst` with the outcome `o` recorded on it.
pub open spec fn recorded(inst: Instance, o: InstanceOutcome) -> Instance {
    Instance { state: o.state, expected: o.expected, overridden: o.overridden, ..inst }
}

fn record(all: &mut Vec<Instance>, k: usize, o: &InstanceOutcome)
    requires
        k < old(all)@.len(),
    ensures
        final(all)@ == old(all)@.update(k as int, recorded(old(all)@[k as int], *o)),
{
    let mut inst = all.remove(k);
    inst.state = o.state;
    inst.expected = o.expected.duplicate();
    inst.overridden = match &o.overridden {
        Some(s) => Some(s.duplicate()),
        None => None,
    };
    all.insert(k, inst);
    assert(all@ =~= old(all)@.update(k as int, recorded(old(all)@[k as int], *o)));
}

fn severity_of(state: &InstanceState) -> (r: DependencyState)
    ensures
        r == state_severity(*state),
{
    match state {
        InstanceState::Unknown => DependencyState::Valid,
        InstanceState::Valid(v) => match v {
            ValidInstance::MatchesLocal | ValidInstance::MatchesPreferVersion
            | ValidInstance::MatchesSnapToVersion => DependencyState::Warning,
            _ => DependencyState::Valid,
        },
        InstanceState::Suspect(_) => DependencyState::Warning,
        InstanceState::Invalid(InvalidInstance::Fixable(FixableInstance::PinMatchOverridesSemverRangeMatch))
        | InstanceState::Invalid(InvalidInstance::Fixable(FixableInstance::PinMatchOverridesSemverRangeMismatch)) => DependencyState::Warning,
        InstanceState::Invalid(_) => DependencyState::Invalid,
    }
}

/// The specifier every instance of the dependency should share, computed.
fn expected_of_dependency(all: &Vec<Instance>, dependency: &Dependency, target: &Option<Specifier>) -> (r: Option<Specifier>)
    requires
        dependency.wf(all@),
    ensures
        r == dependency_expected(
            dependency.variant,
            members(all@, dependency.instances@),
            dependency.pinned_specifier,
            *target,
            dependency.expected,
        ),
{
    let ghost m = members(all@, dependency.instances@);
    proof {
        crate::dependency::lemma_last_local_bounds(m, m.len() as int);
    }
    let current = match &dependency.expected {
        Some(e) => Some(e.duplicate()),
        None => None,
    };
    let standard = match dependency.variant {
        Variant::HighestSemver | Variant::LowestSemver => true,
        _ => false,
    };
    if standard {
        match dependency.get_local_position(all) {
            Some(l) => {
                let local = &all[dependency.instances[l]].actual;
                assert(m[l as int] == all@[dependency.instances@[l as int] as int]@);
                if local.get_config_identifier_is_exact() {
                    return Some(local.duplicate());
                } else {
                    return current;
                }
            },
            None => {
                assert((dependency.variant != Variant::LowestSemver) == (dependency.variant
                    == Variant::HighestSemver));
                return match dependency.get_highest_or_lowest_specifier(all) {
                    Some(h) => Some(h),
                    None => current,
                };
            },
        }
    }
    match dependency.variant {
        Variant::Pinned => match &dependency.pinned_specifier {
            Some(p) => Some(p.duplicate()),
            None => None,
        },
        Variant::SnappedTo => match target {
            Some(t) => Some(t.duplicate()),
            None => current,
        },
        _ => current,
    }
}

/// Judge every instance of the dependency and record the outcome on each of
/// them; the dependency becomes as severe as its most severe instance calls
/// for, and records the specifier all of them should share, when there is
/// one.
#[verifier::rlimit(40)]
pub fn visit_dependency(all: &mut Vec<Instance>, dependency: &mut Dependency, target: Option<Specifier>)
    requires
        old(dependency).wf(old(all)@),
        target matches Some(t) ==> t.wf(),
    ensures
        final(all)@.len() == old(all)@.len(),
        forall|k: int|
            0 <= k < old(all)@.len() && !old(dependency).instances@.contains(k as usize) ==> final(all)@[k]
                == old(all)@[k],
        forall|p: int|
            0 <= p < old(dependency).instances@.len() ==> applied(
                #[trigger] final(all)@[old(dependency).instances@[p] as int],
                dependency_outcome(
                    old(dependency).variant,
                    members(old(all)@, old(dependency).instances@),
                    p,
                    old(dependency).pinned_specifier,
                    target,
                ),
                old(all)@[old(dependency).instances@[p] as int],
            ),
        final(dependency).state == worst(
            old(dependency).state,
            outcome_states(
                old(dependency).variant,
                members(old(all)@, old(dependency).instances@),
                old(dependency).pinned_specifier,
                target,
            ),
        ),
        final(dependency).expected == dependency_expected(
            old(dependency).variant,
            members(old(all)@, old(dependency).instances@),
            old(dependency).pinned_specifier,
            target,
            old(dependency).expected,
        ),
        final(dependency).name == old(dependency).name,
        final(dependency).variant == old(dependency).variant,
        final(dependency).instances == old(dependency).instances,
        final(dependency).pinned_specifier == old(dependency).pinned_specifier,
        final(dependency).snapped_to_packages == old(dependency).snapped_to_packages,
        final(dependency).wf(final(all)@),
{
    let ghost old_all = all@;
    let ghost old_state = dependency.state;
    let ghost m = members(old_all, dependency.instances@);
    let ghost states = outcome_states(dependency.variant, m, dependency.pinned_specifier, target);
    let outcomes = decide_dependency(all, dependency, &target);
    let expected = expected_of_dependency(all, dependency, &target);
    dependency.expected = expected;
    let ghost dep0 = *dependency;
    let n = dependency.instances.len();
    let mut p: usize = 0;
    assert(states.take(0) =~= Seq::<InstanceState>::empty());
    while p < n
        invariant
            n == dependency.instances@.len(),
            n == m.len(),
            p <= n,
            m == members(old_all, dependency.instances@),
            outcomes@.len() == n,
            all@.len() == old_all.len(),
            states == outcome_states(dependency.variant, m, dependency.pinned_specifier, target),
            forall|j: int| 0 <= j < n ==> (#[trigger] dependency.instances@[j]) < old_all.len(),
            forall|j: int, k: int|
                0 <= j < n && 0 <= k < n && j != k ==> dependency.instances@[j] != dependency.instances@[k],
            forall|q: int|
                0 <= q < n ==> fits(
                    #[trigger] outcomes@[q],
                    dependency_outcome(dependency.variant, m, q, dependency.pinned_specifier, target),
                    m[q],
                ),
            forall|q: int|
                0 <= q < p ==> all@[#[trigger] dependency.instances@[q] as int] == recorded(
                    old_all[dependency.instances@[q] as int],
                    outcomes@[q],
                ),
            forall|q: int|
                p <= q < n ==> all@[#[trigger] dependency.instances@[q] as int] == old_all[dependency.instances@[q] as int],
            forall|k: int|
                0 <= k < old_all.len() && !dependency.instances@.contains(k as usize) ==> all@[k] == old_all[k],
            dependency.state == worst(old_state, states.take(p as int)),
            dependency.name == dep0.name,
            dependency.variant == dep0.variant,
            dependency.instances == dep0.instances,
            dependency.expected == dep0.expected,
            dependency.pinned_specifier == dep0.pinned_specifier,
            dependency.snapped_to_packages == dep0.snapped_to_packages,
        decreases n - p,
    {
        let k = dependency.instances[p];
        record(all, k, &outcomes[p]);
        dependency.set_state(severity_of(&outcomes[p].state));
        proof {
            assert(states.take(p + 1).drop_last() =~= states.take(p as int));
            assert(states[p as int] == outcomes@[p as int].state);
            assert forall|k2: int|
                0 <= k2 < old_all.len() && !dependency.instances@.contains(k2 as usize) implies all@[k2]
                == old_all[k2] by {
                if k2 == k as int {
                    assert(dependency.instances@.contains(k));
                }
            }
        }
        p = p + 1;
    }
    proof {
        assert(states.take(n as int) =~= states);
        assert forall|p2: int| 0 <= p2 < n implies applied(
            #[trigger] all@[dependency.instances@[p2] as int],
            dependency_outcome(dependency.variant, m, p2, dependency.pinned_specifier, target),
            old_all[dependency.instances@[p2] as int],
        ) by {
            assert(m[p2] == old_all[dependency.instances@[p2] as int]@);
        }
        assert forall|j: int| 0 <= j < n implies all@[#[trigger] dependency.instances@[j] as int].wf() by {
            assert(m[j] == old_all[dependency.instances@[j] as int]@);
            assert(old_all[dependency.instances@[j] as int].wf());
        }
    }
}

/// Instances keep what visiting reads of them, who they are, and their
/// well-formedness.
pub open spec fn same_identity(a: Seq<Instance>, b: Seq<Instance>) -> bool {
    &&& a.len() == b.len()
    &&& forall|k: int|
        0 <= k < a.len() ==> {
            &&& (#[trigger] b[k])@ == a[k]@
            &&& b[k].name == a[k].name
            &&& b[k].package_name == a[k].package_name
            &&& b[k].id == a[k].id
            &&& b[k].dependency_type == a[k].dependency_type
            &&& b[k].file_path == a[k].file_path
            &&& b[k].location_hint == a[k].location_hint
            &&& (a[k].wf() ==> b[k].wf())
        }
}

/// The specifier a dependency of a snapped-to group was judged against:
/// one (well formed) exactly when an instance of it is found in the packages
/// it is snapped to; none for other groups.
#[verifier::opaque]
pub open spec fn snap_target_ok(dep: Dependency, all: Seq<Instance>, target: Option<Specifier>) -> bool {
    &&& (target matches Some(t) ==> t.wf())
    &&& if dep.variant == Variant::SnappedTo {
        match dep.snapped_to_packages {
            Some(pk) => (first_in_packages(all, dep.name@, strings_view(pk@), all.len() as int) is None) == (target is None),
            None => target is None,
        }
    } else {
        target is None
    }
}

/// The dependency `after` and the instances `after_all` are `before` and
/// `before_all` once the dependency was visited against `target`.
#[verifier::opaque]
pub open spec fn visited_dependency(
    before: Dependency,
    after: Dependency,
    before_all: Seq<Instance>,
    after_all: Seq<Instance>,
    target: Option<Specifier>,
) -> bool {
    let idx = before.instances@;
    let m = members(before_all, idx);
    &&& forall|p: int|
        0 <= p < idx.len() ==> applied(
            #[trigger] after_all[idx[p] as int],
            dependency_outcome(before.variant, m, p, before.pinned_specifier, target),
            before_all[idx[p] as int],
        )
    &&& after.state == worst(before.state, outcome_states(before.variant, m, before.pinned_specifier, target))
    &&& after.expected == dependency_expected(before.variant, m, before.pinned_specifier, target, before.expected)
    &&& after.name == before.name
    &&& after.variant == before.variant
    &&& after.instances == before.instances
    &&& after.pinned_specifier == before.pinned_specifier
    &&& after.snapped_to_packages == before.snapped_to_packages
}

proof fn lemma_first_in_packages_identity(a: Seq<Instance>, b: Seq<Instance>, name: Seq<char>, pk: Seq<Seq<char>>, n: int)
    requires
        same_identity(a, b),
        n <= a.len(),
    ensures
        first_in_packages(a, name, pk, n) == first_in_packages(b, name, pk, n),
    decreases n,
{
    if n > 0 {
        lemma_first_in_packages_identity(a, b, name, pk, n - 1);
        assert(b[n - 1].name == a[n - 1].name);
    }
}

proof fn lemma_members_identity(a: Seq<Instance>, b: Seq<Instance>, idx: Seq<usize>)
    requires
        same_identity(a, b),
        forall|j: int| 0 <= j < idx.len() ==> (#[trigger] idx[j]) < a.len(),
    ensures
        members(a, idx) == members(b, idx),
{
    assert forall|j: int| 0 <= j < idx.len() implies members(a, idx)[j] == members(b, idx)[j] by {
        assert(b[idx[j] as int]@ == a[idx[j] as int]@);
    }
    assert(members(a, idx) =~= members(b, idx));
}

proof fn lemma_same_identity_trans(a: Seq<Instance>, b: Seq<Instance>, c: Seq<Instance>)
    requires
        same_identity(a, b),
        same_identity(b, c),
    ensures
        same_identity(a, c),
{
    assert forall|k: int| 0 <= k < a.len() implies {
        &&& (#[trigger] c[k])@ == a[k]@
        &&& c[k].name == a[k].name
        &&& c[k].package_name == a[k].package_name
        &&& c[k].id == a[k].id
        &&& c[k].dependency_type == a[k].dependency_type
        &&& c[k].file_path == a[k].file_path
        &&& c[k].location_hint == a[k].location_hint
        &&& (a[k].wf() ==> c[k].wf())
    } by {
        assert(b[k]@ == a[k]@);
    }
}

fn copy_target(target: &Option<Specifier>) -> (r: Option<Specifier>)
    ensures
        r == *target,
{
    match target {
        Some(t) => Some(t.duplicate()),
        None => None,
    }
}

/// Visiting a dependency changes only what it records on its own
/// instances.
proof fn lemma_visit_identity(dep: Dependency, before_all: Seq<Instance>, after_all: Seq<Instance>)
    requires
        before_all.len() <= usize::MAX,
        forall|k: int| 0 <= k < before_all.len() ==> (#[trigger] before_all[k]).wf(),
        after_all.len() == before_all.len(),
        forall|k: int|
            0 <= k < before_all.len() && !dep.instances@.contains(k as usize) ==> after_all[k] == before_all[k],
        forall|p: int|
            0 <= p < dep.instances@.len() ==> {
                let after = #[trigger] after_all[dep.instances@[p] as int];
                let before = before_all[dep.instances@[p] as int];
                &&& after.actual == before.actual
                &&& after.dependency_type == before.dependency_type
                &&& after.file_path == before.file_path
                &&& after.id == before.id
                &&& after.is_local == before.is_local
                &&& after.location_hint == before.location_hint
                &&& after.name == before.name
                &&& after.package_name == before.package_name
                &&& after.prefer_range == before.prefer_range
                &&& after.expected.wf()
            },
    ensures
        same_identity(before_all, after_all),
        forall|k: int| 0 <= k < after_all.len() ==> (#[trigger] after_all[k]).wf(),
{
    assert forall|k: int| 0 <= k < before_all.len() implies {
        &&& (#[trigger] after_all[k])@ == before_all[k]@
        &&& after_all[k].name == before_all[k].name
        &&& after_all[k].package_name == before_all[k].package_name
        &&& after_all[k].id == before_all[k].id
        &&& after_all[k].dependency_type == before_all[k].dependency_type
        &&& after_all[k].file_path == before_all[k].file_path
        &&& after_all[k].location_hint == before_all[k].location_hint
        &&& (before_all[k].wf() ==> after_all[k].wf())
    } by {
        if dep.instances@.contains(k as usize) {
            let p = choose|p: int| 0 <= p < dep.instances@.len() && dep.instances@[p] == k as usize;
            assert(dep.instances@[p] as int == k);
            assert(after_all[dep.instances@[p] as int] == after_all[k]);
        }
    }
    assert forall|k: int| 0 <= k < after_all.len() implies (#[trigger] after_all[k]).wf() by {
        assert(before_all[k].wf());
    }
}

/// Visit one dependency, against the specifier found in the packages it is
/// snapped to when its group is snapped to some; the specifier used is
/// returned.
fn visit_one(all: &mut Vec<Instance>, dependency: &mut Dependency) -> (target: Option<Specifier>)
    requires
        old(dependency).wf(old(all)@),
        forall|k: int| 0 <= k < old(all)@.len() ==> (#[trigger] old(all)@[k]).wf(),
    ensures
        snap_target_ok(*old(dependency), old(all)@, target),
        old(dependency).variant == Variant::SnappedTo ==> snap_target_is(*old(dependency), old(all)@, target),
        visited_dependency(*old(dependency), *final(dependency), old(all)@, final(all)@, target),
        same_identity(old(all)@, final(all)@),
        forall|k: int|
            0 <= k < old(all)@.len() && !old(dependency).instances@.contains(k as usize) ==> final(all)@[k]
                == old(all)@[k],
        final(dependency).wf(final(all)@),
        forall|k: int| 0 <= k < final(all)@.len() ==> (#[trigger] final(all)@[k]).wf(),
{
    let target = if matches!(dependency.variant, Variant::SnappedTo) {
        dependency.get_snapped_to_specifier(all)
    } else {
        None
    };
    proof {
        if dependency.snapped_to_packages is Some {
            let pk = dependency.snapped_to_packages.unwrap();
            crate::dependency::lemma_first_in_packages_bounds(
                all@,
                dependency.name@,
                strings_view(pk@),
                all@.len() as int,
            );
        }
    }
    let ghost before_all = all@;
    let ghost before_dep = *dependency;
    let _n = all.len();
    visit_dependency(all, dependency, copy_target(&target));
    proof {
        lemma_visit_identity(before_dep, before_all, all@);
        reveal(visited_dependency);
        reveal(snap_target_ok);
    }
    target
}

/// The dependencies of a group hold no instance twice.
pub open spec fn members_disjoint(deps: Seq<Dependency>) -> bool {
    forall|d1: int, d2: int, j1: int, j2: int|
        0 <= d1 < deps.len() && 0 <= d2 < deps.len() && d1 != d2 && 0 <= j1 < deps[d1].instances@.len() && 0 <= j2
            < deps[d2].instances@.len() ==> (#[trigger] deps[d1].instances@[j1]) != (#[trigger] deps[d2].instances@[j2])
}

/// Does some dependency of `deps` hold instance `k`?
pub open spec fn held(deps: Seq<Dependency>, k: int) -> bool {
    exists|d: int, j: int| 0 <= d < deps.len() && 0 <= j < deps[d].instances@.len() && deps[d].instances@[j] == k
}


/// A well-formed dependency stays well formed when its instances keep their
/// identity and well-formedness.
proof fn lemma_dependency_wf_identity(dep: Dependency, a: Seq<Instance>, b: Seq<Instance>)
    requires
        dep.wf(a),
        same_identity(a, b),
        forall|k: int| 0 <= k < b.len() ==> (#[trigger] b[k]).wf(),
    ensures
        dep.wf(b),
{
}

/// One step of visiting the dependencies of a group: dependency `d` was just
/// visited against instances its own had not changed in, and the instances
/// of no other dependency changed.
#[verifier::rlimit(60)]
proof fn lemma_visit_step(
    old_deps: Seq<Dependency>,
    after_dep: Dependency,
    old_all: Seq<Instance>,
    before_all: Seq<Instance>,
    after_all: Seq<Instance>,
    target: Option<Specifier>,
    d: int,
)
    requires
        0 <= d < old_deps.len(),
        old_all.len() <= usize::MAX,
        members_disjoint(old_deps),
        forall|e: int| 0 <= e < old_deps.len() ==> (#[trigger] old_deps[e]).wf(old_all),
        same_identity(old_all, before_all),
        forall|k: int| 0 <= k < old_all.len() && !held(old_deps.subrange(0, d), k) ==> before_all[k] == old_all[k],
        snap_target_ok(old_deps[d], before_all, target),
        visited_dependency(old_deps[d], after_dep, before_all, after_all, target),
        forall|k: int|
            0 <= k < before_all.len() && !old_deps[d].instances@.contains(k as usize) ==> after_all[k] == before_all[k],
    ensures
        snap_target_ok(old_deps[d], old_all, target),
        visited_dependency(old_deps[d], after_dep, old_all, after_all, target),
        forall|k: int| 0 <= k < old_all.len() && !held(old_deps.subrange(0, d + 1), k) ==> after_all[k] == old_all[k],
{
    let dep = old_deps[d];
    let idx = dep.instances@;
    // the instances of dependency `d` were untouched before it was visited
    assert forall|p: int| 0 <= p < idx.len() implies before_all[#[trigger] idx[p] as int] == old_all[idx[p] as int] by {
        if held(old_deps.subrange(0, d), idx[p] as int) {
            let (e, j) = choose|e: int, j: int|
                0 <= e < old_deps.subrange(0, d).len() && 0 <= j < old_deps.subrange(0, d)[e].instances@.len()
                    && old_deps.subrange(0, d)[e].instances@[j] == idx[p] as int;
            assert(old_deps.subrange(0, d)[e] == old_deps[e]);
            assert(old_deps[e].instances@[j] == old_deps[d].instances@[p]);
        }
    }
    lemma_members_identity(old_all, before_all, idx);
    lemma_visited_from_untouched(dep, after_dep, old_all, before_all, after_all, target);
    if dep.snapped_to_packages is Some {
        let pk = dep.snapped_to_packages.unwrap();
        lemma_first_in_packages_identity(old_all, before_all, dep.name@, strings_view(pk@), old_all.len() as int);
    }
    assert(snap_target_ok(old_deps[d], old_all, target)) by {
        reveal(snap_target_ok);
    }
    assert forall|k: int| 0 <= k < old_all.len() && !held(old_deps.subrange(0, d + 1), k) implies after_all[k]
        == old_all[k] by {
        if held(old_deps.subrange(0, d), k) {
            let (e, j) = choose|e: int, j: int|
                0 <= e < old_deps.subrange(0, d).len() && 0 <= j < old_deps.subrange(0, d)[e].instances@.len()
                    && old_deps.subrange(0, d)[e].instances@[j] == k;
            assert(old_deps.subrange(0, d + 1)[e] == old_deps.subrange(0, d)[e]);
        }
        if old_deps[d].instances@.contains(k as usize) {
            let q = choose|q: int| 0 <= q < idx.len() && idx[q] == k as usize;
            assert(old_deps.subrange(0, d + 1)[d] == old_deps[d]);
            assert(old_deps.subrange(0, d + 1)[d].instances@[q] == k);
        }
    }
}

/// Visiting dependency `d` leaves what an earlier dependency `e` of the same
/// group recorded.
proof fn lemma_keep_earlier(
    old_deps: Seq<Dependency>,
    dep_e: Dependency,
    old_all: Seq<Instance>,
    before_all: Seq<Instance>,
    after_all: Seq<Instance>,
    target_e: Option<Specifier>,
    e: int,
    d: int,
)
    requires
        0 <= e < d < old_deps.len(),
        members_disjoint(old_deps),
        visited_dependency(old_deps[e], dep_e, old_all, before_all, target_e),
        dep_e.wf(before_all),
        same_identity(before_all, after_all),
        forall|k: int| 0 <= k < after_all.len() ==> (#[trigger] after_all[k]).wf(),
        forall|k: int|
            0 <= k < before_all.len() && !old_deps[d].instances@.contains(k as usize) ==> after_all[k] == before_all[k],
        forall|j: int| 0 <= j < old_deps[e].instances@.len() ==> (#[trigger] old_deps[e].instances@[j]) < before_all.len(),
    ensures
        visited_dependency(old_deps[e], dep_e, old_all, after_all, target_e),
        dep_e.wf(after_all),
{
    let de = old_deps[e];
    let idx = old_deps[d].instances@;
    assert forall|p: int| 0 <= p < de.instances@.len() implies after_all[#[trigger] de.instances@[p] as int]
        == before_all[de.instances@[p] as int] by {
        if old_deps[d].instances@.contains(de.instances@[p]) {
            let q = choose|q: int| 0 <= q < idx.len() && idx[q] == de.instances@[p];
            assert(old_deps[e].instances@[p] != old_deps[d].instances@[q]);
        }
    }
    lemma_visited_kept(de, dep_e, old_all, before_all, after_all, target_e);
    lemma_dependency_wf_identity(dep_e, before_all, after_all);
}

/// A dependency visited against instances that its own instances had not
/// changed in counts as visited against the given instances.
proof fn lemma_visited_from_untouched(
    dep: Dependency,
    after: Dependency,
    old_all: Seq<Instance>,
    before_all: Seq<Instance>,
    after_all: Seq<Instance>,
    target: Option<Specifier>,
)
    requires
        visited_dependency(dep, after, before_all, after_all, target),
        members(old_all, dep.instances@) == members(before_all, dep.instances@),
        forall|p: int| 0 <= p < dep.instances@.len() ==> before_all[#[trigger] dep.instances@[p] as int]
            == old_all[dep.instances@[p] as int],
    ensures
        visited_dependency(dep, after, old_all, after_all, target),
{
    reveal(visited_dependency);
    let idx = dep.instances@;
    assert forall|p: int| 0 <= p < idx.len() implies applied(
        #[trigger] after_all[idx[p] as int],
        dependency_outcome(dep.variant, members(old_all, idx), p, dep.pinned_specifier, target),
        old_all[idx[p] as int],
    ) by {
        assert(before_all[idx[p] as int] == old_all[idx[p] as int]);
    }
}

/// A visited dependency stays visited when its own instances are left
/// alone afterwards.
proof fn lemma_visited_kept(
    dep: Dependency,
    after: Dependency,
    old_all: Seq<Instance>,
    before_all: Seq<Instance>,
    after_all: Seq<Instance>,
    target: Option<Specifier>,
)
    requires
        visited_dependency(dep, after, old_all, before_all, target),
        forall|p: int| 0 <= p < dep.instances@.len() ==> after_all[#[trigger] dep.instances@[p] as int]
            == before_all[dep.instances@[p] as int],
    ensures
        visited_dependency(dep, after, old_all, after_all, target),
{
    reveal(visited_dependency);
    let idx = dep.instances@;
    assert forall|p: int| 0 <= p < idx.len() implies applied(
        #[trigger] after_all[idx[p] as int],
        dependency_outcome(dep.variant, members(old_all, idx), p, dep.pinned_specifier, target),
        old_all[idx[p] as int],
    ) by {
        assert(after_all[idx[p] as int] == before_all[idx[p] as int]);
    }
}

/// The specifier a dependency of a snapped-to group is judged against: the
/// expected specifier, in the instances `all` as it sees them, of the first
/// instance of its name found in the packages it is snapped to; none when
/// there is no such instance.
pub open spec fn snap_target_is(dep: Dependency, all: Seq<Instance>, target: Option<Specifier>) -> bool {
    match dep.snapped_to_packages {
        Some(pk) => match first_in_packages(all, dep.name@, strings_view(pk@), all.len() as int) {
            Some(k) => target == Some(all[k].expected),
            None => target is None,
        },
        None => target is None,
    }
}

/// The instances as dependency `d` of `deps` sees them when the group is
/// visited in order: those held by it and the dependencies after it as they
/// were `before`, all others as they are `after`.
pub open spec fn seen_in_group(before: Seq<Instance>, after: Seq<Instance>, deps: Seq<Dependency>, d: int) -> Seq<Instance> {
    Seq::new(
        before.len(),
        |k: int| if held(deps.subrange(d, deps.len() as int), k) { before[k] } else { after[k] },
    )
}

/// Does a group of the pass from `lo` up to (not including) `hi` hold
/// instance `k`?
pub open spec fn held_in_pass_between(groups: Seq<VersionGroup>, snapped: bool, k: int, lo: int, hi: int) -> bool {
    exists|g: int|
        lo <= g < hi && (groups[g].variant == Variant::SnappedTo) == snapped && #[trigger] held(groups[g].dependencies@, k)
}

/// The instances as dependency `d` of group `g` sees them when it is visited
/// in a pass over `groups`: those held by it, by the dependencies after it
/// in its group and by the groups of the pass after its own as they were
/// `before`, all others as they are `after`.
pub open spec fn seen_in_pass(
    before: Seq<Instance>,
    after: Seq<Instance>,
    groups: Seq<VersionGroup>,
    snapped: bool,
    g: int,
    d: int,
) -> Seq<Instance> {
    Seq::new(
        before.len(),
        |k: int|
            if held(groups[g].dependencies@.subrange(d, groups[g].dependencies@.len() as int), k)
                || held_in_pass_between(groups, snapped, k, g + 1, groups.len() as int) {
                before[k]
            } else {
                after[k]
            },
    )
}

/// An instance held by `deps[a..c]` is held by `deps[a..b]` or `deps[b..c]`.
proof fn lemma_held_split(deps: Seq<Dependency>, a: int, b: int, c: int, k: int)
    requires
        0 <= a <= b <= c <= deps.len(),
    ensures
        held(deps.subrange(a, c), k) == (held(deps.subrange(a, b), k) || held(deps.subrange(b, c), k)),
{
    if held(deps.subrange(a, c), k) {
        let (e, j) = choose|e: int, j: int|
            0 <= e < deps.subrange(a, c).len() && 0 <= j < deps.subrange(a, c)[e].instances@.len()
                && deps.subrange(a, c)[e].instances@[j] == k;
        if a + e < b {
            assert(deps.subrange(a, b)[e] == deps[a + e]);
            assert(held(deps.subrange(a, b), k));
        } else {
            assert(deps.subrange(b, c)[a + e - b] == deps[a + e]);
            assert(held(deps.subrange(b, c), k));
        }
    }
    if held(deps.subrange(a, b), k) {
        let (e, j) = choose|e: int, j: int|
            0 <= e < deps.subrange(a, b).len() && 0 <= j < deps.subrange(a, b)[e].instances@.len()
                && deps.subrange(a, b)[e].instances@[j] == k;
        assert(deps.subrange(a, c)[e] == deps[a + e]);
        assert(held(deps.subrange(a, c), k));
    }
    if held(deps.subrange(b, c), k) {
        let (e, j) = choose|e: int, j: int|
            0 <= e < deps.subrange(b, c).len() && 0 <= j < deps.subrange(b, c)[e].instances@.len()
                && deps.subrange(b, c)[e].instances@[j] == k;
        assert(deps.subrange(a, c)[b - a + e] == deps[b + e]);
        assert(held(deps.subrange(a, c), k));
    }
}

/// Held by the one dependency `deps[d..d + 1]` is held by `deps[d]`.
proof fn lemma_held_one(deps: Seq<Dependency>, d: int, k: int)
    requires
        0 <= d < deps.len(),
        0 <= k <= usize::MAX,
    ensures
        held(deps.subrange(d, d + 1), k) == deps[d].instances@.contains(k as usize),
        held(deps.subrange(0, deps.len() as int), k) == held(deps, k),
{
    assert(deps.subrange(0, deps.len() as int) =~= deps);
    let one = deps.subrange(d, d + 1);
    if held(one, k) {
        let (e, j) = choose|e: int, j: int|
            0 <= e < one.len() && 0 <= j < one[e].instances@.len() && one[e].instances@[j] == k;
        assert(one[e] == deps[d]);
        assert(deps[d].instances@[j] == k as usize);
    }
    if deps[d].instances@.contains(k as usize) {
        let j = choose|j: int| 0 <= j < deps[d].instances@.len() && deps[d].instances@[j] == k as usize;
        assert(one[0] == deps[d]);
        assert(one[0].instances@[j] == k);
    }
}

/// Dependencies that hold no instance twice do not both hold `k` from
/// before and from after `e`.
proof fn lemma_held_disjoint(deps: Seq<Dependency>, e: int, k: int)
    requires
        0 <= e <= deps.len(),
        members_disjoint(deps),
    ensures
        !(held(deps.subrange(0, e), k) && held(deps.subrange(e, deps.len() as int), k)),
{
    if !(held(deps.subrange(0, e), k) && held(deps.subrange(e, deps.len() as int), k)) {
        return;
    }
    let (e1, j1) = choose|x: int, j: int|
        0 <= x < deps.subrange(0, e).len() && 0 <= j < deps.subrange(0, e)[x].instances@.len()
            && deps.subrange(0, e)[x].instances@[j] == k;
    let (e2, j2) = choose|x: int, j: int|
        0 <= x < deps.subrange(e, deps.len() as int).len() && 0 <= j < deps.subrange(e, deps.len() as int)[x].instances@.len()
            && deps.subrange(e, deps.len() as int)[x].instances@[j] == k;
    assert(deps.subrange(0, e)[e1] == deps[e1]);
    assert(deps.subrange(e, deps.len() as int)[e2] == deps[e + e2]);
    assert(deps[e1].instances@[j1] == deps[e + e2].instances@[j2]);
}

/// What visiting the first `d` dependencies of a group has seen: each saw
/// the instances `seen[e]`, untouched in what no earlier dependency holds,
/// and left as they are now in what no later one up to `d` holds.
#[verifier::opaque]
spec fn group_seen(
    deps: Seq<Dependency>,
    old_all: Seq<Instance>,
    all: Seq<Instance>,
    seen: Seq<Seq<Instance>>,
    targets: Seq<Option<Specifier>>,
    d: int,
) -> bool {
    &&& seen.len() == d
    &&& targets.len() == d
    &&& all.len() == old_all.len()
    &&& forall|e: int|
        0 <= e < d ==> {
            &&& (#[trigger] seen[e]).len() == old_all.len()
            &&& (deps[e].variant == Variant::SnappedTo ==> snap_target_is(deps[e], seen[e], targets[e]))
            &&& forall|k: int| 0 <= k < old_all.len() && !held(deps.subrange(0, e), k) ==> seen[e][k] == old_all[k]
            &&& forall|k: int| 0 <= k < old_all.len() && !held(deps.subrange(e, d), k) ==> all[k] == seen[e][k]
        }
}

proof fn lemma_group_seen_start(deps: Seq<Dependency>, old_all: Seq<Instance>)
    ensures
        group_seen(deps, old_all, old_all, Seq::empty(), Seq::empty(), 0),
{
    reveal(group_seen);
}

/// Visiting dependency `d` keeps what the earlier ones saw.
proof fn lemma_group_seen_step(
    deps: Seq<Dependency>,
    old_all: Seq<Instance>,
    before_all: Seq<Instance>,
    after_all: Seq<Instance>,
    seen: Seq<Seq<Instance>>,
    targets: Seq<Option<Specifier>>,
    target: Option<Specifier>,
    d: int,
)
    requires
        0 <= d < deps.len(),
        group_seen(deps, old_all, before_all, seen, targets, d),
        old_all.len() <= usize::MAX,
        after_all.len() == before_all.len(),
        forall|k: int| 0 <= k < old_all.len() && !held(deps.subrange(0, d), k) ==> before_all[k] == old_all[k],
        deps[d].variant == Variant::SnappedTo ==> snap_target_is(deps[d], before_all, target),
        forall|k: int|
            0 <= k < before_all.len() && !deps[d].instances@.contains(k as usize) ==> after_all[k] == before_all[k],
    ensures
        group_seen(deps, old_all, after_all, seen.push(before_all), targets.push(target), d + 1),
{
    reveal(group_seen);
    let ns = seen.push(before_all);
    let nt = targets.push(target);
    assert forall|e: int| 0 <= e < d + 1 implies {
        &&& (#[trigger] ns[e]).len() == old_all.len()
        &&& (deps[e].variant == Variant::SnappedTo ==> snap_target_is(deps[e], ns[e], nt[e]))
        &&& forall|k: int| 0 <= k < old_all.len() && !held(deps.subrange(0, e), k) ==> ns[e][k] == old_all[k]
        &&& forall|k: int| 0 <= k < old_all.len() && !held(deps.subrange(e, d + 1), k) ==> after_all[k] == ns[e][k]
    } by {
        assert forall|k: int| 0 <= k < old_all.len() && !held(deps.subrange(e, d + 1), k) implies after_all[k]
            == ns[e][k] by {
            lemma_held_split(deps, e, d, d + 1, k);
            lemma_held_one(deps, d, k);
        }
        if e < d {
            assert(ns[e] == seen[e]);
            assert(nt[e] == targets[e]);
        }
    }
}

/// Once every dependency of a group was visited, each saw the instances as
/// `seen_in_group` has them.
proof fn lemma_group_seen_done(
    deps: Seq<Dependency>,
    old_all: Seq<Instance>,
    final_all: Seq<Instance>,
    seen: Seq<Seq<Instance>>,
    targets: Seq<Option<Specifier>>,
)
    requires
        group_seen(deps, old_all, final_all, seen, targets, deps.len() as int),
        members_disjoint(deps),
    ensures
        forall|e: int|
            0 <= e < deps.len() && (#[trigger] deps[e]).variant == Variant::SnappedTo ==> snap_target_is(
                deps[e],
                seen_in_group(old_all, final_all, deps, e),
                targets[e],
            ),
{
    reveal(group_seen);
    assert forall|e: int| 0 <= e < deps.len() && (#[trigger] deps[e]).variant == Variant::SnappedTo implies snap_target_is(
        deps[e],
        seen_in_group(old_all, final_all, deps, e),
        targets[e],
    ) by {
        assert forall|k: int| 0 <= k < old_all.len() implies seen_in_group(old_all, final_all, deps, e)[k]
            == seen[e][k] by {
            if held(deps.subrange(e, deps.len() as int), k) {
                if held(deps.subrange(0, e), k) {
                    lemma_held_disjoint(deps, e, k);
                }
            }
        }
        assert(seen_in_group(old_all, final_all, deps, e) =~= seen[e]);
    }
}

/// Visit every dependency of a group, in order; the specifiers each was
/// judged against are returned.
#[verifier::rlimit(100)]
fn visit_group(all: &mut Vec<Instance>, group: &mut VersionGroup) -> (targets: Ghost<Seq<Option<Specifier>>>)
    requires
        forall|k: int| 0 <= k < old(all)@.len() ==> (#[trigger] old(all)@[k]).wf(),
        forall|d: int| 0 <= d < old(group).dependencies@.len() ==> (#[trigger] old(group).dependencies@[d]).wf(old(all)@),
        members_disjoint(old(group).dependencies@),
    ensures
        targets@.len() == old(group).dependencies@.len(),
        same_identity(old(all)@, final(all)@),
        forall|k: int| 0 <= k < final(all)@.len() ==> (#[trigger] final(all)@[k]).wf(),
        final(group).selector == old(group).selector,
        final(group).variant == old(group).variant,
        final(group).pin_version == old(group).pin_version,
        final(group).snap_to == old(group).snap_to,
        final(group).dependencies@.len() == old(group).dependencies@.len(),
        forall|d: int|
            #![trigger final(group).dependencies@[d]]
            #![trigger old(group).dependencies@[d]]
            0 <= d < old(group).dependencies@.len() ==> {
                &&& snap_target_ok(old(group).dependencies@[d], old(all)@, targets@[d])
                &&& visited_dependency(
                    old(group).dependencies@[d],
                    final(group).dependencies@[d],
                    old(all)@,
                    final(all)@,
                    targets@[d],
                )
                &&& final(group).dependencies@[d].wf(final(all)@)
            },
        forall|k: int| 0 <= k < old(all)@.len() && !held(old(group).dependencies@, k) ==> final(all)@[k] == old(all)@[k],
        forall|d: int|
            0 <= d < old(group).dependencies@.len() && (#[trigger] old(group).dependencies@[d]).variant
                == Variant::SnappedTo ==> snap_target_is(
                old(group).dependencies@[d],
                seen_in_group(old(all)@, final(all)@, old(group).dependencies@, d),
                targets@[d],
            ),
{
    let ghost old_all = all@;
    let ghost old_deps = group.dependencies@;
    let ghost mut targets: Seq<Option<Specifier>> = Seq::empty();
    let ghost mut seen: Seq<Seq<Instance>> = Seq::empty();
    proof {
        lemma_group_seen_start(old_deps, old_all);
    }
    let _len = all.len();
    let n = group.dependencies.len();
    let mut d: usize = 0;
    while d < n
        invariant
            n == old_deps.len(),
            d <= n,
            targets.len() == d,
            old_all.len() <= usize::MAX,
            group.dependencies@.len() == n,
            members_disjoint(old_deps),
            forall|k: int| 0 <= k < old_all.len() ==> (#[trigger] old_all[k]).wf(),
            forall|e: int| 0 <= e < n ==> (#[trigger] old_deps[e]).wf(old_all),
            same_identity(old_all, all@),
            forall|k: int| 0 <= k < all@.len() ==> (#[trigger] all@[k]).wf(),
            group.selector == old(group).selector,
            group.variant == old(group).variant,
            group.pin_version == old(group).pin_version,
            group.snap_to == old(group).snap_to,
            old_deps == old(group).dependencies@,
            forall|e: int| d <= e < n ==> (#[trigger] group.dependencies@[e]) == old_deps[e],
            forall|e: int|
                #![trigger group.dependencies@[e]]
                #![trigger old_deps[e]]
                0 <= e < d ==> {
                    &&& snap_target_ok(old_deps[e], old_all, targets[e])
                    &&& visited_dependency(old_deps[e], group.dependencies@[e], old_all, all@, targets[e])
                    &&& group.dependencies@[e].wf(all@)
                },
            forall|k: int|
                0 <= k < old_all.len() && !held(old_deps.subrange(0, d as int), k) ==> all@[k] == old_all[k],
            group_seen(old_deps, old_all, all@, seen, targets, d as int),
        decreases n - d,
    {
        let ghost before_all = all@;
        let ghost before_group = group.dependencies@;
        let mut dep = group.dependencies.remove(d);
        proof {
            assert(dep == old_deps[d as int]);
            lemma_dependency_wf_identity(dep, old_all, all@);
        }
        let target = visit_one(all, &mut dep);
        group.dependencies.insert(d, dep);
        proof {
            assert(group.dependencies@ =~= before_group.update(d as int, dep));
            lemma_same_identity_trans(old_all, before_all, all@);
            lemma_visit_step(old_deps, dep, old_all, before_all, all@, target, d as int);
            lemma_group_seen_step(old_deps, old_all, before_all, all@, seen, targets, target, d as int);
            seen = seen.push(before_all);
            let new_targets = targets.push(target);
            assert forall|e: int|
                #![trigger group.dependencies@[e]]
                #![trigger old_deps[e]]
                0 <= e < d + 1 implies {
                &&& snap_target_ok(old_deps[e], old_all, new_targets[e])
                &&& visited_dependency(old_deps[e], group.dependencies@[e], old_all, all@, new_targets[e])
                &&& group.dependencies@[e].wf(all@)
            } by {
                if e < d {
                    assert(group.dependencies@[e] == before_group[e]);
                    assert(new_targets[e] == targets[e]);
                    lemma_keep_earlier(old_deps, before_group[e], old_all, before_all, all@, targets[e], e, d as int);
                } else {
                    assert(new_targets[e] == target);
                    assert(group.dependencies@[e] == dep);
                }
            }
            assert forall|e: int| d + 1 <= e < n implies (#[trigger] group.dependencies@[e]) == old_deps[e] by {
                assert(group.dependencies@[e] == before_group[e]);
            }
            targets = new_targets;
        }
        d = d + 1;
    }
    proof {
        assert(old_deps.subrange(0, n as int) =~= old_deps);
        lemma_group_seen_done(old_deps, old_all, all@, seen, targets);
    }
    Ghost(targets)
}

/// The instances are sorted into the version groups: well formed, each held
/// by the dependency of its name in the first group that selects it.
pub open spec fn sorted(ctx: Context) -> bool {
    &&& ctx.wf()
    &&& groups_hold(ctx.version_groups@, version_selectors(ctx.version_groups@), ctx.instances@, ctx.instances@.len() as int)
    &&& names_distinct(ctx.version_groups@)
    &&& ctx.instances@.len() <= usize::MAX
}

/// The groups have the same settings and the same dependencies with the
/// same instances.
pub open spec fn same_shape(a: Seq<VersionGroup>, b: Seq<VersionGroup>) -> bool {
    &&& a.len() == b.len()
    &&& forall|g: int|
        0 <= g < a.len() ==> {
            &&& (#[trigger] b[g]).selector == a[g].selector
            &&& b[g].variant == a[g].variant
            &&& b[g].pin_version == a[g].pin_version
            &&& b[g].snap_to == a[g].snap_to
            &&& b[g].dependencies@.len() == a[g].dependencies@.len()
            &&& forall|d: int|
                0 <= d < a[g].dependencies@.len() ==> {
                    &&& (#[trigger] b[g].dependencies@[d]).name == a[g].dependencies@[d].name
                    &&& b[g].dependencies@[d].variant == a[g].dependencies@[d].variant
                    &&& b[g].dependencies@[d].instances == a[g].dependencies@[d].instances
                    &&& b[g].dependencies@[d].pinned_specifier == a[g].dependencies@[d].pinned_specifier
                    &&& b[g].dependencies@[d].snapped_to_packages == a[g].dependencies@[d].snapped_to_packages
                }
        }
}

/// Does a group visited in this pass hold instance `k`?
pub open spec fn held_in_pass(groups: Seq<VersionGroup>, snapped: bool, k: int, upto: int) -> bool {
    exists|g: int|
        0 <= g < upto && (groups[g].variant == Variant::SnappedTo) == snapped && #[trigger] held(groups[g].dependencies@, k)
}

/// Sorted groups never hold an instance twice, within or across groups.
proof fn lemma_sorted_disjoint(ctx: Context)
    requires
        sorted(ctx),
    ensures
        forall|g: int| 0 <= g < ctx.version_groups@.len() ==> members_disjoint(#[trigger] ctx.version_groups@[g].dependencies@),
        forall|g1: int, g2: int, k: int|
            0 <= g1 < ctx.version_groups@.len() && 0 <= g2 < ctx.version_groups@.len() && #[trigger] held(
                ctx.version_groups@[g1].dependencies@,
                k,
            ) && #[trigger] held(ctx.version_groups@[g2].dependencies@, k) ==> g1 == g2,
{
    let groups = ctx.version_groups@;
    let sels = version_selectors(groups);
    let all = ctx.instances@;
    assert forall|g: int| 0 <= g < groups.len() implies members_disjoint(#[trigger] groups[g].dependencies@) by {
        let deps = groups[g].dependencies@;
        assert forall|d1: int, d2: int, j1: int, j2: int|
            0 <= d1 < deps.len() && 0 <= d2 < deps.len() && d1 != d2 && 0 <= j1 < deps[d1].instances@.len() && 0 <= j2
                < deps[d2].instances@.len() implies (#[trigger] deps[d1].instances@[j1]) != (
            #[trigger] deps[d2].instances@[j2]) by {
            let x1 = deps[d1].instances@[j1] as int;
            let x2 = deps[d2].instances@[j2] as int;
            assert(groups[g].dependencies@[d1] == deps[d1]);
            assert(groups[g].dependencies@[d2] == deps[d2]);
            assert(all[x1].name@ == deps[d1].name@);
            assert(all[x2].name@ == deps[d2].name@);
        }
    }
    assert forall|g1: int, g2: int, k: int|
        0 <= g1 < groups.len() && 0 <= g2 < groups.len() && #[trigger] held(groups[g1].dependencies@, k)
            && #[trigger] held(groups[g2].dependencies@, k) implies g1 == g2 by {
        let (d1, j1) = choose|d: int, j: int|
            0 <= d < groups[g1].dependencies@.len() && 0 <= j < groups[g1].dependencies@[d].instances@.len()
                && groups[g1].dependencies@[d].instances@[j] == k;
        let (d2, j2) = choose|d: int, j: int|
            0 <= d < groups[g2].dependencies@.len() && 0 <= j < groups[g2].dependencies@[d].instances@.len()
                && groups[g2].dependencies@[d].instances@[j] == k;
        let dep1 = groups[g1].dependencies@[d1];
        let dep2 = groups[g2].dependencies@[d2];
        assert(first_selecting(sels, all[dep1.instances@[j1] as int], 0) == Some(g1));
        assert(first_selecting(sels, all[dep2.instances@[j2] as int], 0) == Some(g2));
    }
}

/// Sortedness survives a visit that keeps the instances' identity and the
/// groups' shape, and leaves every dependency well formed.
proof fn lemma_sorted_kept(a: Context, b: Context)
    requires
        sorted(a),
        same_identity(a.instances@, b.instances@),
        same_shape(a.version_groups@, b.version_groups@),
        forall|k: int| 0 <= k < b.instances@.len() ==> (#[trigger] b.instances@[k]).wf(),
    ensures
        sorted(b),
{
    let ga = a.version_groups@;
    let gb = b.version_groups@;
    assert(version_selectors(ga) =~= version_selectors(gb)) by {
        assert forall|g: int| 0 <= g < ga.len() implies version_selectors(ga)[g] == version_selectors(gb)[g] by {
            assert(gb[g].selector == ga[g].selector);
        }
    }
    let sels = version_selectors(ga);
    assert forall|g: int, d: int| 0 <= g < gb.len() && 0 <= d < gb[g].dependencies@.len() implies {
        let dep = #[trigger] gb[g].dependencies@[d];
        &&& dep.variant == gb[g].variant
        &&& dep.pinned_specifier == gb[g].pin_version
        &&& crate::context::names_of(dep.snapped_to_packages) == crate::context::names_of(gb[g].snap_to)
        &&& forall|j: int| 0 <= j < dep.instances@.len() ==> {
            let x = #[trigger] dep.instances@[j] as int;
            &&& x < b.instances@.len()
            &&& x < b.instances@.len()
            &&& first_selecting(sels, b.instances@[x], 0) == Some(g)
            &&& b.instances@[x].name@ == dep.name@
        }
        &&& forall|i: int, j: int| 0 <= i < j < dep.instances@.len() ==> dep.instances@[i] < dep.instances@[j]
    } by {
        assert(gb[g].dependencies@[d].instances == ga[g].dependencies@[d].instances);
        let dep = gb[g].dependencies@[d];
        assert forall|j: int| 0 <= j < dep.instances@.len() implies {
            let x = #[trigger] dep.instances@[j] as int;
            &&& x < b.instances@.len()
            &&& x < b.instances@.len()
            &&& first_selecting(sels, b.instances@[x], 0) == Some(g)
            &&& b.instances@[x].name@ == dep.name@
        } by {
            let x = dep.instances@[j] as int;
            assert(ga[g].dependencies@[d].instances@[j] == dep.instances@[j]);
            assert(b.instances@[x]@ == a.instances@[x]@);
            assert(crate::context::selects_same(a.instances@[x], b.instances@[x]));
            crate::context::lemma_first_selecting_same(sels, a.instances@[x], b.instances@[x], 0);
        }
    }
    assert forall|g: int, d1: int, d2: int|
        0 <= g < gb.len() && 0 <= d1 < gb[g].dependencies@.len() && 0 <= d2 < gb[g].dependencies@.len() && d1 != d2
            implies (#[trigger] gb[g].dependencies@[d1]).name@ != (#[trigger] gb[g].dependencies@[d2]).name@ by {
        assert(gb[g].dependencies@[d1].name == ga[g].dependencies@[d1].name);
        assert(gb[g].dependencies@[d2].name == ga[g].dependencies@[d2].name);
    }
    assert forall|g: int, d: int|
        0 <= g < gb.len() && 0 <= d < gb[g].dependencies@.len() implies (#[trigger] gb[g].dependencies@[d]).wf(
        b.instances@) by {
        assert(ga[g].dependencies@[d].wf(a.instances@));
        assert(gb[g].dependencies@[d].instances == ga[g].dependencies@[d].instances);
    }
}

/// The groups of a pass, visited so far, have what visiting recorded.
pub open spec fn pass_done(
    old_groups: Seq<VersionGroup>,
    groups: Seq<VersionGroup>,
    old_all: Seq<Instance>,
    all: Seq<Instance>,
    targets: Seq<Seq<Option<Specifier>>>,
    snapped: bool,
    upto: int,
) -> bool {
    &&& forall|g: int|
        0 <= g < upto && (old_groups[g].variant == Variant::SnappedTo) == snapped ==> (#[trigger] targets[g]).len()
            == old_groups[g].dependencies@.len()
    &&& forall|g: int, d: int|
        #![trigger groups[g].dependencies@[d]]
        #![trigger old_groups[g].dependencies@[d]]
        0 <= g < upto && (old_groups[g].variant == Variant::SnappedTo) == snapped && 0 <= d
            < old_groups[g].dependencies@.len() ==> {
            &&& snap_target_ok(old_groups[g].dependencies@[d], old_all, targets[g][d])
            &&& visited_dependency(old_groups[g].dependencies@[d], groups[g].dependencies@[d], old_all, all, targets[g][d])
        }
}

/// What visiting a dependency leaves of it.
proof fn lemma_visited_fields(
    before: Dependency,
    after: Dependency,
    before_all: Seq<Instance>,
    after_all: Seq<Instance>,
    target: Option<Specifier>,
)
    requires
        visited_dependency(before, after, before_all, after_all, target),
    ensures
        after.name == before.name,
        after.variant == before.variant,
        after.instances == before.instances,
        after.pinned_specifier == before.pinned_specifier,
        after.snapped_to_packages == before.snapped_to_packages,
{
    reveal(visited_dependency);
}

/// One group of a pass was just visited: its dependencies count as visited
/// against the instances at the start of the pass, and the groups visited
/// before keep what they had.
#[verifier::rlimit(100)]
proof fn lemma_pass_step(
    old_groups: Seq<VersionGroup>,
    before_groups: Seq<VersionGroup>,
    after_groups: Seq<VersionGroup>,
    old_all: Seq<Instance>,
    before_all: Seq<Instance>,
    after_all: Seq<Instance>,
    targets: Seq<Seq<Option<Specifier>>>,
    t: Seq<Option<Specifier>>,
    snapped: bool,
    g: int,
)
    requires
        0 <= g < old_groups.len(),
        old_all.len() <= usize::MAX,
        targets.len() == g,
        (old_groups[g].variant == Variant::SnappedTo) == snapped,
        before_groups[g] == old_groups[g],
        after_groups == before_groups.update(g, after_groups[g]),
        before_groups.len() == old_groups.len(),
        forall|g1: int, g2: int, k: int|
            0 <= g1 < old_groups.len() && 0 <= g2 < old_groups.len() && #[trigger] held(old_groups[g1].dependencies@, k)
                && #[trigger] held(old_groups[g2].dependencies@, k) ==> g1 == g2,
        forall|x: int, d: int|
            0 <= x < old_groups.len() && 0 <= d < old_groups[x].dependencies@.len() ==> (
            #[trigger] old_groups[x].dependencies@[d]).wf(old_all),
        same_identity(old_all, before_all),
        same_shape(old_groups, before_groups),
        pass_done(old_groups, before_groups, old_all, before_all, targets, snapped, g),
        forall|k: int| 0 <= k < old_all.len() && !held_in_pass(old_groups, snapped, k, g) ==> before_all[k] == old_all[k],
        t.len() == old_groups[g].dependencies@.len(),
        after_groups[g].dependencies@.len() == old_groups[g].dependencies@.len(),
        forall|d: int|
            #![trigger after_groups[g].dependencies@[d]]
            #![trigger old_groups[g].dependencies@[d]]
            0 <= d < old_groups[g].dependencies@.len() ==> {
                &&& snap_target_ok(old_groups[g].dependencies@[d], before_all, t[d])
                &&& visited_dependency(old_groups[g].dependencies@[d], after_groups[g].dependencies@[d], before_all, after_all, t[d])
            },
        forall|k: int| 0 <= k < before_all.len() && !held(old_groups[g].dependencies@, k) ==> after_all[k] == before_all[k],
    ensures
        pass_done(old_groups, after_groups, old_all, after_all, targets.push(t), snapped, g + 1),
        forall|k: int| 0 <= k < old_all.len() && !held_in_pass(old_groups, snapped, k, g + 1) ==> after_all[k] == old_all[k],
{
    let nt = targets.push(t);
    assert forall|x: int|
        0 <= x < g + 1 && (old_groups[x].variant == Variant::SnappedTo) == snapped implies (#[trigger] nt[x]).len()
        == old_groups[x].dependencies@.len() by {
        if x < g {
            assert(nt[x] == targets[x]);
        } else {
            assert(nt[x] == t);
        }
    }
    assert forall|x: int, d: int|
        #![trigger after_groups[x].dependencies@[d]]
        #![trigger old_groups[x].dependencies@[d]]
        0 <= x < g + 1 && (old_groups[x].variant == Variant::SnappedTo) == snapped && 0 <= d
            < old_groups[x].dependencies@.len() implies {
        &&& snap_target_ok(old_groups[x].dependencies@[d], old_all, nt[x][d])
        &&& visited_dependency(old_groups[x].dependencies@[d], after_groups[x].dependencies@[d], old_all, after_all, nt[x][d])
    } by {
        let dep = old_groups[x].dependencies@[d];
        let idx = dep.instances@;
        assert(dep.wf(old_all));
        if x < g {
            assert(nt[x] == targets[x]);
            assert(after_groups[x] == before_groups[x]);
            // group `g` holds none of the instances of an earlier group
            assert forall|p: int| 0 <= p < idx.len() implies after_all[#[trigger] idx[p] as int]
                == before_all[idx[p] as int] by {
                let k = idx[p] as int;
                assert(held(old_groups[x].dependencies@, k));
                if held(old_groups[g].dependencies@, k) {
                    assert(x == g);
                }
            }
            lemma_visited_kept(dep, after_groups[x].dependencies@[d], old_all, before_all, after_all, targets[x][d]);
        } else {
            assert(x == g);
            assert(nt[x] == t);
            // no earlier group of the pass holds the instances of group `g`
            assert forall|p: int| 0 <= p < idx.len() implies before_all[#[trigger] idx[p] as int]
                == old_all[idx[p] as int] by {
                let k = idx[p] as int;
                assert(held(old_groups[g].dependencies@, k));
                if held_in_pass(old_groups, snapped, k, g) {
                    let y = choose|y: int|
                        0 <= y < g && (old_groups[y].variant == Variant::SnappedTo) == snapped && #[trigger] held(
                            old_groups[y].dependencies@,
                            k,
                        );
                    assert(y == g);
                }
            }
            lemma_members_identity(old_all, before_all, idx);
            lemma_visited_from_untouched(dep, after_groups[x].dependencies@[d], old_all, before_all, after_all, t[d]);
            if dep.snapped_to_packages is Some {
                let pk = dep.snapped_to_packages.unwrap();
                lemma_first_in_packages_identity(old_all, before_all, dep.name@, strings_view(pk@), old_all.len() as int);
            }
            assert(snap_target_ok(dep, old_all, t[d])) by {
                reveal(snap_target_ok);
            }
        }
    }
    assert forall|k: int| 0 <= k < old_all.len() && !held_in_pass(old_groups, snapped, k, g + 1) implies after_all[k]
        == old_all[k] by {
        if held(old_groups[g].dependencies@, k) {
            assert(held_in_pass(old_groups, snapped, k, g + 1));
        }
        if held_in_pass(old_groups, snapped, k, g) {
            let y = choose|y: int|
                0 <= y < g && (old_groups[y].variant == Variant::SnappedTo) == snapped && #[trigger] held(
                    old_groups[y].dependencies@,
                    k,
                );
            assert(held_in_pass(old_groups, snapped, k, g + 1));
        }
    }
}

/// What visiting the first `g` groups of a pass has seen: each group of the
/// pass started from the instances `seen[x]`, untouched in what no earlier
/// group of the pass holds, and ended with `done[x]`, which differs only in
/// what it holds and is still what the instances are in what no later group
/// of the pass up to `g` holds.
#[verifier::opaque]
spec fn pass_seen(
    groups: Seq<VersionGroup>,
    old_all: Seq<Instance>,
    all: Seq<Instance>,
    seen: Seq<Seq<Instance>>,
    done: Seq<Seq<Instance>>,
    targets: Seq<Seq<Option<Specifier>>>,
    snapped: bool,
    g: int,
) -> bool {
    &&& seen.len() == g
    &&& done.len() == g
    &&& targets.len() == g
    &&& all.len() == old_all.len()
    &&& forall|x: int|
        0 <= x < g && (groups[x].variant == Variant::SnappedTo) == snapped ==> {
            &&& (#[trigger] seen[x]).len() == old_all.len()
            &&& done[x].len() == old_all.len()
            &&& forall|d: int|
                0 <= d < groups[x].dependencies@.len() && (#[trigger] groups[x].dependencies@[d]).variant
                    == Variant::SnappedTo ==> snap_target_is(
                    groups[x].dependencies@[d],
                    seen_in_group(seen[x], done[x], groups[x].dependencies@, d),
                    targets[x][d],
                )
            &&& forall|k: int| 0 <= k < old_all.len() && !held_in_pass(groups, snapped, k, x) ==> seen[x][k] == old_all[k]
            &&& forall|k: int| 0 <= k < old_all.len() && !held(groups[x].dependencies@, k) ==> done[x][k] == seen[x][k]
            &&& forall|k: int|
                0 <= k < old_all.len() && !held_in_pass_between(groups, snapped, k, x + 1, g) ==> all[k] == done[x][k]
        }
}

proof fn lemma_pass_seen_start(groups: Seq<VersionGroup>, old_all: Seq<Instance>, snapped: bool)
    ensures
        pass_seen(groups, old_all, old_all, Seq::empty(), Seq::empty(), Seq::empty(), snapped, 0),
{
    reveal(pass_seen);
}

/// Visiting group `g` of the pass keeps what the earlier groups saw.
#[verifier::rlimit(40)]
proof fn lemma_pass_seen_step(
    groups: Seq<VersionGroup>,
    old_all: Seq<Instance>,
    before_all: Seq<Instance>,
    after_all: Seq<Instance>,
    seen: Seq<Seq<Instance>>,
    done: Seq<Seq<Instance>>,
    targets: Seq<Seq<Option<Specifier>>>,
    t: Seq<Option<Specifier>>,
    snapped: bool,
    g: int,
)
    requires
        0 <= g < groups.len(),
        (groups[g].variant == Variant::SnappedTo) == snapped,
        pass_seen(groups, old_all, before_all, seen, done, targets, snapped, g),
        after_all.len() == before_all.len(),
        forall|k: int| 0 <= k < old_all.len() && !held_in_pass(groups, snapped, k, g) ==> before_all[k] == old_all[k],
        forall|k: int| 0 <= k < before_all.len() && !held(groups[g].dependencies@, k) ==> after_all[k] == before_all[k],
        forall|d: int|
            0 <= d < groups[g].dependencies@.len() && (#[trigger] groups[g].dependencies@[d]).variant
                == Variant::SnappedTo ==> snap_target_is(
                groups[g].dependencies@[d],
                seen_in_group(before_all, after_all, groups[g].dependencies@, d),
                t[d],
            ),
    ensures
        pass_seen(groups, old_all, after_all, seen.push(before_all), done.push(after_all), targets.push(t), snapped, g + 1),
{
    reveal(pass_seen);
    let ns = seen.push(before_all);
    let nd = done.push(after_all);
    let nt = targets.push(t);
    assert forall|x: int| 0 <= x < g + 1 && (groups[x].variant == Variant::SnappedTo) == snapped implies {
        &&& (#[trigger] ns[x]).len() == old_all.len()
        &&& nd[x].len() == old_all.len()
        &&& forall|d: int|
            0 <= d < groups[x].dependencies@.len() && (#[trigger] groups[x].dependencies@[d]).variant
                == Variant::SnappedTo ==> snap_target_is(
                groups[x].dependencies@[d],
                seen_in_group(ns[x], nd[x], groups[x].dependencies@, d),
                nt[x][d],
            )
        &&& forall|k: int| 0 <= k < old_all.len() && !held_in_pass(groups, snapped, k, x) ==> ns[x][k] == old_all[k]
        &&& forall|k: int| 0 <= k < old_all.len() && !held(groups[x].dependencies@, k) ==> nd[x][k] == ns[x][k]
        &&& forall|k: int|
            0 <= k < old_all.len() && !held_in_pass_between(groups, snapped, k, x + 1, g + 1) ==> after_all[k] == nd[x][k]
    } by {
        if x < g {
            assert(ns[x] == seen[x]);
            assert(nd[x] == done[x]);
            assert(nt[x] == targets[x]);
            assert forall|k: int|
                0 <= k < old_all.len() && !held_in_pass_between(groups, snapped, k, x + 1, g + 1) implies after_all[k]
                == nd[x][k] by {
                if held(groups[g].dependencies@, k) {
                    assert(held_in_pass_between(groups, snapped, k, x + 1, g + 1));
                }
                if held_in_pass_between(groups, snapped, k, x + 1, g) {
                    let y = choose|y: int|
                        x + 1 <= y < g && (groups[y].variant == Variant::SnappedTo) == snapped && #[trigger] held(
                            groups[y].dependencies@,
                            k,
                        );
                    assert(held_in_pass_between(groups, snapped, k, x + 1, g + 1));
                }
            }
        } else {
            assert(ns[x] == before_all);
            assert(nd[x] == after_all);
            assert(nt[x] == t);
        }
    }
}

/// A group outside the pass is skipped: what the others saw stays.
proof fn lemma_pass_seen_skip(
    groups: Seq<VersionGroup>,
    old_all: Seq<Instance>,
    all: Seq<Instance>,
    seen: Seq<Seq<Instance>>,
    done: Seq<Seq<Instance>>,
    targets: Seq<Seq<Option<Specifier>>>,
    snapped: bool,
    g: int,
)
    requires
        0 <= g < groups.len(),
        (groups[g].variant == Variant::SnappedTo) != snapped,
        pass_seen(groups, old_all, all, seen, done, targets, snapped, g),
    ensures
        pass_seen(
            groups,
            old_all,
            all,
            seen.push(Seq::empty()),
            done.push(Seq::empty()),
            targets.push(Seq::empty()),
            snapped,
            g + 1,
        ),
{
    reveal(pass_seen);
    let ns = seen.push(Seq::empty());
    let nd = done.push(Seq::empty());
    let nt = targets.push(Seq::empty());
    assert forall|x: int| 0 <= x < g + 1 && (groups[x].variant == Variant::SnappedTo) == snapped implies {
        &&& (#[trigger] ns[x]).len() == old_all.len()
        &&& nd[x].len() == old_all.len()
        &&& forall|d: int|
            0 <= d < groups[x].dependencies@.len() && (#[trigger] groups[x].dependencies@[d]).variant
                == Variant::SnappedTo ==> snap_target_is(
                groups[x].dependencies@[d],
                seen_in_group(ns[x], nd[x], groups[x].dependencies@, d),
                nt[x][d],
            )
        &&& forall|k: int| 0 <= k < old_all.len() && !held_in_pass(groups, snapped, k, x) ==> ns[x][k] == old_all[k]
        &&& forall|k: int| 0 <= k < old_all.len() && !held(groups[x].dependencies@, k) ==> nd[x][k] == ns[x][k]
        &&& forall|k: int|
            0 <= k < old_all.len() && !held_in_pass_between(groups, snapped, k, x + 1, g + 1) ==> all[k] == nd[x][k]
    } by {
        assert(x < g);
        assert(ns[x] == seen[x]);
        assert(nd[x] == done[x]);
        assert(nt[x] == targets[x]);
        assert forall|k: int|
            0 <= k < old_all.len() && !held_in_pass_between(groups, snapped, k, x + 1, g + 1) implies all[k]
            == nd[x][k] by {
            if held_in_pass_between(groups, snapped, k, x + 1, g) {
                let y = choose|y: int|
                    x + 1 <= y < g && (groups[y].variant == Variant::SnappedTo) == snapped && #[trigger] held(
                        groups[y].dependencies@,
                        k,
                    );
                assert(held_in_pass_between(groups, snapped, k, x + 1, g + 1));
            }
        }
    }
}

/// A dependency held by `deps[d..]` is held by `deps`.
proof fn lemma_held_suffix(deps: Seq<Dependency>, d: int, k: int)
    requires
        0 <= d <= deps.len(),
        held(deps.subrange(d, deps.len() as int), k),
    ensures
        held(deps, k),
{
    let s = deps.subrange(d, deps.len() as int);
    let (e, j) = choose|e: int, j: int| 0 <= e < s.len() && 0 <= j < s[e].instances@.len() && s[e].instances@[j] == k;
    assert(s[e] == deps[d + e]);
}

/// Once every group of the pass was visited, each dependency of a
/// snapped-to group saw the instances as `seen_in_pass` has them.
#[verifier::rlimit(40)]
proof fn lemma_pass_seen_done(
    groups: Seq<VersionGroup>,
    old_all: Seq<Instance>,
    final_all: Seq<Instance>,
    seen: Seq<Seq<Instance>>,
    done: Seq<Seq<Instance>>,
    targets: Seq<Seq<Option<Specifier>>>,
    snapped: bool,
)
    requires
        pass_seen(groups, old_all, final_all, seen, done, targets, snapped, groups.len() as int),
        forall|g1: int, g2: int, k: int|
            0 <= g1 < groups.len() && 0 <= g2 < groups.len() && #[trigger] held(groups[g1].dependencies@, k)
                && #[trigger] held(groups[g2].dependencies@, k) ==> g1 == g2,
    ensures
        forall|x: int, d: int|
            0 <= x < groups.len() && (groups[x].variant == Variant::SnappedTo) == snapped && 0 <= d
                < groups[x].dependencies@.len() && (#[trigger] groups[x].dependencies@[d]).variant
                == Variant::SnappedTo ==> snap_target_is(
                groups[x].dependencies@[d],
                seen_in_pass(old_all, final_all, groups, snapped, x, d),
                targets[x][d],
            ),
{
    reveal(pass_seen);
    let n = groups.len() as int;
    assert forall|x: int, d: int|
        0 <= x < n && (groups[x].variant == Variant::SnappedTo) == snapped && 0 <= d < groups[x].dependencies@.len()
            && (#[trigger] groups[x].dependencies@[d]).variant == Variant::SnappedTo implies snap_target_is(
        groups[x].dependencies@[d],
        seen_in_pass(old_all, final_all, groups, snapped, x, d),
        targets[x][d],
    ) by {
        let deps = groups[x].dependencies@;
        let a = seen_in_group(seen[x], done[x], deps, d);
        let b = seen_in_pass(old_all, final_all, groups, snapped, x, d);
        assert forall|k: int| 0 <= k < old_all.len() implies a[k] == b[k] by {
            let mine = held(deps.subrange(d, deps.len() as int), k);
            let later = held_in_pass_between(groups, snapped, k, x + 1, n);
            if held_in_pass(groups, snapped, k, x) {
                let y = choose|y: int|
                    0 <= y < x && (groups[y].variant == Variant::SnappedTo) == snapped && #[trigger] held(
                        groups[y].dependencies@,
                        k,
                    );
                if mine {
                    lemma_held_suffix(deps, d, k);
                    assert(y == x);
                }
                if later {
                    let z = choose|z: int|
                        x + 1 <= z < n && (groups[z].variant == Variant::SnappedTo) == snapped && #[trigger] held(
                            groups[z].dependencies@,
                            k,
                        );
                    assert(y == z);
                }
            }
            if later && held(deps, k) {
                let z = choose|z: int|
                    x + 1 <= z < n && (groups[z].variant == Variant::SnappedTo) == snapped && #[trigger] held(
                        groups[z].dependencies@,
                        k,
                    );
                assert(x == z);
            }
        }
        assert(a =~= b);
    }
}

/// Visit every dependency of every group of the pass: the groups snapped to
/// other packages, or all the others.
#[verifier::rlimit(100)]
fn visit_pass(ctx: &mut Context, snapped: bool) -> (targets: Ghost<Seq<Seq<Option<Specifier>>>>)
    requires
        sorted(*old(ctx)),
    ensures
        sorted(*final(ctx)),
        same_identity(old(ctx).instances@, final(ctx).instances@),
        same_shape(old(ctx).version_groups@, final(ctx).version_groups@),
        final(ctx).semver_groups == old(ctx).semver_groups,
        targets@.len() == old(ctx).version_groups@.len(),
        pass_done(
            old(ctx).version_groups@,
            final(ctx).version_groups@,
            old(ctx).instances@,
            final(ctx).instances@,
            targets@,
            snapped,
            old(ctx).version_groups@.len() as int,
        ),
        forall|g: int|
            0 <= g < old(ctx).version_groups@.len() && (old(ctx).version_groups@[g].variant == Variant::SnappedTo)
                != snapped ==> #[trigger] final(ctx).version_groups@[g] == old(ctx).version_groups@[g],
        forall|k: int|
            0 <= k < old(ctx).instances@.len() && !held_in_pass(
                old(ctx).version_groups@,
                snapped,
                k,
                old(ctx).version_groups@.len() as int,
            ) ==> final(ctx).instances@[k] == old(ctx).instances@[k],
        forall|x: int, d: int|
            0 <= x < old(ctx).version_groups@.len() && (old(ctx).version_groups@[x].variant == Variant::SnappedTo)
                == snapped && 0 <= d < old(ctx).version_groups@[x].dependencies@.len() && (
            #[trigger] old(ctx).version_groups@[x].dependencies@[d]).variant == Variant::SnappedTo ==> snap_target_is(
                old(ctx).version_groups@[x].dependencies@[d],
                seen_in_pass(old(ctx).instances@, final(ctx).instances@, old(ctx).version_groups@, snapped, x, d),
                targets@[x][d],
            ),
{
    let ghost old_ctx = *ctx;
    let ghost old_groups = ctx.version_groups@;
    let ghost old_all = ctx.instances@;
    let ghost mut targets: Seq<Seq<Option<Specifier>>> = Seq::empty();
    let ghost mut seen: Seq<Seq<Instance>> = Seq::empty();
    let ghost mut done: Seq<Seq<Instance>> = Seq::empty();
    proof {
        lemma_sorted_disjoint(old_ctx);
        lemma_pass_seen_start(old_groups, old_all, snapped);
    }
    let n = ctx.version_groups.len();
    let mut g: usize = 0;
    while g < n
        invariant
            n == old_groups.len(),
            g <= n,
            targets.len() == g,
            old_groups == old_ctx.version_groups@,
            old_all == old_ctx.instances@,
            sorted(old_ctx),
            sorted(*ctx),
            forall|x: int| 0 <= x < n ==> members_disjoint(#[trigger] old_groups[x].dependencies@),
            forall|g1: int, g2: int, k: int|
                0 <= g1 < n && 0 <= g2 < n && #[trigger] held(old_groups[g1].dependencies@, k) && #[trigger] held(
                    old_groups[g2].dependencies@,
                    k,
                ) ==> g1 == g2,
            same_identity(old_all, ctx.instances@),
            same_shape(old_groups, ctx.version_groups@),
            ctx.semver_groups == old_ctx.semver_groups,
            pass_done(old_groups, ctx.version_groups@, old_all, ctx.instances@, targets, snapped, g as int),
            forall|x: int|
                0 <= x < n && (x >= g || (old_groups[x].variant == Variant::SnappedTo) != snapped) ==> #[trigger] ctx.version_groups@[x]
                    == old_groups[x],
            forall|k: int|
                0 <= k < old_all.len() && !held_in_pass(old_groups, snapped, k, g as int) ==> ctx.instances@[k] == old_all[k],
            pass_seen(old_groups, old_all, ctx.instances@, seen, done, targets, snapped, g as int),
        decreases n - g,
    {
        let ghost before_ctx = *ctx;
        let in_pass = matches!(ctx.version_groups[g].variant, Variant::SnappedTo) == snapped;
        if in_pass {
            let mut group = ctx.version_groups.remove(g);
            proof {
                assert(group == old_groups[g as int]);
                assert forall|d: int| 0 <= d < group.dependencies@.len() implies (#[trigger] group.dependencies@[d]).wf(
                    ctx.instances@) by {
                    assert(before_ctx.version_groups@[g as int] == group);
                }
            }
            let t = visit_group(&mut ctx.instances, &mut group);
            ctx.version_groups.insert(g, group);
            proof {
                assert(ctx.version_groups@ =~= before_ctx.version_groups@.update(g as int, group));
                lemma_same_identity_trans(old_all, before_ctx.instances@, ctx.instances@);
                lemma_pass_step(old_groups, before_ctx.version_groups@, ctx.version_groups@, old_all,
                    before_ctx.instances@, ctx.instances@, targets, t@, snapped, g as int);
                assert forall|d: int| 0 <= d < group.dependencies@.len() implies {
                    &&& (#[trigger] group.dependencies@[d]).name == old_groups[g as int].dependencies@[d].name
                    &&& group.dependencies@[d].variant == old_groups[g as int].dependencies@[d].variant
                    &&& group.dependencies@[d].instances == old_groups[g as int].dependencies@[d].instances
                    &&& group.dependencies@[d].pinned_specifier == old_groups[g as int].dependencies@[d].pinned_specifier
                    &&& group.dependencies@[d].snapped_to_packages == old_groups[g as int].dependencies@[d].snapped_to_packages
                } by {
                    lemma_visited_fields(old_groups[g as int].dependencies@[d], group.dependencies@[d],
                        before_ctx.instances@, ctx.instances@, t@[d]);
                }
                assert(same_shape(before_ctx.version_groups@, ctx.version_groups@));
                lemma_sorted_kept(before_ctx, *ctx);
                assert(same_shape(old_groups, ctx.version_groups@));
                lemma_pass_seen_step(old_groups, old_all, before_ctx.instances@, ctx.instances@, seen, done, targets,
                    t@, snapped, g as int);
                seen = seen.push(before_ctx.instances@);
                done = done.push(ctx.instances@);
                targets = targets.push(t@);
            }
        } else {
            proof {
                lemma_pass_seen_skip(old_groups, old_all, ctx.instances@, seen, done, targets, snapped, g as int);
                seen = seen.push(Seq::empty());
                done = done.push(Seq::empty());
                targets = targets.push(Seq::empty());
                assert forall|k: int|
                    0 <= k < old_all.len() && !held_in_pass(old_groups, snapped, k, g + 1) implies ctx.instances@[k]
                    == old_all[k] by {
                    if held_in_pass(old_groups, snapped, k, g as int) {
                        let x = choose|x: int|
                            0 <= x < g && (old_groups[x].variant == Variant::SnappedTo) == snapped && #[trigger] held(
                                old_groups[x].dependencies@,
                                k,
                            );
                        assert(0 <= x < g + 1);
                    }
                }
                assert(pass_done(old_groups, ctx.version_groups@, old_all, ctx.instances@, targets, snapped, g + 1)) by {
                    assert forall|x: int|
                        0 <= x < g + 1 && (old_groups[x].variant == Variant::SnappedTo) == snapped implies (
                        #[trigger] targets[x]).len() == old_groups[x].dependencies@.len() by {
                        assert(x < g);
                        assert(targets[x] == targets.drop_last()[x]);
                    }
                    assert forall|x: int, d: int|
                        #![trigger ctx.version_groups@[x].dependencies@[d]]
                        #![trigger old_groups[x].dependencies@[d]]
                        0 <= x < g + 1 && (old_groups[x].variant == Variant::SnappedTo) == snapped && 0 <= d
                            < old_groups[x].dependencies@.len() implies {
                        &&& snap_target_ok(old_groups[x].dependencies@[d], old_all, targets[x][d])
                        &&& visited_dependency(old_groups[x].dependencies@[d], ctx.version_groups@[x].dependencies@[d], old_all, ctx.instances@, targets[x][d])
                    } by {
                        assert(x < g);
                        assert(targets[x] == targets.drop_last()[x]);
                    }
                }
            }
        }
        g = g + 1;
    }
    proof {
        lemma_pass_seen_done(old_groups, old_all, ctx.instances@, seen, done, targets, snapped);
    }
    Ghost(targets)
}

/// The dependencies of groups of one pass keep what the other pass
/// recorded, and count as visited against the instances before both.
#[verifier::rlimit(100)]
proof fn lemma_two_passes(
    g0: Seq<VersionGroup>,
    g1: Seq<VersionGroup>,
    g2: Seq<VersionGroup>,
    a0: Seq<Instance>,
    a1: Seq<Instance>,
    a2: Seq<Instance>,
    t1: Seq<Seq<Option<Specifier>>>,
    t2: Seq<Seq<Option<Specifier>>>,
)
    requires
        a0.len() <= usize::MAX,
        t1.len() == g0.len(),
        t2.len() == g0.len(),
        forall|x: int, y: int, k: int|
            0 <= x < g0.len() && 0 <= y < g0.len() && #[trigger] held(g0[x].dependencies@, k) && #[trigger] held(
                g0[y].dependencies@,
                k,
            ) ==> x == y,
        forall|x: int, d: int|
            0 <= x < g0.len() && 0 <= d < g0[x].dependencies@.len() ==> (#[trigger] g0[x].dependencies@[d]).wf(a0),
        same_identity(a0, a1),
        same_shape(g0, g1),
        pass_done(g0, g1, a0, a1, t1, false, g0.len() as int),
        forall|x: int| 0 <= x < g0.len() && g0[x].variant == Variant::SnappedTo ==> #[trigger] g1[x] == g0[x],
        forall|k: int| 0 <= k < a0.len() && !held_in_pass(g0, false, k, g0.len() as int) ==> a1[k] == a0[k],
        pass_done(g1, g2, a1, a2, t2, true, g0.len() as int),
        forall|x: int| 0 <= x < g0.len() && g1[x].variant != Variant::SnappedTo ==> #[trigger] g2[x] == g1[x],
        forall|k: int| 0 <= k < a0.len() && !held_in_pass(g1, true, k, g0.len() as int) ==> a2[k] == a1[k],
    ensures
        forall|x: int, d: int|
            #![trigger g2[x].dependencies@[d]]
            #![trigger g0[x].dependencies@[d]]
            0 <= x < g0.len() && 0 <= d < g0[x].dependencies@.len() ==> {
                let t = if g0[x].variant == Variant::SnappedTo { t2[x][d] } else { t1[x][d] };
                &&& snap_target_ok(g0[x].dependencies@[d], a0, t)
                &&& visited_dependency(g0[x].dependencies@[d], g2[x].dependencies@[d], a0, a2, t)
            },
{
    assert forall|x: int, d: int|
        #![trigger g2[x].dependencies@[d]]
        #![trigger g0[x].dependencies@[d]]
        0 <= x < g0.len() && 0 <= d < g0[x].dependencies@.len() implies {
        let t = if g0[x].variant == Variant::SnappedTo { t2[x][d] } else { t1[x][d] };
        &&& snap_target_ok(g0[x].dependencies@[d], a0, t)
        &&& visited_dependency(g0[x].dependencies@[d], g2[x].dependencies@[d], a0, a2, t)
    } by {
        let dep = g0[x].dependencies@[d];
        let idx = dep.instances@;
        assert(dep.wf(a0));
        assert(g1[x].variant == g0[x].variant);
        if g0[x].variant == Variant::SnappedTo {
            assert(g1[x] == g0[x]);
            assert(g1[x].dependencies@[d] == dep);
            // the first pass left the instances of a snapped group alone
            assert forall|p: int| 0 <= p < idx.len() implies a1[#[trigger] idx[p] as int] == a0[idx[p] as int] by {
                let k = idx[p] as int;
                assert(held(g0[x].dependencies@, k));
                if held_in_pass(g0, false, k, g0.len() as int) {
                    let y = choose|y: int|
                        0 <= y < g0.len() && (g0[y].variant == Variant::SnappedTo) == false && #[trigger] held(
                            g0[y].dependencies@,
                            k,
                        );
                    assert(y == x);
                }
            }
            lemma_members_identity(a0, a1, idx);
            lemma_visited_from_untouched(dep, g2[x].dependencies@[d], a0, a1, a2, t2[x][d]);
            if dep.snapped_to_packages is Some {
                let pk = dep.snapped_to_packages.unwrap();
                lemma_first_in_packages_identity(a0, a1, dep.name@, strings_view(pk@), a0.len() as int);
            }
            assert(snap_target_ok(dep, a0, t2[x][d])) by {
                reveal(snap_target_ok);
            }
        } else {
            assert(g2[x] == g1[x]);
            // the second pass left the instances of other groups alone
            assert forall|p: int| 0 <= p < idx.len() implies a2[#[trigger] idx[p] as int] == a1[idx[p] as int] by {
                let k = idx[p] as int;
                assert(held(g0[x].dependencies@, k));
                if held_in_pass(g1, true, k, g0.len() as int) {
                    let y = choose|y: int|
                        0 <= y < g0.len() && (g1[y].variant == Variant::SnappedTo) == true && #[trigger] held(
                            g1[y].dependencies@,
                            k,
                        );
                    assert(g1[y].variant == g0[y].variant);
                    assert(g1[y].dependencies@.len() == g0[y].dependencies@.len());
                    let (e, j) = choose|e: int, j: int|
                        0 <= e < g1[y].dependencies@.len() && 0 <= j < g1[y].dependencies@[e].instances@.len()
                            && g1[y].dependencies@[e].instances@[j] == k;
                    assert(g1[y].dependencies@[e].instances == g0[y].dependencies@[e].instances);
                    assert(held(g0[y].dependencies@, k));
                    assert(y == x);
                }
            }
            lemma_visited_kept(dep, g2[x].dependencies@[d], a0, a1, a2, t1[x][d]);
        }
    }
}

/// The second pass starts from the instances the first left: what a
/// dependency of a snapped-to group sees then is what `seen_in_pass` has of
/// the instances as they were given, as the first pass left the instances
/// of snapped-to groups alone.
#[verifier::rlimit(40)]
proof fn lemma_seen_across_passes(
    g0: Seq<VersionGroup>,
    g1: Seq<VersionGroup>,
    a0: Seq<Instance>,
    a1: Seq<Instance>,
    a2: Seq<Instance>,
    x: int,
    d: int,
)
    requires
        0 <= x < g0.len(),
        0 <= d < g0[x].dependencies@.len(),
        g0[x].variant == Variant::SnappedTo,
        a1.len() == a0.len(),
        g1.len() == g0.len(),
        forall|y: int| 0 <= y < g0.len() ==> (#[trigger] g1[y]).variant == g0[y].variant,
        forall|y: int| 0 <= y < g0.len() && g0[y].variant == Variant::SnappedTo ==> #[trigger] g1[y] == g0[y],
        forall|y1: int, y2: int, k: int|
            0 <= y1 < g0.len() && 0 <= y2 < g0.len() && #[trigger] held(g0[y1].dependencies@, k) && #[trigger] held(
                g0[y2].dependencies@,
                k,
            ) ==> y1 == y2,
        forall|k: int| 0 <= k < a0.len() && !held_in_pass(g0, false, k, g0.len() as int) ==> a1[k] == a0[k],
    ensures
        seen_in_pass(a1, a2, g1, true, x, d) == seen_in_pass(a0, a2, g0, true, x, d),
{
    let n = g0.len() as int;
    assert(g1[x] == g0[x]);
    assert forall|k: int| 0 <= k < a0.len() implies seen_in_pass(a1, a2, g1, true, x, d)[k] == seen_in_pass(
        a0,
        a2,
        g0,
        true,
        x,
        d,
    )[k] by {
        if held_in_pass_between(g1, true, k, x + 1, n) {
            let y = choose|y: int|
                x + 1 <= y < n && (g1[y].variant == Variant::SnappedTo) == true && #[trigger] held(g1[y].dependencies@, k);
            assert(g1[y] == g0[y]);
            assert(held_in_pass_between(g0, true, k, x + 1, n));
        }
        if held_in_pass_between(g0, true, k, x + 1, n) {
            let y = choose|y: int|
                x + 1 <= y < n && (g0[y].variant == Variant::SnappedTo) == true && #[trigger] held(g0[y].dependencies@, k);
            assert(g1[y] == g0[y]);
            assert(held_in_pass_between(g1, true, k, x + 1, n));
            if held_in_pass(g0, false, k, n) {
                let z = choose|z: int|
                    0 <= z < n && (g0[z].variant == Variant::SnappedTo) == false && #[trigger] held(g0[z].dependencies@, k);
                assert(y == z);
            }
        }
        let deps = g0[x].dependencies@;
        if held(deps.subrange(d, deps.len() as int), k) {
            lemma_held_suffix(deps, d, k);
            if held_in_pass(g0, false, k, n) {
                let z = choose|z: int|
                    0 <= z < n && (g0[z].variant == Variant::SnappedTo) == false && #[trigger] held(g0[z].dependencies@, k);
                assert(x == z);
            }
        }
    }
    assert(seen_in_pass(a1, a2, g1, true, x, d) =~= seen_in_pass(a0, a2, g0, true, x, d));
}

/// Every dependency of every group of `after` is that of `before` visited
/// against `targets`; that of a dependency of a snapped-to group is what it
/// finds in the instances as it sees them (`seen_in_pass`: the groups that
/// are not snapped to were visited first).
pub open spec fn all_visited(before: Context, after: Context, targets: Seq<Seq<Option<Specifier>>>) -> bool {
    forall|g: int, d: int|
        #![trigger after.version_groups@[g].dependencies@[d]]
        0 <= g < before.version_groups@.len() && 0 <= d < before.version_groups@[g].dependencies@.len() ==> {
            &&& snap_target_ok(before.version_groups@[g].dependencies@[d], before.instances@, targets[g][d])
            &&& (before.version_groups@[g].variant == Variant::SnappedTo ==> snap_target_is(
                before.version_groups@[g].dependencies@[d],
                seen_in_pass(before.instances@, after.instances@, before.version_groups@, true, g, d),
                targets[g][d],
            ))
            &&& visited_dependency(
                before.version_groups@[g].dependencies@[d],
                after.version_groups@[g].dependencies@[d],
                before.instances@,
                after.instances@,
                targets[g][d],
            )
        }
}

/// Visit every version group: first those that are not snapped to other
/// packages, then those that are, so that the packages they are snapped to
/// have their own outcome recorded first. Every dependency of every group is
/// judged once, against the instances as they were given; a dependency of a
/// snapped-to group is judged against the expected specifier of the first
/// instance of its name in the packages it is snapped to, as that instance
/// stands once the groups that are not snapped to were visited, and against
/// none when there is no such instance.
pub fn visit_packages(ctx: &mut Context)
    requires
        sorted(*old(ctx)),
    ensures
        sorted(*final(ctx)),
        same_identity(old(ctx).instances@, final(ctx).instances@),
        same_shape(old(ctx).version_groups@, final(ctx).version_groups@),
        final(ctx).semver_groups == old(ctx).semver_groups,
        exists|targets: Seq<Seq<Option<Specifier>>>| #[trigger] all_visited(*old(ctx), *final(ctx), targets),
{
    let ghost c0 = *ctx;
    proof {
        lemma_sorted_disjoint(c0);
    }
    let t1 = visit_pass(ctx, false);
    let ghost c1 = *ctx;
    let t2 = visit_pass(ctx, true);
    proof {
        let g0 = c0.version_groups@;
        let g1 = c1.version_groups@;
        assert forall|x: int, y: int, k: int|
            0 <= x < g1.len() && 0 <= y < g1.len() && #[trigger] held(g1[x].dependencies@, k) && #[trigger] held(
                g1[y].dependencies@,
                k,
            ) implies x == y by {
            assert(g1[x].dependencies@.len() == g0[x].dependencies@.len());
            assert(g1[y].dependencies@.len() == g0[y].dependencies@.len());
            let (e1, j1) = choose|e: int, j: int|
                0 <= e < g1[x].dependencies@.len() && 0 <= j < g1[x].dependencies@[e].instances@.len()
                    && g1[x].dependencies@[e].instances@[j] == k;
            let (e2, j2) = choose|e: int, j: int|
                0 <= e < g1[y].dependencies@.len() && 0 <= j < g1[y].dependencies@[e].instances@.len()
                    && g1[y].dependencies@[e].instances@[j] == k;
            assert(g1[x].dependencies@[e1].instances == g0[x].dependencies@[e1].instances);
            assert(g1[y].dependencies@[e2].instances == g0[y].dependencies@[e2].instances);
            assert(held(g0[x].dependencies@, k));
            assert(held(g0[y].dependencies@, k));
        }
        assert forall|x: int| 0 <= x < g0.len() && g1[x].variant != Variant::SnappedTo implies #[trigger] ctx.version_groups@[x]
            == g1[x] by {
            assert(g1[x].variant == g0[x].variant);
        }
        lemma_two_passes(g0, g1, ctx.version_groups@, c0.instances@, c1.instances@, ctx.instances@, t1@, t2@);
        lemma_same_identity_trans(c0.instances@, c1.instances@, ctx.instances@);
        let targets = Seq::new(g0.len(), |x: int|
            if g0[x].variant == Variant::SnappedTo { t2@[x] } else { t1@[x] }
        );
        assert forall|g: int, d: int|
            #![trigger ctx.version_groups@[g].dependencies@[d]]
            0 <= g < g0.len() && 0 <= d < g0[g].dependencies@.len() implies {
            &&& snap_target_ok(g0[g].dependencies@[d], c0.instances@, targets[g][d])
            &&& (g0[g].variant == Variant::SnappedTo ==> snap_target_is(
                g0[g].dependencies@[d],
                seen_in_pass(c0.instances@, ctx.instances@, g0, true, g, d),
                targets[g][d],
            ))
            &&& visited_dependency(g0[g].dependencies@[d], ctx.version_groups@[g].dependencies@[d], c0.instances@, ctx.instances@, targets[g][d])
        } by {
            assert(g0[g].dependencies@[d] == g0[g].dependencies@[d]);
            if g0[g].variant == Variant::SnappedTo {
                assert(g1[g] == g0[g]);
                assert(g1[g].dependencies@[d] == g0[g].dependencies@[d]);
                assert(g0[g].dependencies@[d].variant == g0[g].variant);
                assert(g1[g].dependencies@[d].variant == Variant::SnappedTo);
                assert(targets[g] == t2@[g]);
                lemma_seen_across_passes(g0, g1, c0.instances@, c1.instances@, ctx.instances@, g, d);
            }
        }
        assert(all_visited(c0, *ctx, targets));
    }
}

/// Visiting decides a state for every instance of every dependency: none is
/// left unknown.
pub proof fn law_every_instance_is_judged(
    variant: Variant,
    m: Seq<InstanceView>,
    i: int,
    pinned: Option<Specifier>,
    target: Option<Specifier>,
)
    requires
        0 <= i < m.len(),
        variant == Variant::Pinned ==> pinned is Some,
    ensures
        dependency_outcome(variant, m, i, pinned, target).state != InstanceState::Unknown,
{
    reveal(dependency_outcome);
}

/// The outcome leaves the instance with the specifier it has: it keeps it,
/// is given one the same as it, or is given its own with the range of its
/// semver group, which it already has.
pub open spec fn keeps_actual(o: Outcome, inst: InstanceView) -> bool {
    match o.expected {
        Expectation::Keep => true,
        Expectation::Use(s) => s.same_as(inst.actual),
        Expectation::PreferredRange => inst.matches_preferred_range(),
        Expectation::Remove => false,
    }
}

/// Only a fixable instance is asked to change: a valid, suspect, conflicting
/// or unfixable one is left with the specifier it has. (With two local
/// instances of one dependency, the last one's version is what the others
/// should have, so the law assumes one.)
pub proof fn law_only_fixable_instances_change(
    variant: Variant,
    m: Seq<InstanceView>,
    i: int,
    pinned: Option<Specifier>,
    target: Option<Specifier>,
)
    requires
        0 <= i < m.len(),
        variant == Variant::Pinned ==> pinned is Some,
        forall|j: int, k: int| 0 <= j < m.len() && 0 <= k < m.len() && m[j].is_local && m[k].is_local ==> j == k,
    ensures
        !(dependency_outcome(variant, m, i, pinned, target).state is Invalid
            && dependency_outcome(variant, m, i, pinned, target).state->Invalid_0 is Fixable) ==> keeps_actual(
            dependency_outcome(variant, m, i, pinned, target),
            m[i],
        ),
{
    reveal(dependency_outcome);
    crate::dependency::lemma_last_local_bounds(m, m.len() as int);
}

/// The state of a visited dependency is the most severe of its starting
/// state and of what each of its instances calls for.
pub proof fn law_dependency_state_is_the_worst(start: DependencyState, states: Seq<InstanceState>)
    ensures
        crate::dependency::severity(worst(start, states)) >= crate::dependency::severity(start),
        forall|j: int|
            0 <= j < states.len() ==> crate::dependency::severity(worst(start, states))
                >= crate::dependency::severity(state_severity(#[trigger] states[j])),
        worst(start, states) == start || exists|j: int|
            0 <= j < states.len() && worst(start, states) == state_severity(#[trigger] states[j]),
    decreases states.len(),
{
    if states.len() > 0 {
        let rest = states.drop_last();
        law_dependency_state_is_the_worst(start, rest);
        assert forall|j: int| 0 <= j < states.len() implies crate::dependency::severity(worst(start, states))
            >= crate::dependency::severity(state_severity(#[trigger] states[j])) by {
            if j < rest.len() {
                assert(rest[j] == states[j]);
            }
        }
        if worst(start, states) != start {
            if worst(start, states) == state_severity(states.last()) {
                assert(states[states.len() - 1] == states.last());
            } else {
                let j = choose|j: int| 0 <= j < rest.len() && worst(start, rest) == state_severity(#[trigger] rest[j]);
                assert(rest[j] == states[j]);
            }
        }
    }
}

/// A dependency is invalid once one of its instances is found invalid
/// (a fixable or unfixable mismatch or a conflict), unless that instance is
/// only a pinned version overriding its semver range, which warns.
pub proof fn law_an_invalid_instance_makes_the_dependency_invalid(
    start: DependencyState,
    states: Seq<InstanceState>,
    j: int,
)
    requires
        0 <= j < states.len(),
        states[j] is Invalid,
        states[j] != InstanceState::Invalid(InvalidInstance::Fixable(FixableInstance::PinMatchOverridesSemverRangeMatch)),
        states[j] != InstanceState::Invalid(
            InvalidInstance::Fixable(FixableInstance::PinMatchOverridesSemverRangeMismatch),
        ),
    ensures
        worst(start, states) == DependencyState::Invalid,
{
    law_dependency_state_is_the_worst(start, states);
    assert(crate::dependency::severity(worst(start, states)) >= crate::dependency::severity(
        state_severity(states[j]),
    ));
}

/// An instance that is suspect, or that matches only by a range its semver
/// group asks for, makes its dependency at least a warning; a dependency
/// none of whose instances is invalid (a pinned version overriding a semver
/// range aside) is not invalid unless it started so; one whose instances
/// all equal what they should be, or are ignored, stays as it started.
pub proof fn law_dependency_warnings(start: DependencyState, states: Seq<InstanceState>)
    ensures
        forall|j: int|
            0 <= j < states.len() && ((#[trigger] states[j]) is Suspect || states[j] == InstanceState::Valid(
                ValidInstance::MatchesLocal,
            ) || states[j] == InstanceState::Valid(ValidInstance::MatchesPreferVersion) || states[j]
                == InstanceState::Valid(ValidInstance::MatchesSnapToVersion)) ==> worst(start, states)
                != DependencyState::Valid,
        start != DependencyState::Invalid && (forall|j: int|
            0 <= j < states.len() && (#[trigger] states[j]) is Invalid ==> states[j] == InstanceState::Invalid(
                InvalidInstance::Fixable(FixableInstance::PinMatchOverridesSemverRangeMatch),
            ) || states[j] == InstanceState::Invalid(
                InvalidInstance::Fixable(FixableInstance::PinMatchOverridesSemverRangeMismatch),
            )) ==> worst(start, states) != DependencyState::Invalid,
        (forall|j: int|
            0 <= j < states.len() ==> (#[trigger] states[j]) == InstanceState::Valid(ValidInstance::Ignored)
                || states[j] == InstanceState::Valid(ValidInstance::ValidLocal) || states[j] == InstanceState::Valid(
                ValidInstance::EqualsLocal,
            ) || states[j] == InstanceState::Valid(ValidInstance::EqualsPreferVersion) || states[j]
                == InstanceState::Valid(ValidInstance::EqualsPin) || states[j] == InstanceState::Valid(
                ValidInstance::EqualsSnapToVersion,
            )) ==> worst(start, states) == start,
    decreases states.len(),
{
    law_dependency_state_is_the_worst(start, states);
    if states.len() > 0 {
        let rest = states.drop_last();
        law_dependency_warnings(start, rest);
        assert forall|j: int| 0 <= j < rest.len() implies rest[j] == states[j] by {}
        assert(states[states.len() - 1] == states.last());
    }
    assert forall|j: int|
        0 <= j < states.len() && ((#[trigger] states[j]) is Suspect || states[j] == InstanceState::Valid(
            ValidInstance::MatchesLocal,
        ) || states[j] == InstanceState::Valid(ValidInstance::MatchesPreferVersion) || states[j]
            == InstanceState::Valid(ValidInstance::MatchesSnapToVersion)) implies worst(start, states)
        != DependencyState::Valid by {
        assert(crate::dependency::severity(worst(start, states)) >= crate::dependency::severity(
            state_severity(states[j]),
        ));
    }
}

} // verus!
