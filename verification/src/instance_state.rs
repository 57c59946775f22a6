//! What linting found out about one instance of a dependency.

use vstd::prelude::*;
use vstd::std_specs::cmp::PartialEqSpecImpl;
use crate::specifier::orderable::{compare_ints, Comparison};

verus! {

/// Two states are equal when they are equally severe (see `severity_rank`).
#[derive(Clone, Copy, Debug)]
pub enum InstanceState {
    Unknown,
    Valid(ValidInstance),
    Invalid(InvalidInstance),
    Suspect(SuspectInstance),
}

#[derive(Clone, Copy, Debug, PartialEq, Eq, Hash, Structural)]
pub enum ValidInstance {
    /// - ✓ Instance is configured to be ignored by Syncpack
    Ignored,
    /// - ✓ Instance is a local package and its version is valid
    ValidLocal,
    /// - ✓ Instance identical to the version of its locally-developed package
    /// - ✓ Instance matches its semver group
    EqualsLocal,
    /// - ✓ Instance matches the version of its locally-developed package
    /// - ✓ Instance matches its semver group
    /// - ! Considered a loose match we should highlight
    MatchesLocal,
    /// - ✓ Instance identical to highest/lowest semver in its group
    /// - ✓ Instance matches its semver group
    EqualsPreferVersion,
    /// - ✓ Instance has same semver number as highest/lowest semver in its group
    /// - ✓ Instance matches its semver group
    /// - ✓ Range preferred by semver group satisfies the highest/lowest semver
    /// - ! Considered a loose match we should highlight
    MatchesPreferVersion,
    /// - ! No Instances are simple semver
    /// - ✓ Instance identical to every other instance in its version group
    EqualsNonSemverPreferVersion,
    /// - ✓ Instance identical to its pinned version group
    /// - ✓ Instance matches its semver group
    EqualsPin,
    /// - ✓ Instance matches its same range group
    /// - ✓ Instance matches its semver group
    MatchesSameRangeGroup,
    /// - ✓ Instance identical to a matching snapTo instance
    /// - ✓ Instance matches its semver group
    EqualsSnapToVersion,
    /// - ✓ Instance has same semver number as matching snapTo instance
    /// - ✓ Instance matches its semver group
    /// - ✓ Range preferred by semver group satisfies the matching snapTo instance
    /// - ! Considered a loose match we should highlight
    MatchesSnapToVersion,
}

#[derive(Clone, Copy, Debug, PartialEq, Eq, Hash, Structural)]
pub enum InvalidInstance {
    Fixable(FixableInstance),
    Unfixable(UnfixableInstance),
    Conflict(SemverGroupAndVersionConflict),
}

#[derive(Clone, Copy, Debug, PartialEq, Eq, Hash, Structural)]
pub enum FixableInstance {
    /// - ✘ Instance is in a banned version group
    Banned,
    /// - ✘ Instance mismatches the version of its locally-developed package
    MismatchesLocal,
    /// - ✘ Instance mismatches highest/lowest semver in its group
    MismatchesPreferVersion,
    /// - ✘ Instance mismatches the matching snapTo instance
    MismatchesSnapToVersion,
    /// - ✘ Instance mismatches its pinned version group
    MismatchesPin,
    /// - ✓ Instance has same semver number as highest/lowest semver in its group
    /// - ✘ Instance mismatches its semver group
    /// - ✓ Range preferred by semver group satisfies the highest/lowest semver
    /// - ✓ Fixing the semver range satisfy both groups
    SemverRangeMismatch,
    /// - ✓ Instance has same semver number as its pinned version group
    /// - ✓ Instance matches its semver group
    /// - ! The semver group requires a range which is different to the pinned version
    /// - ! Pinned version wins
    PinMatchOverridesSemverRangeMatch,
    /// - ✓ Instance has same semver number as its pinned version group
    /// - ✘ Instance mismatches its semver group
    /// - ! The semver group requires a range which is different to the pinned version
    /// - ! Pinned version wins
    PinMatchOverridesSemverRangeMismatch,
}

#[derive(Clone, Copy, Debug, PartialEq, Eq, Hash, Structural)]
pub enum UnfixableInstance {
    /// - ✘ Instance depends on a local package whose package.json version is not exact semver
    /// - ? We can't know what the version should be
    MismatchesInvalidLocalVersion,
    /// - ✘ Instance mismatches others in its group
    /// - ✘ One or more Instances are not simple semver
    /// - ? We can't know what's right or what isn't
    MismatchesNonSemverPreferVersion,
    /// - ✘ Instance mismatches its same range group
    /// - ? Instance has no semver group
    /// - ? We can't know what range the user wants and have to ask them
    MismatchesSameRangeGroup,
    /// - ✓ Instance is in a snapped to version group
    /// - ✘ An instance of the same dependency was not found in any of the snapped
    ///     to packages
    /// - ✘ This is a misconfiguration resulting in this instance being orphaned
    SnapToVersionNotFound,
}

#[derive(Clone, Copy, Debug, PartialEq, Eq, Hash, Structural)]
pub enum SemverGroupAndVersionConflict {
    /// - ✓ Instance has same semver number as highest/lowest semver in its group
    /// - ✓ Instance matches its semver group
    /// - ✘ Range preferred by semver group will not satisfy the highest/lowest semver
    /// - ? We can't know whether the incompatible range matters or not and have to ask
    MatchConflictsWithPrefer,
    /// - ✓ Instance has same semver number as highest/lowest semver in its group
    /// - ✘ Instance mismatches its semver group
    /// - ✘ Range preferred by semver group will not satisfy the highest/lowest semver
    /// - ? We can't know whether the incompatible range matters or not and have to ask
    MismatchConflictsWithPrefer,
    /// - ✓ Instance has same semver number as the matching snapTo instance
    /// - ✓ Instance matches its semver group
    /// - ✘ Range preferred by semver group will not satisfy the matching snapTo instance
    /// - ? We can't know whether the incompatible range matters or not and have to ask
    MatchConflictsWithSnapTo,
    /// - ✓ Instance has same semver number as the matching snapTo instance
    /// - ✘ Instance mismatches its semver group
    /// - ✘ Range preferred by semver group will not satisfy the matching snapTo instance
    /// - ? We can't know whether the incompatible range matters or not and have to ask
    MismatchConflictsWithSnapTo,
    /// - ✓ Instance has same semver number as local instance in its group
    /// - ✓ Instance matches its semver group
    /// - ✘ Range preferred by semver group will not satisfy the local instance
    /// - ? We can't know whether the incompatible range matters or not and have to ask
    MatchConflictsWithLocal,
    /// - ✓ Instance has same semver number as local instance
    /// - ✘ Instance mismatches its semver group
    /// - ✘ Range preferred by semver group will not satisfy the local instance
    /// - ? We can't know whether the incompatible range matters or not and have to ask
    MismatchConflictsWithLocal,
}

#[derive(Clone, Copy, Debug, PartialEq, Eq, Hash, Structural)]
pub enum SuspectInstance {
    /// - ✘ Local Instance is in a banned version group
    /// - ✘ Misconfiguration: Syncpack refuses to change local dependency specifiers
    RefuseToBanLocal,
    /// - ✘ Local Instance mismatches its pinned version group
    /// - ✘ Misconfiguration: Syncpack refuses to change local dependency specifiers
    RefuseToPinLocal,
    /// - ✘ Local Instance is in a snapped to version group
    /// - ✘ An Instance of this dependency was found in the snapped to package
    /// - ✘ Misconfiguration: Syncpack refuses to change local dependency specifiers
    RefuseToSnapLocal,
    /// - ! Local Instance has no version property
    /// - ! Not an error on its own unless an instance of it mismatches
    InvalidLocalVersion,
}

/// The rank of a state in the order of severity: unknown, valid, suspect,
/// invalid.
pub open spec fn severity_rank(s: InstanceState) -> int {
    match s {
        InstanceState::Unknown => 0,
        InstanceState::Valid(_) => 1,
        InstanceState::Suspect(_) => 2,
        InstanceState::Invalid(_) => 3,
    }
}

/// The name of the variant a state holds.
pub open spec fn state_name(s: InstanceState) -> Seq<char> {
    match s {
        InstanceState::Unknown => "Unknown"@,
        InstanceState::Valid(v) => match v {
            ValidInstance::Ignored => "Ignored"@,
            ValidInstance::ValidLocal => "ValidLocal"@,
            ValidInstance::EqualsLocal => "EqualsLocal"@,
            ValidInstance::MatchesLocal => "MatchesLocal"@,
            ValidInstance::EqualsPreferVersion => "EqualsPreferVersion"@,
            ValidInstance::MatchesPreferVersion => "MatchesPreferVersion"@,
            ValidInstance::EqualsNonSemverPreferVersion => "EqualsNonSemverPreferVersion"@,
            ValidInstance::EqualsPin => "EqualsPin"@,
            ValidInstance::MatchesSameRangeGroup => "MatchesSameRangeGroup"@,
            ValidInstance::EqualsSnapToVersion => "EqualsSnapToVersion"@,
            ValidInstance::MatchesSnapToVersion => "MatchesSnapToVersion"@,
        },
        InstanceState::Invalid(InvalidInstance::Fixable(v)) => match v {
            FixableInstance::Banned => "Banned"@,
            FixableInstance::MismatchesLocal => "MismatchesLocal"@,
            FixableInstance::MismatchesPreferVersion => "MismatchesPreferVersion"@,
            FixableInstance::MismatchesSnapToVersion => "MismatchesSnapToVersion"@,
            FixableInstance::MismatchesPin => "MismatchesPin"@,
            FixableInstance::SemverRangeMismatch => "SemverRangeMismatch"@,
            FixableInstance::PinMatchOverridesSemverRangeMatch => "PinMatchOverridesSemverRangeMatch"@,
            FixableInstance::PinMatchOverridesSemverRangeMismatch => "PinMatchOverridesSemverRangeMismatch"@,
        },
        InstanceState::Invalid(InvalidInstance::Unfixable(v)) => match v {
            UnfixableInstance::MismatchesInvalidLocalVersion => "MismatchesInvalidLocalVersion"@,
            UnfixableInstance::MismatchesNonSemverPreferVersion => "MismatchesNonSemverPreferVersion"@,
            UnfixableInstance::MismatchesSameRangeGroup => "MismatchesSameRangeGroup"@,
            UnfixableInstance::SnapToVersionNotFound => "SnapToVersionNotFound"@,
        },
        InstanceState::Invalid(InvalidInstance::Conflict(v)) => match v {
            SemverGroupAndVersionConflict::MatchConflictsWithPrefer => "MatchConflictsWithPrefer"@,
            SemverGroupAndVersionConflict::MismatchConflictsWithPrefer => "MismatchConflictsWithPrefer"@,
            SemverGroupAndVersionConflict::MatchConflictsWithSnapTo => "MatchConflictsWithSnapTo"@,
            SemverGroupAndVersionConflict::MismatchConflictsWithSnapTo => "MismatchConflictsWithSnapTo"@,
            SemverGroupAndVersionConflict::MatchConflictsWithLocal => "MatchConflictsWithLocal"@,
            SemverGroupAndVersionConflict::MismatchConflictsWithLocal => "MismatchConflictsWithLocal"@,
        },
        InstanceState::Suspect(v) => match v {
            SuspectInstance::RefuseToBanLocal => "RefuseToBanLocal"@,
            SuspectInstance::RefuseToPinLocal => "RefuseToPinLocal"@,
            SuspectInstance::RefuseToSnapLocal => "RefuseToSnapLocal"@,
            SuspectInstance::InvalidLocalVersion => "InvalidLocalVersion"@,
        },
    }
}

impl PartialEq for InstanceState {
    fn eq(&self, other: &Self) -> (r: bool) {
        match self.compare_severity(other) {
            Comparison::Equal => true,
            _ => false,
        }
    }
}

impl PartialEqSpecImpl for InstanceState {
    open spec fn obeys_eq_spec() -> bool {
        true
    }

    open spec fn eq_spec(&self, other: &Self) -> bool {
        severity_rank(*self) == severity_rank(*other)
    }
}

impl Eq for InstanceState {
}

impl InstanceState {
    pub fn valid(state: ValidInstance) -> (r: InstanceState)
        ensures
            r == InstanceState::Valid(state),
    {
        InstanceState::Valid(state)
    }

    pub fn suspect(state: SuspectInstance) -> (r: InstanceState)
        ensures
            r == InstanceState::Suspect(state),
    {
        InstanceState::Suspect(state)
    }

    pub fn fixable(state: FixableInstance) -> (r: InstanceState)
        ensures
            r == InstanceState::Invalid(InvalidInstance::Fixable(state)),
    {
        InstanceState::Invalid(InvalidInstance::Fixable(state))
    }

    pub fn conflict(state: SemverGroupAndVersionConflict) -> (r: InstanceState)
        ensures
            r == InstanceState::Invalid(InvalidInstance::Conflict(state)),
    {
        InstanceState::Invalid(InvalidInstance::Conflict(state))
    }

    pub fn unfixable(state: UnfixableInstance) -> (r: InstanceState)
        ensures
            r == InstanceState::Invalid(InvalidInstance::Unfixable(state)),
    {
        InstanceState::Invalid(InvalidInstance::Unfixable(state))
    }

    /// Compare by severity only: unknown, then valid, then suspect, then
    /// invalid; two states of the same category compare equal.
    pub fn compare_severity(&self, other: &InstanceState) -> (r: Comparison)
        ensures
            r == compare_ints(severity_rank(*self), severity_rank(*other)),
    {
        let a: u8 = match self {
            InstanceState::Unknown => 0,
            InstanceState::Valid(_) => 1,
            InstanceState::Suspect(_) => 2,
            InstanceState::Invalid(_) => 3,
        };
        let b: u8 = match other {
            InstanceState::Unknown => 0,
            InstanceState::Valid(_) => 1,
            InstanceState::Suspect(_) => 2,
            InstanceState::Invalid(_) => 3,
        };
        if a < b {
            Comparison::Less
        } else if a == b {
            Comparison::Equal
        } else {
            Comparison::Greater
        }
    }

    /// The name of the variant this state holds, eg. "EqualsLocal".
    pub fn get_name(&self) -> (r: String)
        ensures
            r@ == state_name(*self),
    {
        let s = match self {
            InstanceState::Unknown => "Unknown",
            InstanceState::Valid(v) => match v {
                ValidInstance::Ignored => "Ignored",
                ValidInstance::ValidLocal => "ValidLocal",
                ValidInstance::EqualsLocal => "EqualsLocal",
                ValidInstance::MatchesLocal => "MatchesLocal",
                ValidInstance::EqualsPreferVersion => "EqualsPreferVersion",
                ValidInstance::MatchesPreferVersion => "MatchesPreferVersion",
                ValidInstance::EqualsNonSemverPreferVersion => "EqualsNonSemverPreferVersion",
                ValidInstance::EqualsPin => "EqualsPin",
                ValidInstance::MatchesSameRangeGroup => "MatchesSameRangeGroup",
                ValidInstance::EqualsSnapToVersion => "EqualsSnapToVersion",
                ValidInstance::MatchesSnapToVersion => "MatchesSnapToVersion",
            },
            InstanceState::Invalid(InvalidInstance::Fixable(v)) => match v {
                FixableInstance::Banned => "Banned",
                FixableInstance::MismatchesLocal => "MismatchesLocal",
                FixableInstance::MismatchesPreferVersion => "MismatchesPreferVersion",
                FixableInstance::MismatchesSnapToVersion => "MismatchesSnapToVersion",
                FixableInstance::MismatchesPin => "MismatchesPin",
                FixableInstance::SemverRangeMismatch => "SemverRangeMismatch",
                FixableInstance::PinMatchOverridesSemverRangeMatch => "PinMatchOverridesSemverRangeMatch",
                FixableInstance::PinMatchOverridesSemverRangeMismatch => "PinMatchOverridesSemverRangeMismatch",
            },
            InstanceState::Invalid(InvalidInstance::Unfixable(v)) => match v {
                UnfixableInstance::MismatchesInvalidLocalVersion => "MismatchesInvalidLocalVersion",
                UnfixableInstance::MismatchesNonSemverPreferVersion => "MismatchesNonSemverPreferVersion",
                UnfixableInstance::MismatchesSameRangeGroup => "MismatchesSameRangeGroup",
                UnfixableInstance::SnapToVersionNotFound => "SnapToVersionNotFound",
            },
            InstanceState::Invalid(InvalidInstance::Conflict(v)) => match v {
                SemverGroupAndVersionConflict::MatchConflictsWithPrefer => "MatchConflictsWithPrefer",
                SemverGroupAndVersionConflict::MismatchConflictsWithPrefer => "MismatchConflictsWithPrefer",
                SemverGroupAndVersionConflict::MatchConflictsWithSnapTo => "MatchConflictsWithSnapTo",
                SemverGroupAndVersionConflict::MismatchConflictsWithSnapTo => "MismatchConflictsWithSnapTo",
                SemverGroupAndVersionConflict::MatchConflictsWithLocal => "MatchConflictsWithLocal",
                SemverGroupAndVersionConflict::MismatchConflictsWithLocal => "MismatchConflictsWithLocal",
            },
            InstanceState::Suspect(v) => match v {
                SuspectInstance::RefuseToBanLocal => "RefuseToBanLocal",
                SuspectInstance::RefuseToPinLocal => "RefuseToPinLocal",
                SuspectInstance::RefuseToSnapLocal => "RefuseToSnapLocal",
                SuspectInstance::InvalidLocalVersion => "InvalidLocalVersion",
            },
        };
        String::from_str(s)
    }
}

} // verus!
