//! The outcome codes that each kind of version group reports for a dependency.

use vstd::prelude::*;

verus! {

#[derive(Clone, Copy, Debug, PartialEq, Eq, Structural)]
pub enum BannedVersionGroupStatusCode {
    Banned,
}

#[derive(Clone, Copy, Debug, PartialEq, Eq, Structural)]
pub enum IgnoredVersionGroupStatusCode {
    Ignored,
}

#[derive(Clone, Copy, Debug, PartialEq, Eq, Structural)]
pub enum PinnedVersionGroupStatusCode {
    PinnedMismatch,
    Valid,
}

#[derive(Clone, Copy, Debug, PartialEq, Eq, Structural)]
pub enum SameRangeVersionGroupStatusCode {
    SameRangeMismatch,
    Valid,
}

#[derive(Clone, Copy, Debug, PartialEq, Eq, Structural)]
pub enum SnappedToVersionGroupStatusCode {
    MissingSnappedToMismatch,
    SnappedToMismatch,
    Valid,
}

#[derive(Clone, Copy, Debug, PartialEq, Eq, Structural)]
pub enum StandardVersionGroupStatusCode {
    HighestSemverMismatch,
    LocalPackageMismatch,
    LowestSemverMismatch,
    MissingLocalVersion,
    SemverRangeMismatch,
    UnsupportedMismatch,
    Valid,
}

} // verus!
