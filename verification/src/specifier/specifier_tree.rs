use vstd::prelude::*;
use crate::specifier::{AnySpecifier, SpecifierKind, any_kind, any_raw};
use crate::specifier::non_semver::{is_non_semver_kind, NonSemver};
use crate::specifier::parser::{is_simple_kind, sanitised, spec_complex_range};
use crate::specifier::regexes::spec_simple_semver;
use crate::specifier::semver::{lemma_simple_kind_of_simple, Semver};

verus! {

/// A parsed specifier sorted into semver and non-semver, keeping its string.
#[derive(Clone, Debug)]
pub enum SpecifierTree {
    Semver(Semver),
    NonSemver(NonSemver),
    Missing,
}

/// Is this kind one of the semver kinds, simple or complex?
pub open spec fn is_semver_kind(k: SpecifierKind) -> bool {
    is_simple_kind(k) || k == SpecifierKind::RangeComplex
}

impl SpecifierTree {
    /// Sort a parsed specifier. One of a semver kind must hold a simple
    /// semver string or a complex range, as `Semver::new` asks.
    pub fn new(specifier: &AnySpecifier) -> (r: SpecifierTree)
        requires
            is_semver_kind(any_kind(*specifier)) ==> spec_simple_semver(sanitised(any_raw(*specifier)))
                || spec_complex_range(sanitised(any_raw(*specifier))),
        ensures
            match r {
                SpecifierTree::Semver(v) => {
                    &&& is_semver_kind(any_kind(*specifier))
                    &&& v.raw() == sanitised(any_raw(*specifier))
                    &&& (v is Simple) == spec_simple_semver(sanitised(any_raw(*specifier)))
                },
                SpecifierTree::NonSemver(n) => {
                    &&& is_non_semver_kind(any_kind(*specifier))
                    &&& n.kind() == any_kind(*specifier)
                    &&& n.raw() == any_raw(*specifier)
                },
                SpecifierTree::Missing => any_kind(*specifier) == SpecifierKind::Missing,
            },
    {
        match specifier {
            AnySpecifier::Exact(s) | AnySpecifier::Latest(s) | AnySpecifier::Major(s)
            | AnySpecifier::Minor(s) | AnySpecifier::Range(s) | AnySpecifier::RangeMajor(s)
            | AnySpecifier::RangeMinor(s) | AnySpecifier::RangeComplex(s) => {
                let v = Semver::new(s);
                proof {
                    lemma_simple_kind_of_simple(sanitised(s@));
                }
                SpecifierTree::Semver(v)
            },
            AnySpecifier::Alias(_) | AnySpecifier::File(_) | AnySpecifier::Git(_)
            | AnySpecifier::Tag(_) | AnySpecifier::Unsupported(_) | AnySpecifier::Url(_)
            | AnySpecifier::WorkspaceProtocol(_) => SpecifierTree::NonSemver(NonSemver::new(specifier)),
            AnySpecifier::Missing => SpecifierTree::Missing,
        }
    }

    pub fn is_simple_semver(&self) -> (r: bool)
        ensures
            r == (self matches SpecifierTree::Semver(Semver::Simple(_))),
    {
        matches!(self, SpecifierTree::Semver(Semver::Simple(_)))
    }
}

} // verus!
