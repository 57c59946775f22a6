//! Semver specifiers: simple ones and complex ranges.

use vstd::prelude::*;
use crate::specifier::SpecifierKind;
use crate::specifier::parser::{is_complex_range, sanitise, sanitised, spec_complex_range};
use crate::specifier::regexes::spec_simple_semver;
use crate::specifier::simple_semver::{simple_kind_of, SimpleSemver};

verus! {

#[derive(Clone, Debug, PartialEq, Eq, Hash)]
pub enum Semver {
    Simple(SimpleSemver),
    Complex(String),
}

/// `simple_kind_of` finds a kind exactly for simple semver strings.
pub proof fn lemma_simple_kind_of_simple(s: Seq<char>)
    ensures
        (simple_kind_of(s) is Some) == spec_simple_semver(s),
{
}

impl Semver {
    /// The raw specifier string.
    pub open spec fn raw(self) -> Seq<char> {
        match self {
            Semver::Simple(v) => v.raw(),
            Semver::Complex(s) => s@,
        }
    }

    /// The kind of specifier this value stands for.
    pub open spec fn kind(self) -> SpecifierKind {
        match self {
            Semver::Simple(v) => v.kind(),
            Semver::Complex(_) => SpecifierKind::RangeComplex,
        }
    }

    /// Classify a semver specifier: a simple one as `SimpleSemver::new`
    /// does, anything else as a complex range. "latest" and "x" are read
    /// as "*".
    pub fn new(specifier: &String) -> (r: Semver)
        requires
            spec_simple_semver(sanitised(specifier@)) || spec_complex_range(sanitised(specifier@)),
        ensures
            r.raw() == sanitised(specifier@),
            (r is Simple) == spec_simple_semver(sanitised(specifier@)),
            match r {
                Semver::Simple(v) => simple_kind_of(sanitised(specifier@)) == Some(v.kind()),
                Semver::Complex(_) => {
                    &&& !spec_simple_semver(sanitised(specifier@))
                    &&& spec_complex_range(sanitised(specifier@))
                },
            },
    {
        match SimpleSemver::new(specifier) {
            Ok(v) => Semver::Simple(v),
            Err(_) => {
                let str = sanitise(specifier);
                proof {
                    lemma_simple_kind_of_simple(sanitised(specifier@));
                }
                Semver::Complex(String::from_str(str))
            },
        }
    }
}

} // verus!
