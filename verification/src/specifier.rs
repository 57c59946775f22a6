//! Version specifiers as found in package.json files.

pub mod non_semver;
pub mod orderable;
pub mod parser;
pub mod range_text;
pub mod regexes;
pub mod semver;
pub mod semver_range;
pub mod simple_semver;
pub mod specifier_tree;

use vstd::prelude::*;
use crate::specifier::non_semver::{is_non_semver_kind, NonSemver};
use crate::specifier::parser::{is_simple_kind, parse, parse_kind, sanitised};
use crate::specifier::semver::Semver;
use crate::specifier::simple_semver::{lemma_parse_kind_agrees, SimpleSemver};

verus! {

/// The kinds of specifier that `parser::parse` tells apart.
#[derive(Clone, Copy, Debug, PartialEq, Eq, Structural)]
pub enum SpecifierKind {
    Missing,
    Exact,
    Latest,
    Major,
    Minor,
    Range,
    RangeMajor,
    RangeMinor,
    RangeComplex,
    Alias,
    File,
    Git,
    Tag,
    Unsupported,
    Url,
    WorkspaceProtocol,
}

/// A raw specifier branded with the kind of specifier it is.
#[derive(Clone, Debug)]
pub enum AnySpecifier {
    Missing,
    /// eg. `1.2.3`
    Exact(String),
    /// eg. `*`
    Latest(String),
    /// eg. `1`
    Major(String),
    /// eg. `1.2`
    Minor(String),
    /// eg. `>1.2.3`
    Range(String),
    /// eg. `>1`
    RangeMajor(String),
    /// eg. `^1.2`
    RangeMinor(String),
    /// eg. `>=1.2.3 <2.0.0 || ^3.0.0`
    RangeComplex(String),
    /// eg. `npm:1.2.3`
    Alias(String),
    /// eg. `file:./path/to/package`
    File(String),
    /// eg. `git://github.com/user/repo.git`
    Git(String),
    /// eg. `alpha`
    Tag(String),
    /// eg. `{wh}at[the]fuu`
    Unsupported(String),
    /// eg. `https://example.com`
    Url(String),
    /// eg. `workspace:*`
    WorkspaceProtocol(String),
}

pub open spec fn any_kind(a: AnySpecifier) -> SpecifierKind {
    match a {
        AnySpecifier::Missing => SpecifierKind::Missing,
        AnySpecifier::Exact(_) => SpecifierKind::Exact,
        AnySpecifier::Latest(_) => SpecifierKind::Latest,
        AnySpecifier::Major(_) => SpecifierKind::Major,
        AnySpecifier::Minor(_) => SpecifierKind::Minor,
        AnySpecifier::Range(_) => SpecifierKind::Range,
        AnySpecifier::RangeMajor(_) => SpecifierKind::RangeMajor,
        AnySpecifier::RangeMinor(_) => SpecifierKind::RangeMinor,
        AnySpecifier::RangeComplex(_) => SpecifierKind::RangeComplex,
        AnySpecifier::Alias(_) => SpecifierKind::Alias,
        AnySpecifier::File(_) => SpecifierKind::File,
        AnySpecifier::Git(_) => SpecifierKind::Git,
        AnySpecifier::Tag(_) => SpecifierKind::Tag,
        AnySpecifier::Unsupported(_) => SpecifierKind::Unsupported,
        AnySpecifier::Url(_) => SpecifierKind::Url,
        AnySpecifier::WorkspaceProtocol(_) => SpecifierKind::WorkspaceProtocol,
    }
}

pub open spec fn any_raw(a: AnySpecifier) -> Seq<char> {
    match a {
        AnySpecifier::Missing => Seq::empty(),
        AnySpecifier::Exact(s) => s@,
        AnySpecifier::Latest(s) => s@,
        AnySpecifier::Major(s) => s@,
        AnySpecifier::Minor(s) => s@,
        AnySpecifier::Range(s) => s@,
        AnySpecifier::RangeMajor(s) => s@,
        AnySpecifier::RangeMinor(s) => s@,
        AnySpecifier::RangeComplex(s) => s@,
        AnySpecifier::Alias(s) => s@,
        AnySpecifier::File(s) => s@,
        AnySpecifier::Git(s) => s@,
        AnySpecifier::Tag(s) => s@,
        AnySpecifier::Unsupported(s) => s@,
        AnySpecifier::Url(s) => s@,
        AnySpecifier::WorkspaceProtocol(s) => s@,
    }
}

/// A version specifier as found in a package.json file.
#[derive(Clone, Debug, PartialEq, Eq, Hash)]
pub enum Specifier {
    /// No specifier was found
    Missing,
    Semver(Semver),
    NonSemver(NonSemver),
}

/// The kind of specifier `Specifier::new` gives a string.
pub open spec fn new_kind(s: Seq<char>) -> SpecifierKind {
    if s.len() == 0 {
        SpecifierKind::Missing
    } else {
        parse_kind(sanitised(s), false)
    }
}

/// The name of each kind of specifier as used in config files.
pub open spec fn config_identifier(k: SpecifierKind) -> Seq<char> {
    match k {
        SpecifierKind::Exact => "exact"@,
        SpecifierKind::Latest => "latest"@,
        SpecifierKind::Major => "major"@,
        SpecifierKind::Minor => "minor"@,
        SpecifierKind::Range => "range"@,
        SpecifierKind::RangeMajor => "range-major"@,
        SpecifierKind::RangeMinor => "range-minor"@,
        SpecifierKind::RangeComplex => "range-complex"@,
        SpecifierKind::Alias => "alias"@,
        SpecifierKind::File => "file"@,
        SpecifierKind::Git => "git"@,
        SpecifierKind::Tag => "tag"@,
        SpecifierKind::Url => "url"@,
        SpecifierKind::WorkspaceProtocol => "workspace-protocol"@,
        SpecifierKind::Unsupported => "unsupported"@,
        SpecifierKind::Missing => "missing"@,
    }
}

/// What a missing specifier is written as.
pub open spec fn missing_text() -> Seq<char> {
    "VERSION_IS_MISSING"@
}

impl Specifier {
    /// The kind of specifier.
    pub open spec fn kind(self) -> SpecifierKind {
        match self {
            Specifier::Missing => SpecifierKind::Missing,
            Specifier::Semver(v) => v.kind(),
            Specifier::NonSemver(n) => n.kind(),
        }
    }

    /// The raw specifier string; empty when it is missing.
    pub open spec fn raw(self) -> Seq<char> {
        match self {
            Specifier::Missing => Seq::empty(),
            Specifier::Semver(v) => v.raw(),
            Specifier::NonSemver(n) => n.raw(),
        }
    }

    /// The string a specifier is written as.
    pub open spec fn text(self) -> Seq<char> {
        match self {
            Specifier::Missing => missing_text(),
            _ => self.raw(),
        }
    }

    /// The kind of a specifier is the kind `parse` gives its raw string.
    pub open spec fn wf(self) -> bool {
        match self {
            Specifier::Missing => true,
            Specifier::Semver(Semver::Simple(v)) => v.wf(),
            Specifier::Semver(Semver::Complex(s)) => parse_kind(s@, false) == SpecifierKind::RangeComplex,
            Specifier::NonSemver(n) => parse_kind(n.raw(), false) == n.kind(),
        }
    }

    /// Two specifiers of the same kind with the same raw string.
    pub open spec fn same_as(self, other: Specifier) -> bool {
        self.kind() == other.kind() && self.raw() == other.raw()
    }

    /// The simple semver specifier, when this is one.
    pub open spec fn simple(self) -> Option<SimpleSemver> {
        match self {
            Specifier::Semver(Semver::Simple(v)) => Some(v),
            _ => None,
        }
    }

    /// Brand a parsed specifier.
    pub fn from_parsed(parsed: AnySpecifier) -> (r: Specifier)
        requires
            any_kind(parsed) != SpecifierKind::Missing ==> parse_kind(any_raw(parsed), false) == any_kind(parsed),
        ensures
            r.kind() == any_kind(parsed),
            r.raw() == any_raw(parsed),
            r.wf(),
    {
        proof {
            lemma_parse_kind_agrees(any_raw(parsed), false);
            crate::specifier::parser::lemma_parse_kind_simple(any_raw(parsed));
        }
        match parsed {
            AnySpecifier::Missing => Specifier::Missing,
            AnySpecifier::Exact(s) => Specifier::Semver(Semver::Simple(SimpleSemver::Exact(s))),
            AnySpecifier::Latest(s) => Specifier::Semver(Semver::Simple(SimpleSemver::Latest(s))),
            AnySpecifier::Major(s) => Specifier::Semver(Semver::Simple(SimpleSemver::Major(s))),
            AnySpecifier::Minor(s) => Specifier::Semver(Semver::Simple(SimpleSemver::Minor(s))),
            AnySpecifier::Range(s) => Specifier::Semver(Semver::Simple(SimpleSemver::Range(s))),
            AnySpecifier::RangeMajor(s) => Specifier::Semver(Semver::Simple(SimpleSemver::RangeMajor(s))),
            AnySpecifier::RangeMinor(s) => Specifier::Semver(Semver::Simple(SimpleSemver::RangeMinor(s))),
            AnySpecifier::RangeComplex(s) => Specifier::Semver(Semver::Complex(s)),
            AnySpecifier::Alias(s) => Specifier::NonSemver(NonSemver::Alias(s)),
            AnySpecifier::File(s) => Specifier::NonSemver(NonSemver::File(s)),
            AnySpecifier::Git(s) => Specifier::NonSemver(NonSemver::Git(s)),
            AnySpecifier::Tag(s) => Specifier::NonSemver(NonSemver::Tag(s)),
            AnySpecifier::Unsupported(s) => Specifier::NonSemver(NonSemver::Unsupported(s)),
            AnySpecifier::Url(s) => Specifier::NonSemver(NonSemver::Url(s)),
            AnySpecifier::WorkspaceProtocol(s) => Specifier::NonSemver(NonSemver::WorkspaceProtocol(s)),
        }
    }

    /// Read a raw specifier: empty is missing, anything else is classified
    /// by `parser::parse` ("latest" and "x" are read as "*").
    pub fn new(specifier: &str) -> (r: Specifier)
        ensures
            r.wf(),
            r.kind() == new_kind(specifier@),
            r.kind() != SpecifierKind::Missing ==> r.raw() == sanitised(specifier@),
    {
        if specifier.unicode_len() == 0 {
            return Specifier::Missing;
        }
        let string = String::from_str(specifier);
        let parsed = parse(&string, false);
        Specifier::from_parsed(parsed)
    }

    /// Get the `specifier_type` name as used in config files.
    pub fn get_config_identifier(&self) -> (r: String)
        ensures
            r@ == config_identifier(self.kind()),
    {
        let s = match self {
            Specifier::Semver(Semver::Simple(SimpleSemver::Exact(_))) => "exact",
            Specifier::Semver(Semver::Simple(SimpleSemver::Latest(_))) => "latest",
            Specifier::Semver(Semver::Simple(SimpleSemver::Major(_))) => "major",
            Specifier::Semver(Semver::Simple(SimpleSemver::Minor(_))) => "minor",
            Specifier::Semver(Semver::Simple(SimpleSemver::Range(_))) => "range",
            Specifier::Semver(Semver::Simple(SimpleSemver::RangeMajor(_))) => "range-major",
            Specifier::Semver(Semver::Simple(SimpleSemver::RangeMinor(_))) => "range-minor",
            Specifier::Semver(Semver::Complex(_)) => "range-complex",
            Specifier::NonSemver(NonSemver::Alias(_)) => "alias",
            Specifier::NonSemver(NonSemver::File(_)) => "file",
            Specifier::NonSemver(NonSemver::Git(_)) => "git",
            Specifier::NonSemver(NonSemver::Tag(_)) => "tag",
            Specifier::NonSemver(NonSemver::Url(_)) => "url",
            Specifier::NonSemver(NonSemver::WorkspaceProtocol(_)) => "workspace-protocol",
            Specifier::NonSemver(NonSemver::Unsupported(_)) => "unsupported",
            Specifier::Missing => "missing",
        };
        String::from_str(s)
    }

    /// Get the raw string value of the specifier, eg "^1.4.1"
    pub fn unwrap(&self) -> (r: String)
        ensures
            r@ == self.text(),
    {
        match self {
            Specifier::Semver(Semver::Simple(v)) => v.unwrap(),
            Specifier::Semver(Semver::Complex(s)) => s.clone(),
            Specifier::NonSemver(NonSemver::Alias(s)) => s.clone(),
            Specifier::NonSemver(NonSemver::File(s)) => s.clone(),
            Specifier::NonSemver(NonSemver::Git(s)) => s.clone(),
            Specifier::NonSemver(NonSemver::Tag(s)) => s.clone(),
            Specifier::NonSemver(NonSemver::Url(s)) => s.clone(),
            Specifier::NonSemver(NonSemver::WorkspaceProtocol(s)) => s.clone(),
            Specifier::NonSemver(NonSemver::Unsupported(s)) => s.clone(),
            Specifier::Missing => String::from_str("VERSION_IS_MISSING"),
        }
    }

    /// Is this an exact version such as "1.2.3"?
    pub fn get_config_identifier_is_exact(&self) -> (r: bool)
        ensures
            r == (self.kind() == SpecifierKind::Exact),
    {
        matches!(self, Specifier::Semver(Semver::Simple(SimpleSemver::Exact(_))))
    }

    /// Is this specifier semver, without &&s or ||s?
    pub fn is_simple_semver(&self) -> (r: bool)
        ensures
            r == (self.simple() is Some),
            r == is_simple_kind(self.kind()),
    {
        matches!(self, Specifier::Semver(Semver::Simple(_)))
    }

    /// If this specifier is a simple semver, return it
    pub fn get_simple_semver(&self) -> (r: Option<SimpleSemver>)
        ensures
            r == self.simple(),
    {
        match self {
            Specifier::Semver(Semver::Simple(v)) => Some(v.duplicate()),
            _ => None,
        }
    }

    /// A copy of this specifier.
    pub fn duplicate(&self) -> (r: Specifier)
        ensures
            r == *self,
    {
        match self {
            Specifier::Missing => Specifier::Missing,
            Specifier::Semver(Semver::Simple(v)) => Specifier::Semver(Semver::Simple(v.duplicate())),
            Specifier::Semver(Semver::Complex(s)) => Specifier::Semver(Semver::Complex(s.clone())),
            Specifier::NonSemver(n) => Specifier::NonSemver(n.duplicate()),
        }
    }

    /// Are the two specifiers of the same kind with the same raw string?
    pub fn equals(&self, other: &Specifier) -> (r: bool)
        ensures
            r == self.same_as(*other),
    {
        let same_kind = match (self, other) {
            (Specifier::Missing, Specifier::Missing) => true,
            (Specifier::Semver(Semver::Simple(SimpleSemver::Exact(_))), Specifier::Semver(Semver::Simple(SimpleSemver::Exact(_)))) => true,
            (Specifier::Semver(Semver::Simple(SimpleSemver::Latest(_))), Specifier::Semver(Semver::Simple(SimpleSemver::Latest(_)))) => true,
            (Specifier::Semver(Semver::Simple(SimpleSemver::Major(_))), Specifier::Semver(Semver::Simple(SimpleSemver::Major(_)))) => true,
            (Specifier::Semver(Semver::Simple(SimpleSemver::Minor(_))), Specifier::Semver(Semver::Simple(SimpleSemver::Minor(_)))) => true,
            (Specifier::Semver(Semver::Simple(SimpleSemver::Range(_))), Specifier::Semver(Semver::Simple(SimpleSemver::Range(_)))) => true,
            (Specifier::Semver(Semver::Simple(SimpleSemver::RangeMajor(_))), Specifier::Semver(Semver::Simple(SimpleSemver::RangeMajor(_)))) => true,
            (Specifier::Semver(Semver::Simple(SimpleSemver::RangeMinor(_))), Specifier::Semver(Semver::Simple(SimpleSemver::RangeMinor(_)))) => true,
            (Specifier::Semver(Semver::Complex(_)), Specifier::Semver(Semver::Complex(_))) => true,
            (Specifier::NonSemver(NonSemver::Alias(_)), Specifier::NonSemver(NonSemver::Alias(_))) => true,
            (Specifier::NonSemver(NonSemver::File(_)), Specifier::NonSemver(NonSemver::File(_))) => true,
            (Specifier::NonSemver(NonSemver::Git(_)), Specifier::NonSemver(NonSemver::Git(_))) => true,
            (Specifier::NonSemver(NonSemver::Tag(_)), Specifier::NonSemver(NonSemver::Tag(_))) => true,
            (Specifier::NonSemver(NonSemver::Url(_)), Specifier::NonSemver(NonSemver::Url(_))) => true,
            (Specifier::NonSemver(NonSemver::WorkspaceProtocol(_)), Specifier::NonSemver(NonSemver::WorkspaceProtocol(_))) => true,
            (Specifier::NonSemver(NonSemver::Unsupported(_)), Specifier::NonSemver(NonSemver::Unsupported(_))) => true,
            _ => false,
        };
        if !same_kind {
            return false;
        }
        match (self, other) {
            (Specifier::Missing, Specifier::Missing) => true,
            _ => {
                let a = self.unwrap();
                let b = other.unwrap();
                crate::text::str_is(a.as_str(), b.as_str())
            },
        }
    }
}

} // verus!
