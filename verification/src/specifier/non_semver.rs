//! Specifiers that are not semver, such as "workspace:*" or "alpha".

use vstd::prelude::*;
use crate::specifier::{AnySpecifier, SpecifierKind, any_kind, any_raw};

verus! {

#[derive(Clone, Debug, PartialEq, Eq, Hash)]
pub enum NonSemver {
    /// eg. `npm:1.2.3`
    Alias(String),
    /// eg. `file:./path/to/package`
    File(String),
    /// eg. `git://github.com/user/repo.git`
    Git(String),
    /// eg. `alpha`
    Tag(String),
    /// eg. `{wh}at[the]fuu`
    Unsupported(String),
    /// eg. `https://example.com`
    Url(String),
    /// eg. `workspace:*`
    WorkspaceProtocol(String),
}

/// Is this one of the kinds of specifier that are not semver?
pub open spec fn is_non_semver_kind(k: SpecifierKind) -> bool {
    ||| k == SpecifierKind::Alias
    ||| k == SpecifierKind::File
    ||| k == SpecifierKind::Git
    ||| k == SpecifierKind::Tag
    ||| k == SpecifierKind::Unsupported
    ||| k == SpecifierKind::Url
    ||| k == SpecifierKind::WorkspaceProtocol
}

impl NonSemver {
    /// The raw specifier string.
    pub open spec fn raw(self) -> Seq<char> {
        match self {
            NonSemver::Alias(s) => s@,
            NonSemver::File(s) => s@,
            NonSemver::Git(s) => s@,
            NonSemver::Tag(s) => s@,
            NonSemver::Unsupported(s) => s@,
            NonSemver::Url(s) => s@,
            NonSemver::WorkspaceProtocol(s) => s@,
        }
    }

    /// The kind of specifier this variant stands for.
    pub open spec fn kind(self) -> SpecifierKind {
        match self {
            NonSemver::Alias(_) => SpecifierKind::Alias,
            NonSemver::File(_) => SpecifierKind::File,
            NonSemver::Git(_) => SpecifierKind::Git,
            NonSemver::Tag(_) => SpecifierKind::Tag,
            NonSemver::Unsupported(_) => SpecifierKind::Unsupported,
            NonSemver::Url(_) => SpecifierKind::Url,
            NonSemver::WorkspaceProtocol(_) => SpecifierKind::WorkspaceProtocol,
        }
    }

    /// The non-semver specifier of a parsed specifier of a non-semver kind.
    pub fn new(specifier: &AnySpecifier) -> (r: NonSemver)
        requires
            is_non_semver_kind(any_kind(*specifier)),
        ensures
            r.kind() == any_kind(*specifier),
            r.raw() == any_raw(*specifier),
    {
        match specifier {
            AnySpecifier::Alias(s) => NonSemver::Alias(s.clone()),
            AnySpecifier::File(s) => NonSemver::File(s.clone()),
            AnySpecifier::Git(s) => NonSemver::Git(s.clone()),
            AnySpecifier::Tag(s) => NonSemver::Tag(s.clone()),
            AnySpecifier::Unsupported(s) => NonSemver::Unsupported(s.clone()),
            AnySpecifier::Url(s) => NonSemver::Url(s.clone()),
            AnySpecifier::WorkspaceProtocol(s) => NonSemver::WorkspaceProtocol(s.clone()),
            _ => {
                proof {
                    assert(false);
                }
                NonSemver::Unsupported(String::new())
            },
        }
    }

    /// A copy of this specifier.
    pub fn duplicate(&self) -> (r: NonSemver)
        ensures
            r == *self,
    {
        match self {
            NonSemver::Alias(s) => NonSemver::Alias(s.clone()),
            NonSemver::File(s) => NonSemver::File(s.clone()),
            NonSemver::Git(s) => NonSemver::Git(s.clone()),
            NonSemver::Tag(s) => NonSemver::Tag(s.clone()),
            NonSemver::Unsupported(s) => NonSemver::Unsupported(s.clone()),
            NonSemver::Url(s) => NonSemver::Url(s.clone()),
            NonSemver::WorkspaceProtocol(s) => NonSemver::WorkspaceProtocol(s.clone()),
        }
    }
}

} // verus!
