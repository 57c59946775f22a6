//! A version and a range, in a form that can be compared and sorted.

use vstd::prelude::*;
use crate::specifier::semver_range::{SemverRange, greediness};
use crate::specifier::range_text::unreadable_range;

verus! {

/// A build or pre-release identifier of a version, as node-semver reads it.
#[derive(Clone, Debug, PartialEq, Eq)]
pub enum Identifier {
    /// An identifier that's solely numbers.
    Numeric(u64),
    /// An identifier with letters and numbers.
    AlphaNumeric(String),
}

/// The mathematical value of an identifier.
pub enum IdentifierModel {
    Numeric(u64),
    AlphaNumeric(Seq<char>),
}

/// A semantic version, as node-semver reads it.
#[derive(Clone, Debug)]
pub struct Version {
    pub major: u64,
    pub minor: u64,
    pub patch: u64,
    pub build: Vec<Identifier>,
    pub pre_release: Vec<Identifier>,
}

/// The mathematical value of a version.
pub struct VersionModel {
    pub major: u64,
    pub minor: u64,
    pub patch: u64,
    pub build: Seq<IdentifierModel>,
    pub pre_release: Seq<IdentifierModel>,
}

impl View for Identifier {
    type V = IdentifierModel;

    open spec fn view(&self) -> IdentifierModel {
        match self {
            Identifier::Numeric(n) => IdentifierModel::Numeric(*n),
            Identifier::AlphaNumeric(s) => IdentifierModel::AlphaNumeric(s@),
        }
    }
}

pub open spec fn identifiers_model(v: Seq<Identifier>) -> Seq<IdentifierModel> {
    v.map_values(|i: Identifier| i@)
}

impl View for Version {
    type V = VersionModel;

    open spec fn view(&self) -> VersionModel {
        VersionModel {
            major: self.major,
            minor: self.minor,
            patch: self.patch,
            build: identifiers_model(self.build@),
            pre_release: identifiers_model(self.pre_release@),
        }
    }
}

/// The result of comparing two values.
#[derive(Clone, Copy, Debug, PartialEq, Eq, Structural)]
pub enum Comparison {
    Less,
    Equal,
    Greater,
}

pub open spec fn compare_ints(a: int, b: int) -> Comparison {
    if a < b {
        Comparison::Less
    } else if a == b {
        Comparison::Equal
    } else {
        Comparison::Greater
    }
}

/// Strings compare character by character; a proper prefix comes first.
pub open spec fn compare_chars(a: Seq<char>, b: Seq<char>) -> Comparison
    decreases a.len(),
{
    if a.len() == 0 && b.len() == 0 {
        Comparison::Equal
    } else if a.len() == 0 {
        Comparison::Less
    } else if b.len() == 0 {
        Comparison::Greater
    } else if (a[0] as u32) < (b[0] as u32) {
        Comparison::Less
    } else if (a[0] as u32) > (b[0] as u32) {
        Comparison::Greater
    } else {
        compare_chars(a.drop_first(), b.drop_first())
    }
}

/// Numeric identifiers come before alphanumeric ones.
pub open spec fn compare_identifiers(a: IdentifierModel, b: IdentifierModel) -> Comparison {
    match (a, b) {
        (IdentifierModel::Numeric(x), IdentifierModel::Numeric(y)) => compare_ints(x as int, y as int),
        (IdentifierModel::Numeric(_), IdentifierModel::AlphaNumeric(_)) => Comparison::Less,
        (IdentifierModel::AlphaNumeric(_), IdentifierModel::Numeric(_)) => Comparison::Greater,
        (IdentifierModel::AlphaNumeric(x), IdentifierModel::AlphaNumeric(y)) => compare_chars(x, y),
    }
}

/// Lists of identifiers compare element by element; a proper prefix comes first.
pub open spec fn compare_identifier_lists(a: Seq<IdentifierModel>, b: Seq<IdentifierModel>) -> Comparison
    decreases a.len(),
{
    if a.len() == 0 && b.len() == 0 {
        Comparison::Equal
    } else if a.len() == 0 {
        Comparison::Less
    } else if b.len() == 0 {
        Comparison::Greater
    } else {
        match compare_identifiers(a[0], b[0]) {
            Comparison::Equal => compare_identifier_lists(a.drop_first(), b.drop_first()),
            other => other,
        }
    }
}

/// Semver precedence as node-semver orders versions: major, minor and patch
/// numbers first; then a version without a pre-release comes after one with
/// a pre-release; then the pre-release identifiers. Build metadata is ignored.
pub open spec fn compare_versions(a: VersionModel, b: VersionModel) -> Comparison {
    if a.major != b.major {
        compare_ints(a.major as int, b.major as int)
    } else if a.minor != b.minor {
        compare_ints(a.minor as int, b.minor as int)
    } else if a.patch != b.patch {
        compare_ints(a.patch as int, b.patch as int)
    } else if a.pre_release.len() == 0 && b.pre_release.len() == 0 {
        Comparison::Equal
    } else if a.pre_release.len() == 0 {
        Comparison::Greater
    } else if b.pre_release.len() == 0 {
        Comparison::Less
    } else {
        compare_identifier_lists(a.pre_release, b.pre_release)
    }
}

/// Two versions are equal, as node-semver sees them, when their numbers and
/// pre-release identifiers are equal (build metadata is ignored).
pub open spec fn same_version(a: VersionModel, b: VersionModel) -> bool {
    a.major == b.major && a.minor == b.minor && a.patch == b.patch && a.pre_release == b.pre_release
}

/// What node-semver's `Version::parse` gives for a string, if it accepts it.
pub uninterp spec fn node_semver_version_parse(s: Seq<char>) -> Option<VersionModel>;

/// Whether node-semver's `Range::satisfies` accepts the version (both parsed
/// from strings by node-semver), if both parse.
pub uninterp spec fn node_semver_range_satisfies(range: Seq<char>, version: Seq<char>) -> Option<bool>;

/// Whether node-semver's `Range::allows_any` finds the two ranges (both parsed
/// from strings by node-semver) overlapping, if both parse.
pub uninterp spec fn node_semver_ranges_overlap(a: Seq<char>, b: Seq<char>) -> Option<bool>;

/// Calls `node_semver::Version::parse` and copies the result field by field.
/// Claimed: the result is what node-semver gives for the string, named
/// `node_semver_version_parse`; what that is on a given string is left to
/// node-semver and not stated here.
#[verifier::external_body]
pub(crate) fn parse_version(s: &str) -> (r: Option<Version>)
    ensures
        match r {
            Some(v) => node_semver_version_parse(s@) == Some(v@),
            None => node_semver_version_parse(s@) is None,
        },
{
    let id = |i: node_semver::Identifier| match i {
        node_semver::Identifier::Numeric(n) => Identifier::Numeric(n),
        node_semver::Identifier::AlphaNumeric(a) => Identifier::AlphaNumeric(a),
    };
    match node_semver::Version::parse(s) {
        Ok(v) => Some(Version {
            major: v.major,
            minor: v.minor,
            patch: v.patch,
            build: v.build.into_iter().map(id).collect(),
            pre_release: v.pre_release.into_iter().map(id).collect(),
        }),
        Err(_) => None,
    }
}

/// Parses a range and a version with node-semver (`Range::parse`,
/// `Version::parse`) and calls `Range::satisfies`. The range must not be one
/// that `Range::parse` panics on (`unreadable_range`). Claimed: the result is
/// `None` when either does not parse and otherwise what node-semver answers,
/// named `node_semver_range_satisfies`; semver range semantics are not stated.
#[verifier::external_body]
pub(crate) fn range_satisfies(range: &str, version: &str) -> (r: Option<bool>)
    requires
        !unreadable_range(range@),
    ensures
        r == node_semver_range_satisfies(range@, version@),
{
    match (node_semver::Range::parse(range), node_semver::Version::parse(version)) {
        (Ok(range), Ok(version)) => Some(range.satisfies(&version)),
        _ => None,
    }
}

/// Parses two ranges with node-semver (`Range::parse`) and calls
/// `Range::allows_any`. Neither range may be one that `Range::parse` panics
/// on (`unreadable_range`). Claimed: the result is `None` when either does
/// not parse and otherwise what node-semver answers, named
/// `node_semver_ranges_overlap`; semver range semantics are not stated.
#[verifier::external_body]
pub(crate) fn ranges_overlap(a: &str, b: &str) -> (r: Option<bool>)
    requires
        !unreadable_range(a@),
        !unreadable_range(b@),
    ensures
        r == node_semver_ranges_overlap(a@, b@),
{
    match (node_semver::Range::parse(a), node_semver::Range::parse(b)) {
        (Ok(a), Ok(b)) => Some(a.allows_any(&b)),
        _ => None,
    }
}

fn compare_u64(a: u64, b: u64) -> (r: Comparison)
    ensures
        r == compare_ints(a as int, b as int),
{
    if a < b {
        Comparison::Less
    } else if a == b {
        Comparison::Equal
    } else {
        Comparison::Greater
    }
}

pub(crate) fn compare_strings(a: &String, b: &String) -> (r: Comparison)
    ensures
        r == compare_chars(a@, b@),
{
    let x = crate::text::to_chars(a.as_str());
    let y = crate::text::to_chars(b.as_str());
    let mut i: usize = 0;
    assert(a@.skip(0) =~= a@);
    assert(b@.skip(0) =~= b@);
    while i < x.len() && i < y.len() && (x[i] as u32) == (y[i] as u32)
        invariant
            x@ == a@,
            y@ == b@,
            i <= x@.len(),
            i <= y@.len(),
            compare_chars(a@, b@) == compare_chars(a@.skip(i as int), b@.skip(i as int)),
        decreases x@.len() - i,
    {
        proof {
            let sa = a@.skip(i as int);
            let sb = b@.skip(i as int);
            assert(sa.drop_first() =~= a@.skip(i + 1));
            assert(sb.drop_first() =~= b@.skip(i + 1));
        }
        i = i + 1;
    }
    proof {
        let sa = a@.skip(i as int);
        let sb = b@.skip(i as int);
        if i < x@.len() {
            assert(sa[0] == x@[i as int]);
        }
        if i < y@.len() {
            assert(sb[0] == y@[i as int]);
        }
    }
    if i == x.len() && i == y.len() {
        Comparison::Equal
    } else if i == x.len() {
        Comparison::Less
    } else if i == y.len() {
        Comparison::Greater
    } else if (x[i] as u32) < (y[i] as u32) {
        Comparison::Less
    } else {
        Comparison::Greater
    }
}

fn compare_identifier(a: &Identifier, b: &Identifier) -> (r: Comparison)
    ensures
        r == compare_identifiers(a@, b@),
{
    match (a, b) {
        (Identifier::Numeric(x), Identifier::Numeric(y)) => compare_u64(*x, *y),
        (Identifier::Numeric(_), Identifier::AlphaNumeric(_)) => Comparison::Less,
        (Identifier::AlphaNumeric(_), Identifier::Numeric(_)) => Comparison::Greater,
        (Identifier::AlphaNumeric(x), Identifier::AlphaNumeric(y)) => compare_strings(x, y),
    }
}

fn compare_identifier_vecs(a: &Vec<Identifier>, b: &Vec<Identifier>) -> (r: Comparison)
    ensures
        r == compare_identifier_lists(identifiers_model(a@), identifiers_model(b@)),
{
    let ghost ma = identifiers_model(a@);
    let ghost mb = identifiers_model(b@);
    let mut i: usize = 0;
    assert(ma.skip(0) =~= ma);
    assert(mb.skip(0) =~= mb);
    while i < a.len() && i < b.len()
        invariant
            i <= a@.len(),
            i <= b@.len(),
            ma == identifiers_model(a@),
            mb == identifiers_model(b@),
            compare_identifier_lists(ma, mb) == compare_identifier_lists(ma.skip(i as int), mb.skip(i as int)),
        decreases a@.len() - i,
    {
        let c = compare_identifier(&a[i], &b[i]);
        proof {
            let sa = ma.skip(i as int);
            let sb = mb.skip(i as int);
            assert(sa[0] == a@[i as int]@);
            assert(sb[0] == b@[i as int]@);
            assert(sa.drop_first() =~= ma.skip(i + 1));
            assert(sb.drop_first() =~= mb.skip(i + 1));
        }
        match c {
            Comparison::Equal => {},
            _ => {
                return c;
            },
        }
        i = i + 1;
    }
    if i == a.len() && i == b.len() {
        Comparison::Equal
    } else if i == a.len() {
        Comparison::Less
    } else {
        Comparison::Greater
    }
}

fn identifier_equals(a: &Identifier, b: &Identifier) -> (r: bool)
    ensures
        r == (a@ == b@),
{
    match (a, b) {
        (Identifier::Numeric(x), Identifier::Numeric(y)) => *x == *y,
        (Identifier::AlphaNumeric(x), Identifier::AlphaNumeric(y)) => crate::text::str_is(x.as_str(), y.as_str()),
        _ => false,
    }
}

fn identifier_vecs_equal(a: &Vec<Identifier>, b: &Vec<Identifier>) -> (r: bool)
    ensures
        r == (identifiers_model(a@) == identifiers_model(b@)),
{
    let ghost ma = identifiers_model(a@);
    let ghost mb = identifiers_model(b@);
    if a.len() != b.len() {
        assert(ma.len() != mb.len());
        return false;
    }
    let mut i: usize = 0;
    while i < a.len()
        invariant
            a@.len() == b@.len(),
            i <= a@.len(),
            ma == identifiers_model(a@),
            mb == identifiers_model(b@),
            forall|j: int| 0 <= j < i ==> ma[j] == mb[j],
        decreases a@.len() - i,
    {
        if !identifier_equals(&a[i], &b[i]) {
            assert(ma[i as int] != mb[i as int]);
            return false;
        }
        i = i + 1;
    }
    assert(ma =~= mb);
    true
}

impl Version {
    /// Are the two versions equal as node-semver sees them (build metadata
    /// is ignored)?
    pub fn same_as(&self, other: &Version) -> (r: bool)
        ensures
            r == same_version(self@, other@),
    {
        self.major == other.major && self.minor == other.minor && self.patch == other.patch
            && identifier_vecs_equal(&self.pre_release, &other.pre_release)
    }

    /// Compare two versions by semver precedence.
    pub fn compare(&self, other: &Version) -> (r: Comparison)
        ensures
            r == compare_versions(self@, other@),
    {
        if self.major != other.major {
            compare_u64(self.major, other.major)
        } else if self.minor != other.minor {
            compare_u64(self.minor, other.minor)
        } else if self.patch != other.patch {
            compare_u64(self.patch, other.patch)
        } else if self.pre_release.len() == 0 && other.pre_release.len() == 0 {
            Comparison::Equal
        } else if self.pre_release.len() == 0 {
            Comparison::Greater
        } else if other.pre_release.len() == 0 {
            Comparison::Less
        } else {
            compare_identifier_vecs(&self.pre_release, &other.pre_release)
        }
    }
}

/// A version together with the range of the specifier it came from.
#[derive(Clone, Debug)]
pub struct Orderable {
    pub range: SemverRange,
    pub version: Version,
}

/// Orderables compare by version first and then by the greediness of their
/// range.
pub open spec fn compare_orderables(a: Orderable, b: Orderable) -> Comparison {
    compare_ranked(a.range, a.version@, b.range, b.version@)
}

/// A version with a range compares by version first and then by the
/// greediness of the range.
pub open spec fn compare_ranked(ra: SemverRange, va: VersionModel, rb: SemverRange, vb: VersionModel) -> Comparison {
    match compare_versions(va, vb) {
        Comparison::Equal => compare_ints(greediness(ra) as int, greediness(rb) as int),
        other => other,
    }
}

impl Orderable {
    /// Compare by version, then by the greediness of the range.
    pub fn compare(&self, other: &Orderable) -> (r: Comparison)
        ensures
            r == compare_orderables(*self, *other),
    {
        match self.version.compare(&other.version) {
            Comparison::Equal => compare_u64(
                self.range.get_greediness_ranking() as u64,
                other.range.get_greediness_ranking() as u64,
            ),
            other => other,
        }
    }
}

/// The comparison of `b` with `a`, given that of `a` with `b`.
pub open spec fn flip(c: Comparison) -> Comparison {
    match c {
        Comparison::Less => Comparison::Greater,
        Comparison::Equal => Comparison::Equal,
        Comparison::Greater => Comparison::Less,
    }
}

pub(crate) proof fn lemma_compare_chars_flip(a: Seq<char>, b: Seq<char>)
    ensures
        compare_chars(b, a) == flip(compare_chars(a, b)),
    decreases a.len(),
{
    if a.len() > 0 && b.len() > 0 && (a[0] as u32) == (b[0] as u32) {
        lemma_compare_chars_flip(a.drop_first(), b.drop_first());
    }
}

proof fn lemma_compare_chars_trans(a: Seq<char>, b: Seq<char>, c: Seq<char>, g: Comparison)
    requires
        g != Comparison::Equal,
        compare_chars(a, b) == g,
        compare_chars(b, c) == g,
    ensures
        compare_chars(a, c) == g,
    decreases a.len(),
{
    if a.len() > 0 && b.len() > 0 && c.len() > 0 && (a[0] as u32) == (b[0] as u32) && (b[0] as u32) == (c[0] as u32) {
        lemma_compare_chars_trans(a.drop_first(), b.drop_first(), c.drop_first(), g);
    }
}

proof fn lemma_compare_chars_equal_trans(a: Seq<char>, b: Seq<char>, c: Seq<char>, g: Comparison)
    ensures
        compare_chars(a, b) == Comparison::Equal && compare_chars(b, c) == g ==> compare_chars(a, c) == g,
        compare_chars(a, b) == g && compare_chars(b, c) == Comparison::Equal ==> compare_chars(a, c) == g,
    decreases a.len(),
{
    if a.len() > 0 && b.len() > 0 && c.len() > 0 {
        lemma_compare_chars_equal_trans(a.drop_first(), b.drop_first(), c.drop_first(), g);
    }
}

proof fn lemma_compare_identifiers_flip(a: IdentifierModel, b: IdentifierModel)
    ensures
        compare_identifiers(b, a) == flip(compare_identifiers(a, b)),
{
    if let (IdentifierModel::AlphaNumeric(x), IdentifierModel::AlphaNumeric(y)) = (a, b) {
        lemma_compare_chars_flip(x, y);
    }
}

proof fn lemma_compare_identifiers_trans(a: IdentifierModel, b: IdentifierModel, c: IdentifierModel, g: Comparison)
    ensures
        compare_identifiers(a, b) == g && compare_identifiers(b, c) == g ==> compare_identifiers(a, c) == g,
        compare_identifiers(a, b) == Comparison::Equal && compare_identifiers(b, c) == g ==> compare_identifiers(a, c) == g,
        compare_identifiers(a, b) == g && compare_identifiers(b, c) == Comparison::Equal ==> compare_identifiers(a, c) == g,
{
    match (a, b, c) {
        (IdentifierModel::AlphaNumeric(x), IdentifierModel::AlphaNumeric(y), IdentifierModel::AlphaNumeric(z)) => {
            if g != Comparison::Equal && compare_chars(x, y) == g && compare_chars(y, z) == g {
                lemma_compare_chars_trans(x, y, z, g);
            }
            lemma_compare_chars_equal_trans(x, y, z, g);
        },
        _ => {},
    }
}

proof fn lemma_compare_lists_flip(a: Seq<IdentifierModel>, b: Seq<IdentifierModel>)
    ensures
        compare_identifier_lists(b, a) == flip(compare_identifier_lists(a, b)),
    decreases a.len(),
{
    if a.len() > 0 && b.len() > 0 {
        lemma_compare_identifiers_flip(a[0], b[0]);
        lemma_compare_lists_flip(a.drop_first(), b.drop_first());
    }
}

proof fn lemma_compare_lists_trans(a: Seq<IdentifierModel>, b: Seq<IdentifierModel>, c: Seq<IdentifierModel>, g: Comparison)
    ensures
        compare_identifier_lists(a, b) == g && compare_identifier_lists(b, c) == g ==> compare_identifier_lists(a, c) == g,
        compare_identifier_lists(a, b) == Comparison::Equal && compare_identifier_lists(b, c) == g
            ==> compare_identifier_lists(a, c) == g,
        compare_identifier_lists(a, b) == g && compare_identifier_lists(b, c) == Comparison::Equal
            ==> compare_identifier_lists(a, c) == g,
    decreases a.len(),
{
    if a.len() > 0 && b.len() > 0 && c.len() > 0 {
        lemma_compare_identifiers_trans(a[0], b[0], c[0], g);
        lemma_compare_identifiers_trans(a[0], b[0], c[0], Comparison::Equal);
        lemma_compare_lists_trans(a.drop_first(), b.drop_first(), c.drop_first(), g);
        lemma_compare_lists_trans(a.drop_first(), b.drop_first(), c.drop_first(), Comparison::Equal);
    }
}

proof fn lemma_compare_versions_flip(a: VersionModel, b: VersionModel)
    ensures
        compare_versions(b, a) == flip(compare_versions(a, b)),
{
    lemma_compare_lists_flip(a.pre_release, b.pre_release);
}

/// A string of characters compares equal to itself.
proof fn lemma_compare_chars_refl(a: Seq<char>)
    ensures
        compare_chars(a, a) == Comparison::Equal,
    decreases a.len(),
{
    if a.len() > 0 {
        lemma_compare_chars_refl(a.drop_first());
    }
}

/// A list of identifiers that is a proper prefix of another comes first.
proof fn lemma_prefix_list_first(a: Seq<IdentifierModel>, rest: Seq<IdentifierModel>)
    requires
        rest.len() > 0,
    ensures
        compare_identifier_lists(a, a + rest) == Comparison::Less,
    decreases a.len(),
{
    if a.len() > 0 {
        if let IdentifierModel::AlphaNumeric(x) = a[0] {
            lemma_compare_chars_refl(x);
        }
        assert((a + rest)[0] == a[0]);
        assert((a + rest).drop_first() =~= a.drop_first() + rest);
        lemma_prefix_list_first(a.drop_first(), rest);
    } else {
        assert(a + rest =~= rest);
    }
}

/// Semver precedence, as node-semver orders versions: the major, minor and
/// patch numbers decide first, in that order; with equal numbers a release
/// comes after every one of its pre-releases; pre-releases compare
/// identifier by identifier, a numeric identifier by value and before an
/// alphanumeric one, alphanumeric ones by their characters' code points,
/// and a pre-release whose identifiers begin another's
/// comes first. Swapping the two versions reverses the answer.
pub proof fn law_semver_precedence(a: VersionModel, b: VersionModel)
    ensures
        a.major < b.major ==> compare_versions(a, b) == Comparison::Less,
        a.major == b.major && a.minor < b.minor ==> compare_versions(a, b) == Comparison::Less,
        a.major == b.major && a.minor == b.minor && a.patch < b.patch ==> compare_versions(a, b) == Comparison::Less,
        a.major == b.major && a.minor == b.minor && a.patch == b.patch ==> {
            &&& a.pre_release.len() == 0 && b.pre_release.len() > 0 ==> compare_versions(a, b) == Comparison::Greater
            &&& a.pre_release.len() == 0 && b.pre_release.len() == 0 ==> compare_versions(a, b) == Comparison::Equal
            &&& a.pre_release.len() > 0 && b.pre_release.len() > 0 && a.pre_release[0] is Numeric
                && b.pre_release[0] is AlphaNumeric ==> compare_versions(a, b) == Comparison::Less
            &&& a.pre_release.len() > 0 && b.pre_release.len() > 0 && a.pre_release[0] is Numeric
                && b.pre_release[0] is Numeric && a.pre_release[0]->Numeric_0 < b.pre_release[0]->Numeric_0
                ==> compare_versions(a, b) == Comparison::Less
            &&& a.pre_release.len() > 0 && b.pre_release.len() > 0 && a.pre_release[0] is AlphaNumeric
                && b.pre_release[0] is AlphaNumeric && a.pre_release[0]->AlphaNumeric_0.len() > 0
                && b.pre_release[0]->AlphaNumeric_0.len() > 0 && (a.pre_release[0]->AlphaNumeric_0[0] as u32) < (
            b.pre_release[0]->AlphaNumeric_0[0] as u32) ==> compare_versions(a, b) == Comparison::Less
            &&& a.pre_release.len() > 0 && b.pre_release.len() > a.pre_release.len() && b.pre_release.subrange(
                0,
                a.pre_release.len() as int,
            ) == a.pre_release ==> compare_versions(a, b) == Comparison::Less
        },
        compare_versions(b, a) == flip(compare_versions(a, b)),
{
    lemma_compare_versions_flip(a, b);
    if b.pre_release.len() > a.pre_release.len() && b.pre_release.subrange(0, a.pre_release.len() as int)
        == a.pre_release {
        let rest = b.pre_release.subrange(a.pre_release.len() as int, b.pre_release.len() as int);
        assert(a.pre_release + rest =~= b.pre_release);
        lemma_prefix_list_first(a.pre_release, rest);
    }
}

proof fn lemma_compare_versions_trans(a: VersionModel, b: VersionModel, c: VersionModel, g: Comparison)
    ensures
        compare_versions(a, b) == g && compare_versions(b, c) == g ==> compare_versions(a, c) == g,
        compare_versions(a, b) == Comparison::Equal && compare_versions(b, c) == g ==> compare_versions(a, c) == g,
        compare_versions(a, b) == g && compare_versions(b, c) == Comparison::Equal ==> compare_versions(a, c) == g,
{
    lemma_compare_lists_trans(a.pre_release, b.pre_release, c.pre_release, g);
    lemma_compare_lists_trans(a.pre_release, b.pre_release, c.pre_release, Comparison::Equal);
    lemma_compare_lists_flip(a.pre_release, b.pre_release);
}

/// Comparing `b` with `a` gives the opposite of comparing `a` with `b`.
pub proof fn law_compare_ranked_antisymmetric(ra: SemverRange, va: VersionModel, rb: SemverRange, vb: VersionModel)
    ensures
        compare_ranked(rb, vb, ra, va) == flip(compare_ranked(ra, va, rb, vb)),
{
    lemma_compare_versions_flip(va, vb);
}

/// Ordering versions with their ranges is transitive: if `a` orders above
/// (or below) `b` and `b` above (or below) `c`, then `a` orders above (or
/// below) `c`.
pub proof fn law_compare_ranked_transitive(
    ra: SemverRange,
    va: VersionModel,
    rb: SemverRange,
    vb: VersionModel,
    rc: SemverRange,
    vc: VersionModel,
    g: Comparison,
)
    requires
        compare_ranked(ra, va, rb, vb) == g,
        compare_ranked(rb, vb, rc, vc) == g,
    ensures
        compare_ranked(ra, va, rc, vc) == g,
{
    lemma_compare_versions_trans(va, vb, vc, g);
    lemma_compare_versions_trans(va, vb, vc, Comparison::Equal);
}

} // verus!
