//! Semver specifiers without "||" or spaces, such as "1.2.3", "^1.2" or "*".

use vstd::prelude::*;
use crate::specifier::range_text::{
    comparator_start, lemma_version_chars, skip_blanks, skip_one, unreadable_at, unreadable_range, version_start,
};
use crate::specifier::SpecifierKind;
use crate::specifier::orderable::{
    node_semver_version_parse, parse_version, same_version, Orderable, Version,
};
use crate::specifier::parser::{
    lemma_parse_kind_simple, parse_kind, is_exact, is_latest, is_major, is_minor, is_range, is_range_major, is_range_minor, sanitise,
    sanitised,
};
use crate::specifier::regexes::{
    exact_at, lemma_shapes_begin_with_digit, lemma_shapes_disjoint, lemma_shapes_shift,
    lemma_shapes_suffix, major_at, minor_at, op_len, range_operator_len, spec_exact, spec_latest,
    spec_major, spec_minor, spec_range, spec_range_major, spec_range_minor, digit_run,
    numbers_end, spec_simple_semver, spec_alias, spec_workspace_protocol, spec_tag, spec_git,
    spec_url, is_tag_char, is_prerelease_char,
};
use crate::specifier::semver_range::{
    lemma_range_roundtrip, range_chars, range_from_chars, SemverRange,
};
use crate::text::{copy_range, string_from_chars, to_chars};

verus! {

#[derive(Clone, Debug, PartialEq, Eq, Hash)]
pub enum SimpleSemver {
    /// eg. `1.2.3`
    Exact(String),
    /// eg. `*`
    Latest(String),
    /// eg. `1`
    Major(String),
    /// eg. `1.2`
    Minor(String),
    /// eg. `>1.2.3`
    Range(String),
    /// eg. `>1`
    RangeMajor(String),
    /// eg. `^1.2`
    RangeMinor(String),
}

/// The simple semver kind of a string, tried in the order "1.2.3", "*",
/// "1", "1.2", "^1.2.3", "^1", "^1.2"; `None` when it is none of them.
pub open spec fn simple_kind_of(s: Seq<char>) -> Option<SpecifierKind> {
    if spec_exact(s) {
        Some(SpecifierKind::Exact)
    } else if spec_latest(s) {
        Some(SpecifierKind::Latest)
    } else if spec_major(s) {
        Some(SpecifierKind::Major)
    } else if spec_minor(s) {
        Some(SpecifierKind::Minor)
    } else if spec_range(s) {
        Some(SpecifierKind::Range)
    } else if spec_range_major(s) {
        Some(SpecifierKind::RangeMajor)
    } else if spec_range_minor(s) {
        Some(SpecifierKind::RangeMinor)
    } else {
        None
    }
}

/// The version part of a specifier: what follows its range operator.
pub open spec fn strip_range(s: Seq<char>) -> Seq<char> {
    s.skip(op_len(s))
}

/// The kind of the bare version "1.2.3", "1.2" or "1".
pub open spec fn version_shape(s: Seq<char>) -> SpecifierKind {
    if exact_at(s, 0) {
        SpecifierKind::Exact
    } else if minor_at(s, 0) {
        SpecifierKind::Minor
    } else {
        SpecifierKind::Major
    }
}

/// The message of the error `SimpleSemver::new` gives for a string that is
/// not simple semver.
pub open spec fn not_simple_semver_message(s: Seq<char>) -> Seq<char> {
    "'"@ + s + "' was expected to be a simple semver specifier but was not recognised"@
}

impl SimpleSemver {
    /// The raw specifier string.
    pub open spec fn raw(self) -> Seq<char> {
        match self {
            SimpleSemver::Exact(s) => s@,
            SimpleSemver::Latest(s) => s@,
            SimpleSemver::Major(s) => s@,
            SimpleSemver::Minor(s) => s@,
            SimpleSemver::Range(s) => s@,
            SimpleSemver::RangeMajor(s) => s@,
            SimpleSemver::RangeMinor(s) => s@,
        }
    }

    /// The kind of specifier this variant stands for.
    pub open spec fn kind(self) -> SpecifierKind {
        match self {
            SimpleSemver::Exact(_) => SpecifierKind::Exact,
            SimpleSemver::Latest(_) => SpecifierKind::Latest,
            SimpleSemver::Major(_) => SpecifierKind::Major,
            SimpleSemver::Minor(_) => SpecifierKind::Minor,
            SimpleSemver::Range(_) => SpecifierKind::Range,
            SimpleSemver::RangeMajor(_) => SpecifierKind::RangeMajor,
            SimpleSemver::RangeMinor(_) => SpecifierKind::RangeMinor,
        }
    }

    /// The raw string has the shape that the variant names.
    pub open spec fn wf(self) -> bool {
        simple_kind_of(self.raw()) == Some(self.kind())
    }

    /// The semver range of a simple semver specifier.
    pub open spec fn range(self) -> SemverRange {
        match self {
            SimpleSemver::Latest(_) => SemverRange::Any,
            SimpleSemver::Exact(_) | SimpleSemver::Major(_) | SimpleSemver::Minor(_) => SemverRange::Exact,
            _ => range_from_chars(self.raw().take(op_len(self.raw()))).unwrap(),
        }
    }

    /// The kind of specifier that replacing the range with `range` gives.
    pub open spec fn kind_with_range(self, range: SemverRange) -> SpecifierKind {
        if range == SemverRange::Any {
            SpecifierKind::Latest
        } else if self.kind() == SpecifierKind::Major || self.kind() == SpecifierKind::Latest {
            self.kind()
        } else {
            let shape = version_shape(strip_range(self.raw()));
            if range == SemverRange::Exact {
                shape
            } else if shape == SpecifierKind::Exact {
                SpecifierKind::Range
            } else if shape == SpecifierKind::Minor {
                SpecifierKind::RangeMinor
            } else {
                SpecifierKind::RangeMajor
            }
        }
    }

    /// The raw string that replacing the range with `range` gives: "*" for
    /// `Any`; unchanged for "1" and "*", whose version is not known in full;
    /// otherwise the range's characters followed by the version.
    pub open spec fn raw_with_range(self, range: SemverRange) -> Seq<char> {
        if range == SemverRange::Any {
            seq!['*']
        } else if self.kind() == SpecifierKind::Major || self.kind() == SpecifierKind::Latest {
            self.raw()
        } else {
            range_chars(range) + strip_range(self.raw())
        }
    }

    /// The version string handed to node-semver to order this specifier:
    /// missing parts are filled in with 999999, and the range is left out.
    pub open spec fn orderable_version_chars(self) -> Seq<char> {
        match self {
            SimpleSemver::Exact(s) => s@,
            SimpleSemver::Latest(_) => "999999.999999.999999"@,
            SimpleSemver::Major(s) => s@ + ".999999.999999"@,
            SimpleSemver::Minor(s) => s@ + ".999999"@,
            SimpleSemver::Range(s) => strip_range(s@),
            SimpleSemver::RangeMajor(s) => strip_range(s@) + ".999999.999999"@,
            SimpleSemver::RangeMinor(s) => strip_range(s@) + ".999999"@,
        }
    }
}

/// A bare version "1.2.3", "1.2" or "1" begins with a digit, so it has no
/// range operator and is classified by its own shape.
pub proof fn lemma_bare_version(b: Seq<char>)
    requires
        exact_at(b, 0) || minor_at(b, 0) || major_at(b, 0),
    ensures
        op_len(b) == 0,
        strip_range(b) == b,
        simple_kind_of(b) == Some(version_shape(b)),
        sanitised(b) == b,
{
    lemma_shapes_begin_with_digit(b, 0);
    lemma_shapes_disjoint(b, 0);
    assert(b.skip(0) =~= b);
    if b == seq!['l', 'a', 't', 'e', 's', 't'] {
        assert(b[0] == 'l');
    }
    if b == seq!['x'] {
        assert(b[0] == 'x');
    }
    if b == seq!['*'] {
        assert(b[0] == '*');
    }
}

/// A range operator followed by a bare version is read as that operator and
/// that version.
pub proof fn lemma_operator_and_version(r: SemverRange, b: Seq<char>)
    requires
        r != SemverRange::Any,
        r != SemverRange::Exact,
        exact_at(b, 0) || minor_at(b, 0) || major_at(b, 0),
    ensures
        op_len(range_chars(r) + b) == range_chars(r).len(),
        strip_range(range_chars(r) + b) == b,
        (range_chars(r) + b).take(op_len(range_chars(r) + b)) == range_chars(r),
        simple_kind_of(range_chars(r) + b) == Some(
            if exact_at(b, 0) {
                SpecifierKind::Range
            } else if minor_at(b, 0) {
                SpecifierKind::RangeMinor
            } else {
                SpecifierKind::RangeMajor
            },
        ),
        sanitised(range_chars(r) + b) == range_chars(r) + b,
{
    let p = range_chars(r);
    let t = p + b;
    lemma_shapes_begin_with_digit(b, 0);
    lemma_shapes_disjoint(b, 0);
    lemma_shapes_shift(p, b);
    assert(t[p.len() as int] == b[0]);
    assert(t[0] == p[0]);
    assert(op_len(t) == p.len());
    assert(t.skip(p.len() as int) =~= b);
    assert(t.take(p.len() as int) =~= p);
    assert(digit_run(t, 0) == 0);
    assert(numbers_end(t, 0, 1) is None);
    assert(numbers_end(t, 0, 2) is None);
    assert(numbers_end(t, 0, 3) is None);
    assert(!spec_latest(t)) by {
        if t == seq!['*'] || t == seq!['x'] || t == seq!['l', 'a', 't', 'e', 's', 't'] {
            assert(t[0] == seq!['*'][0] || t[0] == 'x' || t[0] == 'l');
        }
    }
}

/// The version part of a well-formed range specifier is a bare version of
/// the matching shape.
pub proof fn lemma_range_body(s: SimpleSemver)
    requires
        s.wf(),
        s.kind() != SpecifierKind::Latest,
        s.kind() != SpecifierKind::Major,
    ensures
        exact_at(strip_range(s.raw()), 0) || minor_at(strip_range(s.raw()), 0) || major_at(
            strip_range(s.raw()),
            0,
        ),
        s.kind() == SpecifierKind::Exact || s.kind() == SpecifierKind::Range ==> exact_at(
            strip_range(s.raw()),
            0,
        ),
        s.kind() == SpecifierKind::Minor || s.kind() == SpecifierKind::RangeMinor ==> minor_at(
            strip_range(s.raw()),
            0,
        ),
        s.kind() == SpecifierKind::RangeMajor ==> major_at(strip_range(s.raw()), 0),
        s.kind() == SpecifierKind::Exact || s.kind() == SpecifierKind::Minor ==> op_len(s.raw()) == 0,
        s.kind() == SpecifierKind::Range || s.kind() == SpecifierKind::RangeMinor || s.kind()
            == SpecifierKind::RangeMajor ==> op_len(s.raw()) > 0,
{
    let raw = s.raw();
    let k = op_len(raw);
    if s.kind() == SpecifierKind::Exact || s.kind() == SpecifierKind::Minor {
        lemma_bare_version(raw);
    } else {
        lemma_shapes_suffix(raw, k);
        assert(raw.skip(k) =~= raw.subrange(k, raw.len() as int));
    }
}

/// The range operator at the start of a well-formed range specifier is one
/// of the range strings.
pub proof fn lemma_operator_is_range(s: Seq<char>)
    requires
        op_len(s) > 0,
    ensures
        range_from_chars(s.take(op_len(s))) is Some,
        range_from_chars(s.take(op_len(s))) != Some(SemverRange::Any),
        range_from_chars(s.take(op_len(s))) != Some(SemverRange::Exact),
        range_chars(range_from_chars(s.take(op_len(s))).unwrap()) == s.take(op_len(s)),
{
    let t = s.take(op_len(s));
    if op_len(s) == 2 {
        if s[0] == '>' {
            assert(t =~= range_chars(SemverRange::Gte));
            lemma_range_roundtrip(SemverRange::Gte);
        } else {
            assert(t =~= range_chars(SemverRange::Lte));
            lemma_range_roundtrip(SemverRange::Lte);
        }
    } else if s[0] == '^' {
        assert(t =~= range_chars(SemverRange::Minor));
        lemma_range_roundtrip(SemverRange::Minor);
    } else if s[0] == '~' {
        assert(t =~= range_chars(SemverRange::Patch));
        lemma_range_roundtrip(SemverRange::Patch);
    } else if s[0] == '>' {
        assert(t =~= range_chars(SemverRange::Gt));
        lemma_range_roundtrip(SemverRange::Gt);
    } else {
        assert(t =~= range_chars(SemverRange::Lt));
        lemma_range_roundtrip(SemverRange::Lt);
    }
}

/// `parse` and `SimpleSemver::new` try the simple kinds in different orders,
/// but no string has two simple shapes, so they agree on every simple
/// semver string.
pub proof fn lemma_parse_kind_agrees(s: Seq<char>, is_recursive: bool)
    ensures
        spec_simple_semver(s) ==> simple_kind_of(s) == Some(parse_kind(s, is_recursive)),
{
    lemma_parse_kind_simple(s);
    lemma_shapes_disjoint(s, 0);
    lemma_shapes_begin_with_digit(s, 0);
    if op_len(s) > 0 {
        lemma_shapes_disjoint(s, op_len(s));
    }
    if spec_latest(s) {
        assert(s[0] == '*' || s[0] == 'l' || s[0] == 'x') by {
            if s == seq!['*'] {
                assert(s[0] == '*');
            } else if s == seq!['x'] {
                assert(s[0] == 'x');
            } else {
                assert(s[0] == 'l');
            }
        }
        assert(digit_run(s, 0) == 0);
        assert(op_len(s) == 0);
    }
    if spec_range(s) || spec_range_major(s) || spec_range_minor(s) {
        assert(digit_run(s, 0) == 0);
        assert(!spec_latest(s)) by {
            if s == seq!['*'] || s == seq!['x'] || s == seq!['l', 'a', 't', 'e', 's', 't'] {
                assert(s[0] == '*' || s[0] == 'x' || s[0] == 'l');
            }
        }
        assert(!is_tag_char(s[0]));
        if spec_workspace_protocol(s) {
            assert(s.subrange(0, 10)[0] == 'w');
        }
        if spec_alias(s) {
            assert(s.subrange(0, 4)[0] == 'n');
        }
        if spec_git(s) {
            assert(s.subrange(0, 6)[0] == 'g');
        }
        if spec_url(s) {
            assert(s.subrange(0, 7)[0] == 'h');
        }
    }
    if spec_exact(s) || spec_major(s) || spec_minor(s) {
        assert(op_len(s) == 0);
        assert(!spec_latest(s)) by {
            if s == seq!['*'] || s == seq!['x'] || s == seq!['l', 'a', 't', 'e', 's', 't'] {
                assert(s[0] == '*' || s[0] == 'x' || s[0] == 'l');
            }
        }
        if spec_workspace_protocol(s) {
            assert(s.subrange(0, 10)[0] == 'w');
        }
        if spec_alias(s) {
            assert(s.subrange(0, 4)[0] == 'n');
        }
    }
}

/// Does the string hold exactly the characters "*"?
fn is_star_string(s: &String) -> (r: bool)
    ensures
        r == (s@ == seq!['*']),
{
    let v = to_chars(s.as_str());
    let r = v.len() == 1 && v[0] == '*';
    proof {
        if r {
            assert(s@ =~= seq!['*']);
        }
        if s@ == seq!['*'] {
            assert(s@[0] == '*');
        }
    }
    r
}

/// The characters of a specifier after its range operator.
fn strip_range_string(s: &String) -> (r: String)
    ensures
        r@ == strip_range(s@),
{
    let v = to_chars(s.as_str());
    let k = range_operator_len(v.as_slice());
    let body = copy_range(v.as_slice(), k, v.len());
    assert(body@ =~= s@.skip(op_len(s@)));
    string_from_chars(body.as_slice())
}

impl SimpleSemver {
    /// Classify a simple semver specifier; "latest" and "x" are read as "*".
    pub fn new(specifier: &String) -> (r: Result<SimpleSemver, String>)
        ensures
            match r {
                Ok(v) => {
                    &&& simple_kind_of(sanitised(specifier@)) == Some(v.kind())
                    &&& v.raw() == sanitised(specifier@)
                },
                Err(e) => {
                    &&& simple_kind_of(sanitised(specifier@)) is None
                    &&& e@ == not_simple_semver_message(specifier@)
                },
            },
    {
        let str = sanitise(specifier);
        let string = String::from_str(str);
        if is_exact(str) {
            Ok(SimpleSemver::Exact(string))
        } else if is_latest(str) {
            Ok(SimpleSemver::Latest(string))
        } else if is_major(str) {
            Ok(SimpleSemver::Major(string))
        } else if is_minor(str) {
            Ok(SimpleSemver::Minor(string))
        } else if is_range(str) {
            Ok(SimpleSemver::Range(string))
        } else if is_range_major(str) {
            Ok(SimpleSemver::RangeMajor(string))
        } else if is_range_minor(str) {
            Ok(SimpleSemver::RangeMinor(string))
        } else {
            let mut message = String::from_str("'");
            message.append(specifier.as_str());
            message.append("' was expected to be a simple semver specifier but was not recognised");
            Err(message)
        }
    }

    /// A copy of this specifier.
    pub fn duplicate(&self) -> (r: SimpleSemver)
        ensures
            r == *self,
    {
        match self {
            SimpleSemver::Exact(s) => SimpleSemver::Exact(s.clone()),
            SimpleSemver::Latest(s) => SimpleSemver::Latest(s.clone()),
            SimpleSemver::Major(s) => SimpleSemver::Major(s.clone()),
            SimpleSemver::Minor(s) => SimpleSemver::Minor(s.clone()),
            SimpleSemver::Range(s) => SimpleSemver::Range(s.clone()),
            SimpleSemver::RangeMajor(s) => SimpleSemver::RangeMajor(s.clone()),
            SimpleSemver::RangeMinor(s) => SimpleSemver::RangeMinor(s.clone()),
        }
    }

    /// The raw specifier string, eg. "^1.4.1".
    pub fn unwrap(&self) -> (r: String)
        ensures
            r@ == self.raw(),
    {
        match self {
            SimpleSemver::Exact(s) => s.clone(),
            SimpleSemver::Latest(s) => s.clone(),
            SimpleSemver::Major(s) => s.clone(),
            SimpleSemver::Minor(s) => s.clone(),
            SimpleSemver::Range(s) => s.clone(),
            SimpleSemver::RangeMajor(s) => s.clone(),
            SimpleSemver::RangeMinor(s) => s.clone(),
        }
    }

    /// Replace this version's semver range with another one. "1" and "*"
    /// are kept as they are unless the new range is `Any`, since their
    /// version is not known in full.
    pub fn with_range(&self, range: &SemverRange) -> (r: SimpleSemver)
        requires
            self.wf(),
        ensures
            r.wf(),
            r.kind() == self.kind_with_range(*range),
            r.raw() == self.raw_with_range(*range),
    {
        if matches!(range, SemverRange::Any) {
            proof {
                reveal_strlit("*");
                assert("*"@ =~= seq!['*']);
            }
            return SimpleSemver::Latest(String::from_str("*"));
        }
        match self {
            SimpleSemver::Major(_) | SimpleSemver::Latest(_) => self.duplicate(),
            SimpleSemver::Exact(s) | SimpleSemver::Minor(s) | SimpleSemver::Range(s)
            | SimpleSemver::RangeMajor(s) | SimpleSemver::RangeMinor(s) => {
                let body = strip_range_string(s);
                let mut next = range.unwrap();
                next.append(body.as_str());
                proof {
                    lemma_range_body(*self);
                    let b = strip_range(self.raw());
                    assert(b == body@);
                    if *range == SemverRange::Exact {
                        assert(range_chars(*range) + b =~= b);
                        lemma_bare_version(b);
                        lemma_shapes_disjoint(b, 0);
                    } else {
                        lemma_operator_and_version(*range, b);
                        lemma_shapes_disjoint(b, 0);
                    }
                }
                match SimpleSemver::new(&next) {
                    Ok(v) => v,
                    Err(_) => {
                        proof {
                            assert(false);
                        }
                        self.duplicate()
                    },
                }
            },
        }
    }

    /// Get the semver range of this version, a simple semver specifier always has
    /// a semver range, even if it's `Exact`
    pub fn get_range(&self) -> (r: SemverRange)
        requires
            self.wf(),
        ensures
            r == self.range(),
    {
        match self {
            SimpleSemver::Exact(_) => SemverRange::Exact,
            SimpleSemver::Latest(_) => SemverRange::Any,
            SimpleSemver::Major(_) => SemverRange::Exact,
            SimpleSemver::Minor(_) => SemverRange::Exact,
            SimpleSemver::Range(s) | SimpleSemver::RangeMajor(s) | SimpleSemver::RangeMinor(s) => {
                proof {
                    lemma_range_body(*self);
                    lemma_operator_is_range(s@);
                }
                let v = to_chars(s.as_str());
                let k = range_operator_len(v.as_slice());
                let op = copy_range(v.as_slice(), 0, k);
                assert(op@ =~= s@.take(op_len(s@)));
                let op_string = string_from_chars(op.as_slice());
                match SemverRange::new(op_string.as_str()) {
                    Some(r) => r,
                    None => {
                        proof {
                            assert(false);
                        }
                        SemverRange::Exact
                    },
                }
            },
        }
    }

    /// Does this specifier and the other both have eg "^" as their range?
    pub fn has_same_range(&self, other: &SimpleSemver) -> (r: bool)
        requires
            self.wf(),
            other.wf(),
        ensures
            r == (self.range() == other.range()),
    {
        self.get_range() == other.get_range()
    }

    /// The version string used to order this specifier.
    pub fn get_orderable_version_string(&self) -> (r: String)
        ensures
            r@ == self.orderable_version_chars(),
    {
        match self {
            SimpleSemver::Exact(s) => s.clone(),
            SimpleSemver::Latest(_) => String::from_str("999999.999999.999999"),
            SimpleSemver::Major(s) => {
                let mut r = s.clone();
                r.append(".999999.999999");
                r
            },
            SimpleSemver::Minor(s) => {
                let mut r = s.clone();
                r.append(".999999");
                r
            },
            SimpleSemver::Range(s) => strip_range_string(s),
            SimpleSemver::RangeMajor(s) => {
                let mut r = strip_range_string(s);
                r.append(".999999.999999");
                r
            },
            SimpleSemver::RangeMinor(s) => {
                let mut r = strip_range_string(s);
                r.append(".999999");
                r
            },
        }
    }

    /// Parse this version specifier into a struct we can compare and order;
    /// `None` when node-semver does not accept its version.
    pub fn get_orderable(&self) -> (r: Option<Orderable>)
        requires
            self.wf(),
        ensures
            match r {
                Some(o) => {
                    &&& o.range == self.range()
                    &&& node_semver_version_parse(self.orderable_version_chars()) == Some(o.version@)
                },
                None => node_semver_version_parse(self.orderable_version_chars()) is None,
            },
    {
        let range = self.get_range();
        let version_string = self.get_orderable_version_string();
        match parse_version(version_string.as_str()) {
            Some(version) => Some(Orderable { range, version }),
            None => None,
        }
    }

    /// Regardless of the range, does this specifier and the other both have
    /// eg. "1.4.1" as their version? `false` when node-semver does not accept
    /// the version of either.
    pub fn has_same_version(&self, other: &SimpleSemver) -> (r: bool)
        requires
            self.wf(),
            other.wf(),
        ensures
            r == (match (
                node_semver_version_parse(self.orderable_version_chars()),
                node_semver_version_parse(other.orderable_version_chars()),
            ) {
                (Some(a), Some(b)) => same_version(a, b),
                _ => false,
            }),
    {
        match (self.get_orderable(), other.get_orderable()) {
            (Some(a), Some(b)) => a.version.same_as(&b.version),
            _ => false,
        }
    }
}

/// Giving a simple semver specifier the range it already has changes
/// nothing (a "*" given `Any` stays "*").
pub proof fn law_with_own_range_is_identity(s: SimpleSemver)
    requires
        s.wf(),
        s.kind() == SpecifierKind::Latest ==> s.raw() == seq!['*'],
    ensures
        s.kind_with_range(s.range()) == s.kind(),
        s.raw_with_range(s.range()) == s.raw(),
{
    let raw = s.raw();
    match s.kind() {
        SpecifierKind::Latest | SpecifierKind::Major => {},
        SpecifierKind::Exact | SpecifierKind::Minor => {
            lemma_range_body(s);
            lemma_bare_version(raw);
            lemma_shapes_disjoint(raw, 0);
            assert(range_chars(SemverRange::Exact) + strip_range(raw) =~= raw);
        },
        _ => {
            lemma_range_body(s);
            lemma_operator_is_range(raw);
            lemma_shapes_disjoint(strip_range(raw), 0);
            assert(raw.take(op_len(raw)) + raw.skip(op_len(raw)) =~= raw);
        },
    }
}

/// After its range is replaced by `r`, a simple semver specifier has range
/// `r`, unless it is "1" or "*", whose version is not known in full and
/// which keep their own range; `Any` always gives "*".
pub proof fn law_range_after_with_range(s: SimpleSemver, r: SemverRange, t: SimpleSemver)
    requires
        s.wf(),
        t.wf(),
        t.kind() == s.kind_with_range(r),
        t.raw() == s.raw_with_range(r),
    ensures
        r == SemverRange::Any ==> t.raw() == seq!['*'] && t.range() == SemverRange::Any,
        r != SemverRange::Any && s.kind() != SpecifierKind::Major && s.kind() != SpecifierKind::Latest
            ==> t.range() == r,
        r != SemverRange::Any && (s.kind() == SpecifierKind::Major || s.kind() == SpecifierKind::Latest)
            ==> t.range() == s.range(),
{
    if r != SemverRange::Any && s.kind() != SpecifierKind::Major && s.kind() != SpecifierKind::Latest {
        lemma_range_body(s);
        let b = strip_range(s.raw());
        lemma_shapes_disjoint(b, 0);
        if r != SemverRange::Exact {
            lemma_operator_and_version(r, b);
            lemma_range_roundtrip(r);
        }
    }
    if r != SemverRange::Any && s.kind() == SpecifierKind::Major {
        assert(t.raw() == s.raw());
    }
}

/// Replacing the range of a simple semver specifier keeps its version: the
/// version that follows the operator, and so the version string handed to
/// node-semver to order and compare it (`has_same_version`), are unchanged,
/// unless the range is `Any`, which gives "*".
pub proof fn law_with_range_keeps_version(s: SimpleSemver, r: SemverRange, t: SimpleSemver)
    requires
        s.wf(),
        t.wf(),
        t.kind() == s.kind_with_range(r),
        t.raw() == s.raw_with_range(r),
    ensures
        r != SemverRange::Any ==> strip_range(t.raw()) == strip_range(s.raw()),
        r != SemverRange::Any ==> t.orderable_version_chars() == s.orderable_version_chars(),
{
    if r != SemverRange::Any && s.kind() != SpecifierKind::Major && s.kind() != SpecifierKind::Latest {
        lemma_range_body(s);
        let b = strip_range(s.raw());
        lemma_shapes_disjoint(b, 0);
        if r == SemverRange::Exact {
            assert(range_chars(r) + b =~= b);
            lemma_bare_version(b);
        } else {
            lemma_operator_and_version(r, b);
        }
        if s.kind() == SpecifierKind::Exact || s.kind() == SpecifierKind::Minor {
            lemma_bare_version(s.raw());
        }
    }
}

/// node-semver's range parser reads a simple semver specifier without a
/// panic: it has no `=` comparator and no tilde range with a wildcard.
pub proof fn lemma_simple_semver_readable(s: SimpleSemver)
    requires
        s.wf(),
    ensures
        !unreadable_range(s.raw()),
{
    let raw = s.raw();
    if s.kind() == SpecifierKind::Latest {
        assert forall|i: int| !#[trigger] unreadable_at(raw, i) by {
            if 0 <= i < raw.len() {
                if raw == seq!['l', 'a', 't', 'e', 's', 't'] {
                    assert(raw[i] == 'l' || raw[i] == 'a' || raw[i] == 't' || raw[i] == 'e' || raw[i] == 's');
                } else {
                    assert(raw.len() == 1 && i == 0);
                }
            }
        }
    } else {
        let k = op_len(raw);
        assert(exact_at(raw, k) || minor_at(raw, k) || major_at(raw, k)) by {
            lemma_shapes_begin_with_digit(raw, 0);
        }
        lemma_version_chars(raw, k);
        assert forall|i: int| !#[trigger] unreadable_at(raw, i) by {
            if 0 <= i < raw.len() && comparator_start(raw, i) && i > 0 {
                let c = raw[i - 1];
                if i - 1 >= k {
                    assert(is_prerelease_char(raw[i - 1]));
                }
                assert(c != ' ' && c != '\t' && c != '|');
            }
            if 0 < raw.len() && raw[0] == '~' {
                assert(k == 1);
                assert(skip_blanks(raw, 1) == 1);
                assert(skip_one(raw, 1, '>') == 1);
                assert(skip_one(raw, 1, 'v') == 1);
                assert(version_start(raw, 1) == 1);
            }
        }
    }
}

} // verus!
