//! The ranges that node-semver's range parser cannot read without a panic.
//!
//! `node_semver::Range::parse` reads a range comparator by comparator. An
//! `=` comparator whose major version is a wildcard ("=*", "= x") and a
//! tilde range whose major version is a wildcard ("~*") or whose minor
//! version is a wildcard followed by a patch number ("~1.x.3") reach an
//! `unreachable!` in its parser. A comparator starts at the beginning of the
//! range or after a space, a tab or `|`; this errs on the side of caution,
//! as text before such a `|` can swallow what follows it.

use vstd::prelude::*;
use crate::specifier::regexes::{
    all_prerelease_chars, digit_run, digit_run_at, exact_at, is_digit, is_digit_char, is_prerelease_char, major_at,
    minor_at, numbers_end,
};

verus! {

/// A space or a tab, which node-semver's parser skips between the parts of
/// a comparator.
pub open spec fn is_blank(c: char) -> bool {
    c == ' ' || c == '\t'
}

/// The first index at or after `i` whose character is not blank.
pub open spec fn skip_blanks(s: Seq<char>, i: int) -> int
    decreases s.len() - i,
{
    if 0 <= i < s.len() && is_blank(s[i]) {
        skip_blanks(s, i + 1)
    } else {
        i
    }
}

/// `i`, moved past the character `c` when it stands there.
pub open spec fn skip_one(s: Seq<char>, i: int, c: char) -> int {
    if 0 <= i < s.len() && s[i] == c {
        i + 1
    } else {
        i
    }
}

/// A wildcard version part, "x", "X" or "*", at index `i`.
pub open spec fn wildcard_at(s: Seq<char>, i: int) -> bool {
    0 <= i < s.len() && (s[i] == 'x' || s[i] == 'X' || s[i] == '*')
}

/// A digit at index `i`.
pub open spec fn digit_at(s: Seq<char>, i: int) -> bool {
    0 <= i < s.len() && is_digit(s[i])
}

/// Where the version of a comparator begins when its operator ends at `i`:
/// after blanks, an optional "v" and blanks.
pub open spec fn version_start(s: Seq<char>, i: int) -> int {
    skip_blanks(s, skip_one(s, skip_blanks(s, i), 'v'))
}

/// A comparator may begin at index `i`.
pub open spec fn comparator_start(s: Seq<char>, i: int) -> bool {
    i == 0 || (0 < i <= s.len() && (is_blank(s[i - 1]) || s[i - 1] == '|'))
}

/// An `=` comparator at `i` whose major version is a wildcard.
pub open spec fn exact_wildcard_at(s: Seq<char>, i: int) -> bool {
    0 <= i < s.len() && s[i] == '=' && wildcard_at(s, version_start(s, i + 1))
}

/// A tilde range at `i` ("~" or "~>") whose major version is a wildcard, or
/// whose minor version is a wildcard followed by a patch number.
pub open spec fn tilde_wildcard_at(s: Seq<char>, i: int) -> bool {
    let j = version_start(s, skip_one(s, skip_blanks(s, i + 1), '>'));
    let m = j + digit_run(s, j);
    &&& 0 <= i < s.len()
    &&& s[i] == '~'
    &&& (wildcard_at(s, j) || (digit_at(s, j) && m + 2 < s.len() && s[m] == '.' && wildcard_at(s, m + 1)
        && s[m + 2] == '.' && digit_at(s, m + 3)))
}

/// A comparator that node-semver's range parser panics on begins at `i`.
pub open spec fn unreadable_at(s: Seq<char>, i: int) -> bool {
    0 <= i < s.len() && comparator_start(s, i) && (exact_wildcard_at(s, i) || tilde_wildcard_at(s, i))
}

/// A range that node-semver's range parser may panic on.
pub open spec fn unreadable_range(s: Seq<char>) -> bool {
    exists|i: int| #[trigger] unreadable_at(s, i)
}

fn is_blank_char(c: char) -> (r: bool)
    ensures
        r == is_blank(c),
{
    c == ' ' || c == '\t'
}

fn skip_blanks_from(s: &[char], i: usize) -> (r: usize)
    ensures
        r == skip_blanks(s@, i as int),
        i <= r,
        r > i ==> r <= s@.len(),
{
    let mut j = i;
    while j < s.len() && is_blank_char(s[j])
        invariant
            i <= j,
            j > i ==> j <= s@.len(),
            skip_blanks(s@, i as int) == skip_blanks(s@, j as int),
        decreases s@.len() - j,
    {
        j = j + 1;
    }
    j
}

fn skip_one_from(s: &[char], i: usize, c: char) -> (r: usize)
    ensures
        r == skip_one(s@, i as int, c),
{
    if i < s.len() && s[i] == c {
        i + 1
    } else {
        i
    }
}

fn wildcard_from(s: &[char], i: usize) -> (r: bool)
    ensures
        r == wildcard_at(s@, i as int),
{
    i < s.len() && (s[i] == 'x' || s[i] == 'X' || s[i] == '*')
}

fn digit_from(s: &[char], i: usize) -> (r: bool)
    ensures
        r == digit_at(s@, i as int),
{
    i < s.len() && is_digit_char(s[i])
}

fn version_start_from(s: &[char], i: usize) -> (r: usize)
    requires
        i <= s@.len(),
    ensures
        r == version_start(s@, i as int),
        r <= s@.len(),
{
    let a = skip_blanks_from(s, i);
    let b = skip_one_from(s, a, 'v');
    skip_blanks_from(s, b)
}

fn unreadable_from(s: &[char], i: usize) -> (r: bool)
    requires
        i < s@.len(),
    ensures
        r == unreadable_at(s@, i as int),
{
    let start = i == 0 || is_blank_char(s[i - 1]) || s[i - 1] == '|';
    if !start {
        return false;
    }
    if s[i] == '=' {
        let j = version_start_from(s, i + 1);
        return wildcard_from(s, j);
    }
    if s[i] == '~' {
        let a = skip_blanks_from(s, i + 1);
        let b = skip_one_from(s, a, '>');
        let j = version_start_from(s, b);
        if wildcard_from(s, j) {
            return true;
        }
        if !digit_from(s, j) {
            return false;
        }
        let m = j + digit_run_at(s, j);
        return m < s.len() && s.len() - m > 3 && s[m] == '.' && wildcard_from(s, m + 1) && s[m + 2] == '.' && digit_from(s, m + 3);
    }
    false
}

/// Can node-semver's range parser read the range without a panic?
pub fn range_is_readable(range: &str) -> (r: bool)
    ensures
        r == !unreadable_range(range@),
{
    let v = crate::text::to_chars(range);
    let s = v.as_slice();
    let mut i: usize = 0;
    while i < s.len()
        invariant
            s@ == range@,
            i <= s@.len(),
            forall|k: int| 0 <= k < i ==> !#[trigger] unreadable_at(s@, k),
        decreases s@.len() - i,
    {
        if unreadable_from(s, i) {
            return false;
        }
        i = i + 1;
    }
    proof {
        assert forall|k: int| !#[trigger] unreadable_at(range@, k) by {
            if 0 <= k < s@.len() {
                assert(!unreadable_at(s@, k));
            }
        }
    }
    true
}

/// The digits counted by `digit_run` are digits within the string.
pub proof fn lemma_digit_run_digits(s: Seq<char>, i: int)
    ensures
        digit_run(s, i) >= 0,
        digit_run(s, i) > 0 ==> 0 <= i && i + digit_run(s, i) <= s.len(),
        forall|j: int| i <= j < i + digit_run(s, i) ==> #[trigger] is_digit(s[j]),
    decreases s.len() - i,
{
    if 0 <= i < s.len() && is_digit(s[i]) {
        lemma_digit_run_digits(s, i + 1);
    }
}

/// Dot-separated numbers are made of digits and dots.
pub proof fn lemma_numbers_chars(s: Seq<char>, i: int, n: nat)
    requires
        numbers_end(s, i, n) is Some,
    ensures
        0 <= i < numbers_end(s, i, n).unwrap() <= s.len(),
        forall|j: int|
            i <= j < numbers_end(s, i, n).unwrap() ==> is_digit(#[trigger] s[j]) || s[j] == '.',
    decreases n,
{
    lemma_digit_run_digits(s, i);
    let r = digit_run(s, i);
    if n > 1 {
        lemma_numbers_chars(s, i + r + 1, (n - 1) as nat);
    }
}

/// A version "1.2.3(-pre)", "1.2" or "1" from index `k` to the end holds
/// only digits, dots and pre-release characters there, begins with a digit,
/// and the character after a dot that ends its first number is a digit.
pub proof fn lemma_version_chars(s: Seq<char>, k: int)
    requires
        exact_at(s, k) || minor_at(s, k) || major_at(s, k),
    ensures
        0 <= k < s.len(),
        is_digit(s[k]),
        forall|j: int| k <= j < s.len() ==> is_prerelease_char(#[trigger] s[j]),
        k + digit_run(s, k) < s.len() && s[k + digit_run(s, k)] == '.' ==> digit_at(s, k + digit_run(s, k) + 1),
{
    lemma_digit_run_digits(s, k);
    let r = digit_run(s, k);
    let n: nat = if exact_at(s, k) { 3 } else if minor_at(s, k) { 2 } else { 1 };
    lemma_numbers_chars(s, k, n);
    let e = numbers_end(s, k, n).unwrap();
    assert forall|j: int| k <= j < s.len() implies is_prerelease_char(#[trigger] s[j]) by {
        if j < e {
            assert(is_digit(s[j]) || s[j] == '.');
        } else if j > e {
            assert(all_prerelease_chars(s, e + 1));
        }
    }
    if k + r < s.len() && s[k + r] == '.' {
        if n > 1 {
            assert(numbers_end(s, k + r + 1, (n - 1) as nat) is Some);
            lemma_digit_run_digits(s, k + r + 1);
            assert(digit_run(s, k + r + 1) > 0);
        } else {
            assert(e == k + r);
        }
    }
}

} // verus!
