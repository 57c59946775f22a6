//! The grammar of version specifiers. Each predicate names one of the shapes
//! a specifier can take, such as "1.2.3", "^1.2" or "workspace:*", and comes
//! with a matcher that decides it on the characters of a specifier.

use vstd::prelude::*;
use crate::text::{has_prefix, starts_with_chars};

verus! {

pub open spec fn is_digit(c: char) -> bool {
    '0' <= c && c <= '9'
}

/// Characters allowed in a tag such as "alpha" (ASCII letters, digits, "-").
pub open spec fn is_tag_char(c: char) -> bool {
    ||| ('a' <= c && c <= 'z')
    ||| ('A' <= c && c <= 'Z')
    ||| is_digit(c)
    ||| c == '-'
}

/// Characters allowed in the pre-release part of a version, "rc.18".
pub open spec fn is_prerelease_char(c: char) -> bool {
    is_tag_char(c) || c == '.'
}

/// Number of consecutive digits in `s` from index `i`.
pub open spec fn digit_run(s: Seq<char>, i: int) -> int
    decreases s.len() - i,
{
    if 0 <= i < s.len() && is_digit(s[i]) {
        1 + digit_run(s, i + 1)
    } else {
        0
    }
}

/// End of `parts` dot-separated numbers in `s` starting at `i`, if there are.
pub open spec fn numbers_end(s: Seq<char>, i: int, parts: nat) -> Option<int>
    decreases parts,
{
    let r = digit_run(s, i);
    if r == 0 {
        None
    } else if parts <= 1 {
        Some(i + r)
    } else if i + r < s.len() && s[i + r] == '.' {
        numbers_end(s, i + r + 1, (parts - 1) as nat)
    } else {
        None
    }
}

pub open spec fn all_prerelease_chars(s: Seq<char>, from: int) -> bool {
    forall|j: int| from <= j < s.len() ==> is_prerelease_char(#[trigger] s[j])
}

/// "1.2.3" or "1.2.3-alpha" from index `i` to the end of `s`.
pub open spec fn exact_at(s: Seq<char>, i: int) -> bool {
    match numbers_end(s, i, 3) {
        Some(e) => e == s.len() || (s[e] == '-' && e + 1 < s.len() && all_prerelease_chars(s, e + 1)),
        None => false,
    }
}

/// "1.2" from index `i` to the end of `s`.
pub open spec fn minor_at(s: Seq<char>, i: int) -> bool {
    numbers_end(s, i, 2) == Some(s.len() as int)
}

/// "1" from index `i` to the end of `s`.
pub open spec fn major_at(s: Seq<char>, i: int) -> bool {
    numbers_end(s, i, 1) == Some(s.len() as int)
}

/// Length of the range operator ("^", "~", ">", ">=", "<", "<=") that `s`
/// begins with, or 0 when it begins with none.
pub open spec fn op_len(s: Seq<char>) -> int {
    if s.len() >= 2 && (s[0] == '>' || s[0] == '<') && s[1] == '=' {
        2
    } else if s.len() >= 1 && (s[0] == '^' || s[0] == '~' || s[0] == '>' || s[0] == '<') {
        1
    } else {
        0
    }
}

/// "1.2.3", "1.2.3-alpha"
pub open spec fn spec_exact(s: Seq<char>) -> bool {
    exact_at(s, 0)
}

/// "*", "latest" or "x"
pub open spec fn spec_latest(s: Seq<char>) -> bool {
    s == seq!['*'] || s == seq!['l', 'a', 't', 'e', 's', 't'] || s == seq!['x']
}

/// "1"
pub open spec fn spec_major(s: Seq<char>) -> bool {
    major_at(s, 0)
}

/// "1.2"
pub open spec fn spec_minor(s: Seq<char>) -> bool {
    minor_at(s, 0)
}

/// "^1.2.3", "~1.2.3-alpha", ">=1.2.3" and the like
pub open spec fn spec_range(s: Seq<char>) -> bool {
    op_len(s) > 0 && exact_at(s, op_len(s))
}

/// "^1", "<=1" and the like
pub open spec fn spec_range_major(s: Seq<char>) -> bool {
    op_len(s) > 0 && major_at(s, op_len(s))
}

/// "^1.2", ">1.2" and the like
pub open spec fn spec_range_minor(s: Seq<char>) -> bool {
    op_len(s) > 0 && minor_at(s, op_len(s))
}

/// "alpha", "beta-2": letters, digits and "-" only
pub open spec fn spec_tag(s: Seq<char>) -> bool {
    s.len() > 0 && forall|j: int| 0 <= j < s.len() ==> is_tag_char(#[trigger] s[j])
}

pub open spec fn spec_workspace_protocol(s: Seq<char>) -> bool {
    has_prefix(s, seq!['w', 'o', 'r', 'k', 's', 'p', 'a', 'c', 'e', ':'])
}

pub open spec fn spec_alias(s: Seq<char>) -> bool {
    has_prefix(s, seq!['n', 'p', 'm', ':'])
}

pub open spec fn spec_file(s: Seq<char>) -> bool {
    has_prefix(s, seq!['f', 'i', 'l', 'e', ':'])
}

pub open spec fn spec_url(s: Seq<char>) -> bool {
    has_prefix(s, seq!['h', 't', 't', 'p', ':', '/', '/'])
        || has_prefix(s, seq!['h', 't', 't', 'p', 's', ':', '/', '/'])
}

pub open spec fn spec_git(s: Seq<char>) -> bool {
    ||| has_prefix(s, seq!['g', 'i', 't', ':', '/', '/'])
    ||| has_prefix(s, seq!['g', 'i', 't', '+', 's', 's', 'h', ':', '/', '/'])
    ||| has_prefix(s, seq!['g', 'i', 't', '+', 'h', 't', 't', 'p', ':', '/', '/'])
    ||| has_prefix(s, seq!['g', 'i', 't', '+', 'h', 't', 't', 'p', 's', ':', '/', '/'])
}

/// Is this a simple semver specifier (no "||", no spaces)?
pub open spec fn spec_simple_semver(s: Seq<char>) -> bool {
    ||| spec_exact(s)
    ||| spec_latest(s)
    ||| spec_major(s)
    ||| spec_minor(s)
    ||| spec_range(s)
    ||| spec_range_major(s)
    ||| spec_range_minor(s)
}


/// A run of digits is never negative and stays inside the string.
pub proof fn lemma_digit_run_bounds(s: Seq<char>, i: int)
    requires
        0 <= i,
    ensures
        0 <= digit_run(s, i),
        digit_run(s, i) > 0 ==> i + digit_run(s, i) <= s.len(),
    decreases s.len() - i,
{
    if 0 <= i < s.len() && is_digit(s[i]) {
        lemma_digit_run_bounds(s, i + 1);
    }
}

/// Numbers read from `i` end after `i` and no later than the end of the string.
pub proof fn lemma_numbers_end_bounds(s: Seq<char>, i: int, n: nat)
    requires
        0 <= i,
    ensures
        numbers_end(s, i, n) matches Some(e) ==> i < e <= s.len(),
    decreases n,
{
    lemma_digit_run_bounds(s, i);
    let r = digit_run(s, i);
    if r != 0 && n > 1 && i + r < s.len() && s[i + r] == '.' {
        lemma_numbers_end_bounds(s, i + r + 1, (n - 1) as nat);
    }
}

/// Digits counted after a prefix are the digits of what follows it.
pub proof fn lemma_digit_run_shift(p: Seq<char>, s: Seq<char>, i: int)
    requires
        0 <= i,
    ensures
        digit_run(p + s, p.len() + i) == digit_run(s, i),
    decreases s.len() - i,
{
    if 0 <= i < s.len() {
        assert((p + s)[p.len() + i] == s[i]);
        if is_digit(s[i]) {
            lemma_digit_run_shift(p, s, i + 1);
        }
    }
}

/// Numbers read after a prefix end where they end in what follows it.
pub proof fn lemma_numbers_end_shift(p: Seq<char>, s: Seq<char>, i: int, n: nat)
    requires
        0 <= i,
    ensures
        numbers_end(p + s, p.len() + i, n) == (match numbers_end(s, i, n) {
            Some(e) => Some(e + p.len()),
            None => None,
        }),
    decreases n,
{
    lemma_digit_run_shift(p, s, i);
    lemma_digit_run_bounds(s, i);
    let r = digit_run(s, i);
    if r != 0 && n > 1 && i + r < s.len() {
        assert((p + s)[p.len() + i + r] == s[i + r]);
        if s[i + r] == '.' {
            lemma_numbers_end_shift(p, s, i + r + 1, (n - 1) as nat);
        }
    }
}

/// Shapes read after a prefix are the shapes of what follows it.
pub proof fn lemma_shapes_shift(p: Seq<char>, s: Seq<char>)
    ensures
        exact_at(p + s, p.len() as int) == exact_at(s, 0),
        minor_at(p + s, p.len() as int) == minor_at(s, 0),
        major_at(p + s, p.len() as int) == major_at(s, 0),
{
    lemma_numbers_end_shift(p, s, 0, 3);
    lemma_numbers_end_shift(p, s, 0, 2);
    lemma_numbers_end_shift(p, s, 0, 1);
    lemma_numbers_end_bounds(s, 0, 3);
    let q = p + s;
    if let Some(e) = numbers_end(s, 0, 3) {
        if e < s.len() {
            assert(q[e + p.len()] == s[e]);
        }
        if all_prerelease_chars(s, e + 1) {
            assert forall|j: int| e + p.len() + 1 <= j < q.len() implies is_prerelease_char(#[trigger] q[j]) by {
                assert(q[j] == s[j - p.len()]);
                assert(is_prerelease_char(s[j - p.len()]));
            }
        }
        if all_prerelease_chars(q, e + p.len() + 1) {
            assert forall|j: int| e + 1 <= j < s.len() implies is_prerelease_char(#[trigger] s[j]) by {
                assert(q[j + p.len()] == s[j]);
            }
        }
    }
}

/// Once all of `s` has been read as `n` numbers, no further number follows.
pub proof fn lemma_numbers_end_no_extend(s: Seq<char>, i: int, n: nat)
    requires
        n >= 1,
        numbers_end(s, i, n) == Some(s.len() as int),
    ensures
        numbers_end(s, i, n + 1) is None,
    decreases n,
{
    let r = digit_run(s, i);
    if n > 1 {
        lemma_numbers_end_no_extend(s, i + r + 1, (n - 1) as nat);
    }
}

/// A string that does not begin with `n` numbers does not begin with more.
pub proof fn lemma_numbers_end_none_extends(s: Seq<char>, i: int, n: nat)
    requires
        n >= 1,
        numbers_end(s, i, n) is None,
    ensures
        numbers_end(s, i, n + 1) is None,
    decreases n,
{
    let r = digit_run(s, i);
    if n > 1 && r != 0 && i + r < s.len() && s[i + r] == '.' {
        lemma_numbers_end_none_extends(s, i + r + 1, (n - 1) as nat);
    }
}

/// "1.2.3", "1.2" and "1" are shapes that no string has two of at once.
pub proof fn lemma_shapes_disjoint(s: Seq<char>, i: int)
    ensures
        exact_at(s, i) ==> !minor_at(s, i) && !major_at(s, i),
        minor_at(s, i) ==> !major_at(s, i),
{
    if minor_at(s, i) {
        lemma_numbers_end_no_extend(s, i, 2);
    }
    if major_at(s, i) {
        lemma_numbers_end_no_extend(s, i, 1);
        lemma_numbers_end_none_extends(s, i, 2);
    }
}

/// A shape read from index `k` is the shape of the characters from `k` on.
pub proof fn lemma_shapes_suffix(s: Seq<char>, k: int)
    requires
        0 <= k <= s.len(),
    ensures
        exact_at(s, k) == exact_at(s.subrange(k, s.len() as int), 0),
        minor_at(s, k) == minor_at(s.subrange(k, s.len() as int), 0),
        major_at(s, k) == major_at(s.subrange(k, s.len() as int), 0),
{
    let p = s.subrange(0, k);
    let t = s.subrange(k, s.len() as int);
    assert(p + t =~= s);
    lemma_shapes_shift(p, t);
}

/// Each shape begins with a digit.
pub proof fn lemma_shapes_begin_with_digit(s: Seq<char>, i: int)
    ensures
        (exact_at(s, i) || minor_at(s, i) || major_at(s, i)) ==> 0 <= i < s.len() && is_digit(s[i]),
{
    if exact_at(s, i) || minor_at(s, i) || major_at(s, i) {
        assert(digit_run(s, i) != 0);
    }
}

pub fn is_digit_char(c: char) -> (r: bool)
    ensures
        r == is_digit(c),
{
    '0' <= c && c <= '9'
}

pub fn is_tag_character(c: char) -> (r: bool)
    ensures
        r == is_tag_char(c),
{
    ('a' <= c && c <= 'z') || ('A' <= c && c <= 'Z') || ('0' <= c && c <= '9') || c == '-'
}

/// Number of consecutive digits from index `i`.
pub fn digit_run_at(s: &[char], i: usize) -> (r: usize)
    ensures
        r == digit_run(s@, i as int),
        r > 0 ==> i + r <= s@.len(),
{
    let mut j = i;
    while j < s.len() && is_digit_char(s[j])
        invariant
            i <= j,
            j > i ==> j <= s@.len(),
            digit_run(s@, i as int) == (j - i) + digit_run(s@, j as int),
        decreases s@.len() - j,
    {
        j = j + 1;
    }
    j - i
}

/// End of `parts` dot-separated numbers from index `i`, if there are.
pub fn numbers_end_at(s: &[char], i: usize, parts: usize) -> (r: Option<usize>)
    ensures
        r matches Some(e) ==> numbers_end(s@, i as int, parts as nat) == Some(e as int) && e <= s@.len(),
        r is None ==> numbers_end(s@, i as int, parts as nat) is None,
    decreases parts,
{
    let run = digit_run_at(s, i);
    let n = s.len();
    if run == 0 {
        None
    } else if parts <= 1 {
        Some(i + run)
    } else if i + run < s.len() && s[i + run] == '.' {
        numbers_end_at(s, i + run + 1, parts - 1)
    } else {
        None
    }
}

fn all_prerelease_chars_from(s: &[char], from: usize) -> (r: bool)
    ensures
        r == all_prerelease_chars(s@, from as int),
{
    let mut j = from;
    while j < s.len()
        invariant
            from <= j,
            forall|k: int| from <= k < j ==> is_prerelease_char(#[trigger] s@[k]),
        decreases s@.len() - j,
    {
        if !(is_tag_character(s[j]) || s[j] == '.') {
            return false;
        }
        j = j + 1;
    }
    true
}

pub fn exact_from(s: &[char], i: usize) -> (r: bool)
    ensures
        r == exact_at(s@, i as int),
{
    match numbers_end_at(s, i, 3) {
        Some(e) => e == s.len() || (s[e] == '-' && e + 1 < s.len() && all_prerelease_chars_from(s, e + 1)),
        None => false,
    }
}

pub fn minor_from(s: &[char], i: usize) -> (r: bool)
    ensures
        r == minor_at(s@, i as int),
{
    match numbers_end_at(s, i, 2) {
        Some(e) => e == s.len(),
        None => false,
    }
}

pub fn major_from(s: &[char], i: usize) -> (r: bool)
    ensures
        r == major_at(s@, i as int),
{
    match numbers_end_at(s, i, 1) {
        Some(e) => e == s.len(),
        None => false,
    }
}

/// Length of the range operator the characters begin with.
pub fn range_operator_len(s: &[char]) -> (r: usize)
    ensures
        r == op_len(s@),
{
    if s.len() >= 2 && (s[0] == '>' || s[0] == '<') && s[1] == '=' {
        2
    } else if s.len() >= 1 && (s[0] == '^' || s[0] == '~' || s[0] == '>' || s[0] == '<') {
        1
    } else {
        0
    }
}

pub fn matches_exact(s: &[char]) -> (r: bool)
    ensures
        r == spec_exact(s@),
{
    exact_from(s, 0)
}

pub fn matches_latest(s: &[char]) -> (r: bool)
    ensures
        r == spec_latest(s@),
{
    let r1 = s.len() == 1 && s[0] == '*';
    let r2 = s.len() == 6 && s[0] == 'l' && s[1] == 'a' && s[2] == 't' && s[3] == 'e' && s[4] == 's' && s[5] == 't';
    let r3 = s.len() == 1 && s[0] == 'x';
    proof {
        if r1 { assert(s@ =~= seq!['*']); }
        if r2 { assert(s@ =~= seq!['l', 'a', 't', 'e', 's', 't']); }
        if r3 { assert(s@ =~= seq!['x']); }
        if s@ == seq!['*'] { assert(s@[0] == '*'); }
        if s@ == seq!['x'] { assert(s@[0] == 'x'); }
        if s@ == seq!['l', 'a', 't', 'e', 's', 't'] {
            assert(s@[0] == 'l' && s@[1] == 'a' && s@[2] == 't' && s@[3] == 'e' && s@[4] == 's' && s@[5] == 't');
        }
    }
    r1 || r2 || r3
}

pub fn matches_major(s: &[char]) -> (r: bool)
    ensures
        r == spec_major(s@),
{
    major_from(s, 0)
}

pub fn matches_minor(s: &[char]) -> (r: bool)
    ensures
        r == spec_minor(s@),
{
    minor_from(s, 0)
}

pub fn matches_range(s: &[char]) -> (r: bool)
    ensures
        r == spec_range(s@),
{
    let k = range_operator_len(s);
    k > 0 && exact_from(s, k)
}

pub fn matches_range_major(s: &[char]) -> (r: bool)
    ensures
        r == spec_range_major(s@),
{
    let k = range_operator_len(s);
    k > 0 && major_from(s, k)
}

pub fn matches_range_minor(s: &[char]) -> (r: bool)
    ensures
        r == spec_range_minor(s@),
{
    let k = range_operator_len(s);
    k > 0 && minor_from(s, k)
}

pub fn matches_tag(s: &[char]) -> (r: bool)
    ensures
        r == spec_tag(s@),
{
    if s.len() == 0 {
        return false;
    }
    let mut j: usize = 0;
    while j < s.len()
        invariant
            forall|k: int| 0 <= k < j ==> is_tag_char(#[trigger] s@[k]),
        decreases s@.len() - j,
    {
        if !is_tag_character(s[j]) {
            return false;
        }
        j = j + 1;
    }
    true
}

pub fn matches_workspace_protocol(s: &[char]) -> (r: bool)
    ensures
        r == spec_workspace_protocol(s@),
{
    let p = ['w', 'o', 'r', 'k', 's', 'p', 'a', 'c', 'e', ':'];
    assert(p@ =~= seq!['w', 'o', 'r', 'k', 's', 'p', 'a', 'c', 'e', ':']);
    starts_with_chars(s, &p)
}

pub fn matches_alias(s: &[char]) -> (r: bool)
    ensures
        r == spec_alias(s@),
{
    let p = ['n', 'p', 'm', ':'];
    assert(p@ =~= seq!['n', 'p', 'm', ':']);
    starts_with_chars(s, &p)
}

pub fn matches_file(s: &[char]) -> (r: bool)
    ensures
        r == spec_file(s@),
{
    let p = ['f', 'i', 'l', 'e', ':'];
    assert(p@ =~= seq!['f', 'i', 'l', 'e', ':']);
    starts_with_chars(s, &p)
}

pub fn matches_url(s: &[char]) -> (r: bool)
    ensures
        r == spec_url(s@),
{
    let p1 = ['h', 't', 't', 'p', ':', '/', '/'];
    let p2 = ['h', 't', 't', 'p', 's', ':', '/', '/'];
    assert(p1@ =~= seq!['h', 't', 't', 'p', ':', '/', '/']);
    assert(p2@ =~= seq!['h', 't', 't', 'p', 's', ':', '/', '/']);
    starts_with_chars(s, &p1) || starts_with_chars(s, &p2)
}

pub fn matches_git(s: &[char]) -> (r: bool)
    ensures
        r == spec_git(s@),
{
    let p1 = ['g', 'i', 't', ':', '/', '/'];
    let p2 = ['g', 'i', 't', '+', 's', 's', 'h', ':', '/', '/'];
    let p3 = ['g', 'i', 't', '+', 'h', 't', 't', 'p', ':', '/', '/'];
    let p4 = ['g', 'i', 't', '+', 'h', 't', 't', 'p', 's', ':', '/', '/'];
    assert(p1@ =~= seq!['g', 'i', 't', ':', '/', '/']);
    assert(p2@ =~= seq!['g', 'i', 't', '+', 's', 's', 'h', ':', '/', '/']);
    assert(p3@ =~= seq!['g', 'i', 't', '+', 'h', 't', 't', 'p', ':', '/', '/']);
    assert(p4@ =~= seq!['g', 'i', 't', '+', 'h', 't', 't', 'p', 's', ':', '/', '/']);
    starts_with_chars(s, &p1) || starts_with_chars(s, &p2) || starts_with_chars(s, &p3)
        || starts_with_chars(s, &p4)
}

} // verus!
