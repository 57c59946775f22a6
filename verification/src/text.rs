//! Character-level helpers on strings, shared by the specifier grammar.

use vstd::prelude::*;

verus! {

/// Append one character to a string (`String::push`).
#[verifier::external_body]
pub(crate) fn string_push(s: &mut String, c: char)
    ensures
        final(s)@ == old(s)@.push(c),
{
    s.push(c);
}

/// The characters of a string, in order.
pub fn to_chars(s: &str) -> (r: Vec<char>)
    ensures
        r@ == s@,
{
    let n = s.unicode_len();
    let mut v: Vec<char> = Vec::new();
    let mut i: usize = 0;
    while i < n
        invariant
            n == s@.len(),
            i <= n,
            v@ == s@.subrange(0, i as int),
        decreases n - i,
    {
        v.push(s.get_char(i));
        i = i + 1;
    }
    assert(v@ =~= s@);
    v
}

/// A string made of the given characters, in order.
pub fn string_from_chars(v: &[char]) -> (r: String)
    ensures
        r@ == v@,
{
    let mut s = String::new();
    let mut i: usize = 0;
    while i < v.len()
        invariant
            i <= v@.len(),
            s@ == v@.subrange(0, i as int),
        decreases v@.len() - i,
    {
        string_push(&mut s, v[i]);
        assert(s@ =~= v@.subrange(0, i + 1));
        i = i + 1;
    }
    assert(s@ =~= v@);
    s
}

/// Do two character sequences hold the same characters?
pub fn chars_eq(a: &[char], b: &[char]) -> (r: bool)
    ensures
        r == (a@ == b@),
{
    if a.len() != b.len() {
        return false;
    }
    let mut i: usize = 0;
    while i < a.len()
        invariant
            a@.len() == b@.len(),
            i <= a@.len(),
            forall|j: int| 0 <= j < i ==> a@[j] == b@[j],
        decreases a@.len() - i,
    {
        if a[i] != b[i] {
            return false;
        }
        i = i + 1;
    }
    assert(a@ =~= b@);
    true
}

/// Does the string hold exactly the characters of `b`?
pub fn str_is(a: &str, b: &str) -> (r: bool)
    ensures
        r == (a@ == b@),
{
    let x = to_chars(a);
    let y = to_chars(b);
    chars_eq(x.as_slice(), y.as_slice())
}

/// Does `a` begin with the characters of `prefix`?
pub open spec fn has_prefix(a: Seq<char>, prefix: Seq<char>) -> bool {
    prefix.len() <= a.len() && a.subrange(0, prefix.len() as int) == prefix
}

/// Does `a` begin with the characters of `prefix`?
pub fn starts_with_chars(a: &[char], prefix: &[char]) -> (r: bool)
    ensures
        r == has_prefix(a@, prefix@),
{
    if prefix.len() > a.len() {
        return false;
    }
    let mut i: usize = 0;
    while i < prefix.len()
        invariant
            prefix@.len() <= a@.len(),
            i <= prefix@.len(),
            forall|j: int| 0 <= j < i ==> a@[j] == prefix@[j],
        decreases prefix@.len() - i,
    {
        if a[i] != prefix[i] {
            assert(a@.subrange(0, prefix@.len() as int)[i as int] != prefix@[i as int]);
            return false;
        }
        i = i + 1;
    }
    assert(a@.subrange(0, prefix@.len() as int) =~= prefix@);
    true
}

/// The characters `a..b` of `v`.
pub fn copy_range(v: &[char], a: usize, b: usize) -> (r: Vec<char>)
    requires
        a <= b <= v@.len(),
    ensures
        r@ == v@.subrange(a as int, b as int),
{
    let mut out: Vec<char> = Vec::new();
    let mut i = a;
    while i < b
        invariant
            a <= i <= b,
            b <= v@.len(),
            out@ == v@.subrange(a as int, i as int),
        decreases b - i,
    {
        out.push(v[i]);
        assert(out@ =~= v@.subrange(a as int, i + 1));
        i = i + 1;
    }
    out
}

} // verus!
