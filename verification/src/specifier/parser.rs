//! Turning a raw version string into the kind of specifier it is.

use vstd::prelude::*;
use crate::specifier::regexes::{
    digit_run, is_digit, numbers_end, is_tag_char, matches_alias, matches_exact, matches_file, matches_git, matches_latest,
    matches_major, matches_minor, matches_range, matches_range_major, matches_range_minor, matches_tag,
    matches_url, matches_workspace_protocol, op_len, spec_alias, spec_exact, spec_file, spec_git, spec_latest,
    spec_major, spec_minor, spec_range, spec_range_major, spec_range_minor, spec_simple_semver, spec_tag,
    spec_url, spec_workspace_protocol,
};
use crate::specifier::specifier_tree::SpecifierTree;
use crate::specifier::{AnySpecifier, SpecifierKind, any_kind, any_raw};
use crate::text::{copy_range, has_prefix, to_chars, str_is, string_from_chars};

verus! {

/// "latest" and "x" behave exactly like "*" and are read as "*".
pub open spec fn sanitised(s: Seq<char>) -> Seq<char> {
    if s == seq!['l', 'a', 't', 'e', 's', 't'] || s == seq!['x'] {
        seq!['*']
    } else {
        s
    }
}

/// The kind of specifier `parse` gives a (sanitised) string. With
/// `is_recursive`, a string is never read as a complex range.
pub open spec fn parse_kind(s: Seq<char>, is_recursive: bool) -> SpecifierKind {
    if spec_exact(s) {
        SpecifierKind::Exact
    } else if spec_range(s) {
        SpecifierKind::Range
    } else if spec_latest(s) {
        SpecifierKind::Latest
    } else if spec_workspace_protocol(s) {
        SpecifierKind::WorkspaceProtocol
    } else if spec_alias(s) {
        SpecifierKind::Alias
    } else if spec_major(s) {
        SpecifierKind::Major
    } else if spec_minor(s) {
        SpecifierKind::Minor
    } else if spec_tag(s) {
        SpecifierKind::Tag
    } else if spec_git(s) {
        SpecifierKind::Git
    } else if spec_url(s) {
        SpecifierKind::Url
    } else if spec_range_minor(s) {
        SpecifierKind::RangeMinor
    } else if spec_range_major(s) {
        SpecifierKind::RangeMajor
    } else if spec_file(s) {
        SpecifierKind::File
    } else if !is_recursive && spec_complex_range(s) {
        SpecifierKind::RangeComplex
    } else {
        SpecifierKind::Unsupported
    }
}

/// Is this kind one of the simple semver kinds?
pub open spec fn is_simple_kind(k: SpecifierKind) -> bool {
    ||| k == SpecifierKind::Exact
    ||| k == SpecifierKind::Latest
    ||| k == SpecifierKind::Major
    ||| k == SpecifierKind::Minor
    ||| k == SpecifierKind::Range
    ||| k == SpecifierKind::RangeMajor
    ||| k == SpecifierKind::RangeMinor
}

/// White space as `char::is_whitespace` defines it (the Unicode White_Space
/// property).
pub open spec fn is_ws(c: char) -> bool {
    ||| ('\u{9}' <= c && c <= '\u{D}')
    ||| c == ' '
    ||| c == '\u{85}'
    ||| c == '\u{A0}'
    ||| c == '\u{1680}'
    ||| ('\u{2000}' <= c && c <= '\u{200A}')
    ||| c == '\u{2028}'
    ||| c == '\u{2029}'
    ||| c == '\u{202F}'
    ||| c == '\u{205F}'
    ||| c == '\u{3000}'
}

/// First index in `a..b` that is not white space (or `b`).
pub open spec fn skip_ws_forward(s: Seq<char>, a: int, b: int) -> int
    decreases b - a,
{
    if a < b && is_ws(s[a]) {
        skip_ws_forward(s, a + 1, b)
    } else {
        a
    }
}

/// End of `a..b` once trailing white space is removed.
pub open spec fn skip_ws_backward(s: Seq<char>, a: int, b: int) -> int
    decreases b - a,
{
    if a < b && is_ws(s[b - 1]) {
        skip_ws_backward(s, a, b - 1)
    } else {
        b
    }
}

/// The characters `a..b` of `s` with white space trimmed from both ends.
pub open spec fn trimmed(s: Seq<char>, a: int, b: int) -> Seq<char> {
    let x = skip_ws_forward(s, a, b);
    s.subrange(x, skip_ws_backward(s, x, b))
}

/// A piece of a range, trimmed, is either empty or a simple semver specifier.
pub open spec fn piece_ok(s: Seq<char>, a: int, b: int) -> bool {
    let t = trimmed(s, a, b);
    t.len() == 0 || spec_simple_semver(t)
}

/// Scanning `s` from `i`, with the current piece starting at `start`: every
/// piece between " " and "||" separators is acceptable.
pub open spec fn pieces_ok(s: Seq<char>, i: int, start: int) -> bool
    decreases s.len() - i,
{
    if i >= s.len() {
        piece_ok(s, start, s.len() as int)
    } else if s[i] == ' ' {
        piece_ok(s, start, i) && pieces_ok(s, i + 1, i + 1)
    } else if i + 1 < s.len() && s[i] == '|' && s[i + 1] == '|' {
        piece_ok(s, start, i) && pieces_ok(s, i + 2, i + 2)
    } else {
        pieces_ok(s, i + 1, start)
    }
}

/// Scanning `s` from `i`, with the current piece starting at `start`: is
/// some piece between " " and "||" separators, trimmed, not empty?
pub open spec fn has_part(s: Seq<char>, i: int, start: int) -> bool
    decreases s.len() - i,
{
    if i >= s.len() {
        trimmed(s, start, s.len() as int).len() > 0
    } else if s[i] == ' ' {
        trimmed(s, start, i).len() > 0 || has_part(s, i + 1, i + 1)
    } else if i + 1 < s.len() && s[i] == '|' && s[i + 1] == '|' {
        trimmed(s, start, i).len() > 0 || has_part(s, i + 2, i + 2)
    } else {
        has_part(s, i + 1, start)
    }
}

/// A range made of simple semver specifiers joined by " " (AND) and "||" (OR),
/// such as ">=1.0.0 <2.0.0 || ^3.0.0": it has at least one part, and every
/// part is simple semver.
pub open spec fn spec_complex_range(s: Seq<char>) -> bool {
    pieces_ok(s, 0, 0) && has_part(s, 0, 0)
}

/// `parse` on a string sees a simple semver kind exactly when the string is
/// simple semver.
pub proof fn lemma_parse_kind_simple(s: Seq<char>)
    ensures
        is_simple_kind(parse_kind(s, true)) == spec_simple_semver(s),
        is_simple_kind(parse_kind(s, false)) == spec_simple_semver(s),
{
    if spec_range_minor(s) || spec_range_major(s) {
        assert(op_len(s) > 0);
        assert(s[0] == '^' || s[0] == '~' || s[0] == '>' || s[0] == '<');
        assert(!is_tag_char(s[0]));
        if spec_workspace_protocol(s) {
            assert(s.subrange(0, 10)[0] == 'w');
        }
        if spec_alias(s) {
            assert(s.subrange(0, 4)[0] == 'n');
        }
        if spec_git(s) {
            assert(s.subrange(0, 6)[0] == 'g');
        }
        if spec_url(s) {
            assert(s.subrange(0, 7)[0] == 'h');
        }
        assert(!spec_tag(s));
        assert(!spec_major(s) && !spec_minor(s)) by {
            assert(digit_run(s, 0) == 0);
        }
    }
    if spec_major(s) || spec_minor(s) {
        assert(numbers_end(s, 0, 1) is Some || numbers_end(s, 0, 2) is Some);
        assert(digit_run(s, 0) != 0);
        assert(is_digit(s[0]));
        if spec_workspace_protocol(s) {
            assert(s.subrange(0, 10)[0] == 'w');
        }
        if spec_alias(s) {
            assert(s.subrange(0, 4)[0] == 'n');
        }
    }
}


/// What no simple semver, keyword, workspace, alias or tag shape can be: a
/// string whose first character is a letter other than those that begin
/// "latest", "x", "workspace:" and "npm:", and that has a character which no
/// tag holds at `bad`.
proof fn lemma_not_earlier_kind(s: Seq<char>, bad: int)
    requires
        s.len() > 1,
        s[0] != 'l' && s[0] != 'x' && s[0] != 'w' && s[0] != 'n' && s[0] != '*',
        !is_digit(s[0]),
        s[0] != '^' && s[0] != '~' && s[0] != '>' && s[0] != '<',
        0 <= bad < s.len(),
        !is_tag_char(s[bad]),
    ensures
        !spec_exact(s) && !spec_range(s) && !spec_latest(s) && !spec_workspace_protocol(s) && !spec_alias(s),
        !spec_major(s) && !spec_minor(s) && !spec_tag(s) && !spec_range_minor(s) && !spec_range_major(s),
        sanitised(s) == s,
{
    assert(digit_run(s, 0) == 0);
    assert(numbers_end(s, 0, 3) is None);
    assert(numbers_end(s, 0, 2) is None);
    assert(numbers_end(s, 0, 1) is None);
    assert(op_len(s) == 0);
    if s == seq!['*'] || s == seq!['x'] || s == seq!['l', 'a', 't', 'e', 's', 't'] {
        assert(s[0] == '*' || s[0] == 'x' || s[0] == 'l');
    }
    if spec_workspace_protocol(s) {
        assert(s.subrange(0, 10)[0] == 'w');
    }
    if spec_alias(s) {
        assert(s.subrange(0, 4)[0] == 'n');
    }
}

/// Every string that begins with "git://", "git+ssh://", "git+http://" or
/// "git+https://" is read as a git specifier.
pub proof fn law_git_urls_are_git_specifiers(s: Seq<char>, is_recursive: bool)
    requires
        has_prefix(s, seq!['g', 'i', 't', ':', '/', '/'])
            || has_prefix(s, seq!['g', 'i', 't', '+', 's', 's', 'h', ':', '/', '/'])
            || has_prefix(s, seq!['g', 'i', 't', '+', 'h', 't', 't', 'p', ':', '/', '/'])
            || has_prefix(s, seq!['g', 'i', 't', '+', 'h', 't', 't', 'p', 's', ':', '/', '/']),
    ensures
        parse_kind(s, is_recursive) == SpecifierKind::Git,
        crate::specifier::new_kind(s) == SpecifierKind::Git,
{
    assert(s[0] == s.subrange(0, 6)[0]);
    assert(s[3] == s.subrange(0, 6)[3]);
    assert(s[0] == 'g');
    assert(s[3] == ':' || s[3] == '+');
    lemma_not_earlier_kind(s, 3);
}

/// Every string that begins with "http://" or "https://" is read as a url
/// specifier.
pub proof fn law_http_urls_are_url_specifiers(s: Seq<char>, is_recursive: bool)
    requires
        has_prefix(s, seq!['h', 't', 't', 'p', ':', '/', '/'])
            || has_prefix(s, seq!['h', 't', 't', 'p', 's', ':', '/', '/']),
    ensures
        parse_kind(s, is_recursive) == SpecifierKind::Url,
        crate::specifier::new_kind(s) == SpecifierKind::Url,
{
    assert(s[0] == s.subrange(0, 7)[0]);
    assert(s[4] == s.subrange(0, 7)[4]);
    assert(s[5] == s.subrange(0, 7)[5]);
    assert(s[0] == 'h');
    let bad = if s[4] == ':' { 4 } else { 5 };
    assert(s[bad] == ':');
    lemma_not_earlier_kind(s, bad);
    if spec_git(s) {
        assert(s.subrange(0, 6)[0] == 'g' || s.subrange(0, 10)[0] == 'g' || s.subrange(0, 11)[0] == 'g'
            || s.subrange(0, 12)[0] == 'g');
    }
}

/// Every string that begins with "workspace:" is read as the workspace
/// protocol, one that begins with "npm:" as an alias, and one that begins
/// with "file:" as a file specifier.
pub proof fn law_protocol_prefixes(s: Seq<char>, is_recursive: bool)
    ensures
        has_prefix(s, seq!['w', 'o', 'r', 'k', 's', 'p', 'a', 'c', 'e', ':']) ==> parse_kind(s, is_recursive)
            == SpecifierKind::WorkspaceProtocol && crate::specifier::new_kind(s) == SpecifierKind::WorkspaceProtocol,
        has_prefix(s, seq!['n', 'p', 'm', ':']) ==> parse_kind(s, is_recursive) == SpecifierKind::Alias
            && crate::specifier::new_kind(s) == SpecifierKind::Alias,
        has_prefix(s, seq!['f', 'i', 'l', 'e', ':']) ==> parse_kind(s, is_recursive) == SpecifierKind::File
            && crate::specifier::new_kind(s) == SpecifierKind::File,
{
    if s.len() > 0 {
        assert(digit_run(s, 0) == 0 || is_digit(s[0]));
    }
    if has_prefix(s, seq!['w', 'o', 'r', 'k', 's', 'p', 'a', 'c', 'e', ':']) {
        assert(s[0] == s.subrange(0, 10)[0]);
        assert(s[9] == s.subrange(0, 10)[9]);
        assert(s[0] == 'w');
        assert(digit_run(s, 0) == 0);
        assert(numbers_end(s, 0, 3) is None);
        assert(op_len(s) == 0);
        if s == seq!['*'] || s == seq!['x'] || s == seq!['l', 'a', 't', 'e', 's', 't'] {
            assert(s[0] == '*' || s[0] == 'x' || s[0] == 'l');
        }
    }
    if has_prefix(s, seq!['n', 'p', 'm', ':']) {
        assert(s[0] == s.subrange(0, 4)[0]);
        assert(s[3] == s.subrange(0, 4)[3]);
        lemma_not_earlier_kind_but_alias(s);
    }
    if has_prefix(s, seq!['f', 'i', 'l', 'e', ':']) {
        assert(s[0] == s.subrange(0, 5)[0]);
        assert(s[4] == s.subrange(0, 5)[4]);
        lemma_not_earlier_kind(s, 4);
        if spec_git(s) {
            assert(s.subrange(0, 6)[0] == 'g' || s.subrange(0, 10)[0] == 'g' || s.subrange(0, 11)[0] == 'g'
                || s.subrange(0, 12)[0] == 'g');
        }
        if spec_url(s) {
            assert(s.subrange(0, 7)[0] == 'h' || s.subrange(0, 8)[0] == 'h');
        }
    }
}

/// A string that begins with "npm:" has none of the shapes tried before an
/// alias.
proof fn lemma_not_earlier_kind_but_alias(s: Seq<char>)
    requires
        s.len() >= 4,
        s[0] == 'n',
        s[3] == ':',
    ensures
        !spec_exact(s) && !spec_range(s) && !spec_latest(s) && !spec_workspace_protocol(s),
        sanitised(s) == s,
{
    assert(digit_run(s, 0) == 0);
    assert(numbers_end(s, 0, 3) is None);
    assert(op_len(s) == 0);
    if s == seq!['*'] || s == seq!['x'] || s == seq!['l', 'a', 't', 'e', 's', 't'] {
        assert(s[0] == '*' || s[0] == 'x' || s[0] == 'l');
    }
    if spec_workspace_protocol(s) {
        assert(s.subrange(0, 10)[0] == 'w');
    }
}

/// Convert non-semver specifiers to semver when behaviour is identical:
/// "latest" and "x" become "*".
pub fn sanitise<'a>(specifier: &'a String) -> (r: &'a str)
    ensures
        r@ == sanitised(specifier@),
{
    let s = specifier.as_str();
    proof {
        reveal_strlit("latest");
        reveal_strlit("x");
        reveal_strlit("*");
        assert("latest"@ =~= seq!['l', 'a', 't', 'e', 's', 't']);
        assert("x"@ =~= seq!['x']);
        assert("*"@ =~= seq!['*']);
    }
    if str_is(s, "latest") || str_is(s, "x") {
        "*"
    } else {
        s
    }
}

pub fn is_exact(specifier: &str) -> (r: bool)
    ensures
        r == spec_exact(specifier@),
{
    let v = to_chars(specifier);
    matches_exact(v.as_slice())
}

pub fn is_latest(specifier: &str) -> (r: bool)
    ensures
        r == spec_latest(specifier@),
{
    let v = to_chars(specifier);
    matches_latest(v.as_slice())
}

pub fn is_major(specifier: &str) -> (r: bool)
    ensures
        r == spec_major(specifier@),
{
    let v = to_chars(specifier);
    matches_major(v.as_slice())
}

pub fn is_minor(specifier: &str) -> (r: bool)
    ensures
        r == spec_minor(specifier@),
{
    let v = to_chars(specifier);
    matches_minor(v.as_slice())
}

/// "^1.2.3", "~1.2.3", ">1.2.3", ">=1.2.3", "<1.2.3", "<=1.2.3", each with or
/// without a pre-release tag.
pub fn is_range(specifier: &str) -> (r: bool)
    ensures
        r == spec_range(specifier@),
{
    let v = to_chars(specifier);
    matches_range(v.as_slice())
}

/// "^1", "~1", ">1", ">=1", "<1", "<=1"
pub fn is_range_major(specifier: &str) -> (r: bool)
    ensures
        r == spec_range_major(specifier@),
{
    let v = to_chars(specifier);
    matches_range_major(v.as_slice())
}

/// "^1.2", "~1.2", ">1.2", ">=1.2", "<1.2", "<=1.2"
pub fn is_range_minor(specifier: &str) -> (r: bool)
    ensures
        r == spec_range_minor(specifier@),
{
    let v = to_chars(specifier);
    matches_range_minor(v.as_slice())
}

pub fn is_white_space(c: char) -> (r: bool)
    ensures
        r == is_ws(c),
{
    ('\u{9}' <= c && c <= '\u{D}') || c == ' ' || c == '\u{85}' || c == '\u{A0}' || c == '\u{1680}'
        || ('\u{2000}' <= c && c <= '\u{200A}') || c == '\u{2028}' || c == '\u{2029}' || c
        == '\u{202F}' || c == '\u{205F}' || c == '\u{3000}'
}

/// Is the piece `a..b` of `v`, trimmed, empty or simple semver?
fn check_piece(v: &[char], a: usize, b: usize) -> (r: bool)
    requires
        a <= b <= v@.len(),
    ensures
        r == piece_ok(v@, a as int, b as int),
    decreases 1int, 0int,
{
    let mut x = a;
    while x < b && is_white_space(v[x])
        invariant
            a <= x <= b,
            b <= v@.len(),
            skip_ws_forward(v@, a as int, b as int) == skip_ws_forward(v@, x as int, b as int),
        decreases b - x,
    {
        x = x + 1;
    }
    let mut y = b;
    while x < y && is_white_space(v[y - 1])
        invariant
            x <= y <= b,
            b <= v@.len(),
            skip_ws_backward(v@, x as int, b as int) == skip_ws_backward(v@, x as int, y as int),
        decreases y - x,
    {
        y = y - 1;
    }
    assert(skip_ws_forward(v@, a as int, b as int) == x);
    assert(skip_ws_backward(v@, x as int, b as int) == y);
    if x == y {
        return true;
    }
    let piece_chars = copy_range(v, x, y);
    let piece = string_from_chars(piece_chars.as_slice());
    let parsed = parse(&piece, true);
    proof {
        lemma_parse_kind_simple(sanitised(piece@));
        assert(sanitised(sanitised(piece@)) == sanitised(piece@)) by {
            assert(seq!['*'] != seq!['l', 'a', 't', 'e', 's', 't']);
            assert(seq!['*'][0] != seq!['x'][0]);
        }
    }
    let tree = SpecifierTree::new(&parsed);
    proof {
        assert(spec_simple_semver(sanitised(piece@)) == spec_simple_semver(piece@)) by {
            if piece@ == seq!['l', 'a', 't', 'e', 's', 't'] || piece@ == seq!['x'] {
                assert(spec_latest(piece@));
                assert(spec_latest(seq!['*']));
            }
        }
    }
    tree.is_simple_semver()
}

/// Is the piece `a..b` of `v`, trimmed, not empty?
fn piece_nonempty(v: &[char], a: usize, b: usize) -> (r: bool)
    requires
        a <= b <= v@.len(),
    ensures
        r == (trimmed(v@, a as int, b as int).len() > 0),
{
    let mut x = a;
    while x < b && is_white_space(v[x])
        invariant
            a <= x <= b,
            b <= v@.len(),
            skip_ws_forward(v@, a as int, b as int) == skip_ws_forward(v@, x as int, b as int),
        decreases b - x,
    {
        x = x + 1;
    }
    let mut y = b;
    while x < y && is_white_space(v[y - 1])
        invariant
            x <= y <= b,
            b <= v@.len(),
            skip_ws_backward(v@, x as int, b as int) == skip_ws_backward(v@, x as int, y as int),
        decreases y - x,
    {
        y = y - 1;
    }
    assert(skip_ws_forward(v@, a as int, b as int) == x);
    assert(skip_ws_backward(v@, x as int, b as int) == y);
    x < y
}

/// Is this a semver range containing multiple parts, such as OR (" || ") or
/// AND (" ") conditions, each of them simple semver?
pub fn is_complex_range(specifier: &str) -> (r: bool)
    ensures
        r == spec_complex_range(specifier@),
        specifier@.len() == 0 ==> !r,
    decreases 1int, 1int,
{
    let v = to_chars(specifier);
    let n = v.len();
    let mut i: usize = 0;
    let mut start: usize = 0;
    let mut found = false;
    while i < n
        invariant
            n == v@.len(),
            start <= i <= n,
            pieces_ok(specifier@, 0, 0) == pieces_ok(v@, i as int, start as int),
            has_part(specifier@, 0, 0) == (found || has_part(v@, i as int, start as int)),
            v@ == specifier@,
        decreases n - i,
    {
        if v[i] == ' ' {
            if !check_piece(v.as_slice(), start, i) {
                return false;
            }
            if piece_nonempty(v.as_slice(), start, i) {
                found = true;
            }
            i = i + 1;
            start = i;
        } else if i + 1 < n && v[i] == '|' && v[i + 1] == '|' {
            if !check_piece(v.as_slice(), start, i) {
                return false;
            }
            if piece_nonempty(v.as_slice(), start, i) {
                found = true;
            }
            i = i + 2;
            start = i;
        } else {
            i = i + 1;
        }
    }
    proof {
        assert(trimmed(v@, 0, 0).len() == 0);
    }
    check_piece(v.as_slice(), start, n) && (found || piece_nonempty(v.as_slice(), start, n))
}

/// Convert a raw string version specifier into the kind of specifier it is.
/// With `is_recursive`, the string is a part of a range and is never read as
/// a complex range itself.
pub fn parse(specifier: &String, is_recursive: bool) -> (r: AnySpecifier)
    ensures
        any_raw(r) == sanitised(specifier@),
        any_kind(r) == parse_kind(sanitised(specifier@), is_recursive),
    decreases (if is_recursive { 0int } else { 1int }), 2int,
{
    let str = sanitise(specifier);
    let string = String::from_str(str);
    let v = to_chars(str);
    let s = v.as_slice();
    if matches_exact(s) {
        AnySpecifier::Exact(string)
    } else if matches_range(s) {
        AnySpecifier::Range(string)
    } else if matches_latest(s) {
        AnySpecifier::Latest(string)
    } else if matches_workspace_protocol(s) {
        AnySpecifier::WorkspaceProtocol(string)
    } else if matches_alias(s) {
        AnySpecifier::Alias(string)
    } else if matches_major(s) {
        AnySpecifier::Major(string)
    } else if matches_minor(s) {
        AnySpecifier::Minor(string)
    } else if matches_tag(s) {
        AnySpecifier::Tag(string)
    } else if matches_git(s) {
        AnySpecifier::Git(string)
    } else if matches_url(s) {
        AnySpecifier::Url(string)
    } else if matches_range_minor(s) {
        AnySpecifier::RangeMinor(string)
    } else if matches_range_major(s) {
        AnySpecifier::RangeMajor(string)
    } else if matches_file(s) {
        AnySpecifier::File(string)
    } else if !is_recursive && is_complex_range(str) {
        AnySpecifier::RangeComplex(string)
    } else {
        AnySpecifier::Unsupported(string)
    }
}

} // verus!
