//! A JSON value as a package.json file holds it, with the members of each
//! object kept in the order they were written.

use vstd::prelude::*;
use crate::text::str_is;

verus! {

#[derive(Debug)]
pub enum Json {
    Null,
    Bool(bool),
    /// A number, as it is written
    Number(String),
    Str(String),
    Array(Vec<Json>),
    /// The members of an object, in order
    Object(Vec<(String, Json)>),
}

/// A JSON value as plain values.
pub enum JsonView {
    Null,
    Bool(bool),
    Number(Seq<char>),
    Str(Seq<char>),
    Array(Seq<JsonView>),
    Object(Seq<(Seq<char>, JsonView)>),
}

impl Json {
    pub open spec fn view(self) -> JsonView
        decreases self, 0nat,
    {
        match self {
            Json::Null => JsonView::Null,
            Json::Bool(b) => JsonView::Bool(b),
            Json::Number(n) => JsonView::Number(n@),
            Json::Str(s) => JsonView::Str(s@),
            Json::Array(items) => JsonView::Array(items_view(items@)),
            Json::Object(members) => JsonView::Object(members_view(members@)),
        }
    }
}

/// The views of the items of an array.
pub open spec fn items_view(items: Seq<Json>) -> Seq<JsonView>
    decreases items, 1nat,
{
    if items.len() == 0 {
        Seq::empty()
    } else {
        items_view(items.drop_last()).push(items.last().view())
    }
}

/// The views of the members of an object.
pub open spec fn members_view(members: Seq<(String, Json)>) -> Seq<(Seq<char>, JsonView)>
    decreases members, 1nat,
{
    if members.len() == 0 {
        Seq::empty()
    } else {
        members_view(members.drop_last()).push((members.last().0@, members.last().1.view()))
    }
}

impl Json {
    /// A copy of this value.
    pub fn duplicate(&self) -> (r: Json)
        ensures
            r.view() == self.view(),
        decreases self,
    {
        match self {
            Json::Null => Json::Null,
            Json::Bool(b) => Json::Bool(*b),
            Json::Number(n) => Json::Number(n.clone()),
            Json::Str(s) => Json::Str(s.clone()),
            Json::Array(items) => {
                let mut out: Vec<Json> = Vec::new();
                let mut i: usize = 0;
                while i < items.len()
                    invariant
                        i <= items@.len(),
                        *self == Json::Array(*items),
                        items_view(out@) == items_view(items@.subrange(0, i as int)),
                    decreases items@.len() - i,
                {
                    proof {
                        assert(decreases_to!(*self => self->Array_0));
                        assert(decreases_to!(*items => items@));
                        assert(decreases_to!(items@ => items@[i as int]));
                    }
                    let item = items[i].duplicate();
                    proof {
                        assert(out@.push(item).drop_last() =~= out@);
                        assert(items@.subrange(0, i + 1).drop_last() =~= items@.subrange(0, i as int));
                    }
                    out.push(item);
                    i = i + 1;
                }
                proof {
                    assert(items@.subrange(0, items@.len() as int) =~= items@);
                }
                Json::Array(out)
            },
            Json::Object(members) => {
                let mut out: Vec<(String, Json)> = Vec::new();
                let mut i: usize = 0;
                while i < members.len()
                    invariant
                        i <= members@.len(),
                        *self == Json::Object(*members),
                        members_view(out@) == members_view(members@.subrange(0, i as int)),
                    decreases members@.len() - i,
                {
                    proof {
                        assert(decreases_to!(*self => self->Object_0));
                        assert(decreases_to!(*members => members@));
                        assert(decreases_to!(members@ => members@[i as int]));
                        assert(decreases_to!(members@[i as int] => members@[i as int].1));
                    }
                    let value = members[i].1.duplicate();
                    let member = (members[i].0.clone(), value);
                    proof {
                        assert(out@.push(member).drop_last() =~= out@);
                        assert(members@.subrange(0, i + 1).drop_last() =~= members@.subrange(0, i as int));
                    }
                    out.push(member);
                    i = i + 1;
                }
                proof {
                    assert(members@.subrange(0, members@.len() as int) =~= members@);
                }
                Json::Object(out)
            },
        }
    }
}

/// The view of an array holds the view of each item, in order.
pub proof fn lemma_items_view(items: Seq<Json>)
    ensures
        items_view(items).len() == items.len(),
        forall|i: int| 0 <= i < items.len() ==> #[trigger] items_view(items)[i] == items[i].view(),
    decreases items.len(),
{
    if items.len() > 0 {
        lemma_items_view(items.drop_last());
    }
}

/// The view of an object holds the key and the view of the value of each
/// member, in order.
pub proof fn lemma_members_view(members: Seq<(String, Json)>)
    ensures
        members_view(members).len() == members.len(),
        forall|i: int|
            0 <= i < members.len() ==> #[trigger] members_view(members)[i] == (
                members[i].0@,
                members[i].1.view(),
            ),
    decreases members.len(),
{
    if members.len() > 0 {
        lemma_members_view(members.drop_last());
    }
}

impl Json {
    /// Are the two values the same, members in the same order?
    pub fn same(&self, other: &Json) -> (r: bool)
        ensures
            r == (self.view() == other.view()),
        decreases self,
    {
        match (self, other) {
            (Json::Null, Json::Null) => true,
            (Json::Bool(a), Json::Bool(b)) => *a == *b,
            (Json::Number(a), Json::Number(b)) => str_is(a.as_str(), b.as_str()),
            (Json::Str(a), Json::Str(b)) => str_is(a.as_str(), b.as_str()),
            (Json::Array(a), Json::Array(b)) => {
                proof {
                    lemma_items_view(a@);
                    lemma_items_view(b@);
                }
                if a.len() != b.len() {
                    return false;
                }
                let mut i: usize = 0;
                while i < a.len()
                    invariant
                        i <= a@.len(),
                        a@.len() == b@.len(),
                        *self == Json::Array(*a),
                        *other == Json::Array(*b),
                        items_view(a@).len() == a@.len(),
                        items_view(b@).len() == b@.len(),
                        forall|k: int| 0 <= k < a@.len() ==> #[trigger] items_view(a@)[k] == a@[k].view(),
                        forall|k: int| 0 <= k < b@.len() ==> #[trigger] items_view(b@)[k] == b@[k].view(),
                        forall|k: int| 0 <= k < i ==> a@[k].view() == b@[k].view(),
                    decreases a@.len() - i,
                {
                    proof {
                        assert(decreases_to!(*self => self->Array_0));
                        assert(decreases_to!(*a => a@));
                        assert(decreases_to!(a@ => a@[i as int]));
                    }
                    if !a[i].same(&b[i]) {
                        proof {
                            assert(items_view(a@)[i as int] != items_view(b@)[i as int]);
                        }
                        return false;
                    }
                    i = i + 1;
                }
                proof {
                    assert(items_view(a@) =~= items_view(b@));
                }
                true
            },
            (Json::Object(a), Json::Object(b)) => {
                proof {
                    lemma_members_view(a@);
                    lemma_members_view(b@);
                }
                if a.len() != b.len() {
                    return false;
                }
                let mut i: usize = 0;
                while i < a.len()
                    invariant
                        i <= a@.len(),
                        a@.len() == b@.len(),
                        *self == Json::Object(*a),
                        *other == Json::Object(*b),
                        members_view(a@).len() == a@.len(),
                        members_view(b@).len() == b@.len(),
                        forall|k: int|
                            0 <= k < a@.len() ==> #[trigger] members_view(a@)[k] == (a@[k].0@, a@[k].1.view()),
                        forall|k: int|
                            0 <= k < b@.len() ==> #[trigger] members_view(b@)[k] == (b@[k].0@, b@[k].1.view()),
                        forall|k: int| 0 <= k < i ==> members_view(a@)[k] == members_view(b@)[k],
                    decreases a@.len() - i,
                {
                    proof {
                        assert(decreases_to!(*self => self->Object_0));
                        assert(decreases_to!(*a => a@));
                        assert(decreases_to!(a@ => a@[i as int]));
                        assert(decreases_to!(a@[i as int] => a@[i as int].1));
                    }
                    if !str_is(a[i].0.as_str(), b[i].0.as_str()) || !a[i].1.same(&b[i].1) {
                        proof {
                            assert(members_view(a@)[i as int] != members_view(b@)[i as int]);
                        }
                        return false;
                    }
                    i = i + 1;
                }
                proof {
                    assert(members_view(a@) =~= members_view(b@));
                }
                true
            },
            _ => false,
        }
    }
}

/// `s` with each `a` directly followed by `b` replaced by `to`, matches
/// taken from the left without overlapping, as `str::replace` takes them.
pub open spec fn replace_pair(s: Seq<char>, a: char, b: char, to: char) -> Seq<char>
    decreases s.len(),
{
    if s.len() == 0 {
        s
    } else if s.len() >= 2 && s[0] == a && s[1] == b {
        seq![to] + replace_pair(s.subrange(2, s.len() as int), a, b, to)
    } else {
        seq![s[0]] + replace_pair(s.drop_first(), a, b, to)
    }
}

/// A reference token of a JSON pointer with "~1" read as "/" and then "~0"
/// read as "~".
pub open spec fn unescape_token(t: Seq<char>) -> Seq<char> {
    replace_pair(replace_pair(t, '~', '1', '/'), '~', '0', '~')
}

/// The pieces of `s` between its '/'s; there is always at least one.
pub open spec fn split_on_slash(s: Seq<char>) -> Seq<Seq<char>>
    decreases s.len(),
{
    if s.len() == 0 {
        seq![Seq::empty()]
    } else {
        let rest = split_on_slash(s.drop_last());
        if s.last() == '/' {
            rest.push(Seq::empty())
        } else {
            rest.update(rest.len() - 1, rest.last().push(s.last()))
        }
    }
}

/// The reference tokens of a pointer that begins with "/".
pub open spec fn pointer_tokens(p: Seq<char>) -> Seq<Seq<char>> {
    split_on_slash(p.drop_first()).map_values(|t: Seq<char>| unescape_token(t))
}

pub open spec fn is_digit(c: char) -> bool {
    '0' <= c <= '9'
}

/// The number that a string of decimal digits spells.
pub open spec fn digits_value(t: Seq<char>) -> nat
    decreases t.len(),
{
    if t.len() == 0 {
        0
    } else {
        digits_value(t.drop_last()) * 10 + (t.last() as nat - '0' as nat) as nat
    }
}

/// The array index that a token names: decimal digits without a leading
/// zero (but "0" itself), small enough for a `usize`.
pub open spec fn array_index(t: Seq<char>) -> Option<nat> {
    if t.len() > 0 && (forall|i: int| 0 <= i < t.len() ==> is_digit(#[trigger] t[i])) && !(t[0] == '0'
        && t.len() != 1) && digits_value(t) <= usize::MAX {
        Some(digits_value(t))
    } else {
        None
    }
}

/// The value of the first member named `key`.
pub open spec fn member_value(members: Seq<(Seq<char>, JsonView)>, key: Seq<char>) -> Option<JsonView>
    decreases members.len(),
{
    if members.len() == 0 {
        None
    } else if members[0].0 == key {
        Some(members[0].1)
    } else {
        member_value(members.drop_first(), key)
    }
}

/// The value a reference token leads to from `v`.
pub open spec fn child_of(v: JsonView, token: Seq<char>) -> Option<JsonView> {
    match v {
        JsonView::Object(members) => member_value(members, token),
        JsonView::Array(items) => match array_index(token) {
            Some(i) => if i < items.len() {
                Some(items[i as int])
            } else {
                None
            },
            None => None,
        },
        _ => None,
    }
}

/// The value the tokens lead to from `v`, one after the other.
pub open spec fn at_tokens(v: JsonView, tokens: Seq<Seq<char>>) -> Option<JsonView>
    decreases tokens.len(),
{
    if tokens.len() == 0 {
        Some(v)
    } else {
        match child_of(v, tokens[0]) {
            Some(c) => at_tokens(c, tokens.drop_first()),
            None => None,
        }
    }
}

/// The value a JSON pointer such as "/repository/url" leads to from `v`:
/// the empty pointer leads to `v` itself, one that does not begin with "/"
/// leads nowhere.
pub open spec fn at_pointer(v: JsonView, p: Seq<char>) -> Option<JsonView> {
    if p.len() == 0 {
        Some(v)
    } else if p[0] != '/' {
        None
    } else {
        at_tokens(v, pointer_tokens(p))
    }
}

proof fn lemma_split_nonempty(s: Seq<char>)
    ensures
        split_on_slash(s).len() >= 1,
    decreases s.len(),
{
    if s.len() > 0 {
        lemma_split_nonempty(s.drop_last());
    }
}

/// `s` with each "ab" replaced by `to`.
fn replace_pair_exec(s: &Vec<char>, a: char, b: char, to: char) -> (r: Vec<char>)
    ensures
        r@ == replace_pair(s@, a, b, to),
{
    let mut out: Vec<char> = Vec::new();
    let mut i: usize = 0;
    proof {
        assert(s@.subrange(0, s@.len() as int) =~= s@);
        assert(out@ + replace_pair(s@, a, b, to) =~= replace_pair(s@, a, b, to));
    }
    while i < s.len()
        invariant
            i <= s@.len(),
            out@ + replace_pair(s@.subrange(i as int, s@.len() as int), a, b, to) == replace_pair(s@, a, b, to),
        decreases s@.len() - i,
    {
        let ghost rest = s@.subrange(i as int, s@.len() as int);
        if i + 1 < s.len() && s[i] == a && s[i + 1] == b {
            proof {
                assert(rest.subrange(2, rest.len() as int) =~= s@.subrange(i + 2, s@.len() as int));
                assert(out@.push(to) + replace_pair(s@.subrange(i + 2, s@.len() as int), a, b, to) =~= out@
                    + replace_pair(rest, a, b, to));
            }
            out.push(to);
            i = i + 2;
        } else {
            proof {
                assert(rest.drop_first() =~= s@.subrange(i + 1, s@.len() as int));
                assert(out@.push(s@[i as int]) + replace_pair(s@.subrange(i + 1, s@.len() as int), a, b, to)
                    =~= out@ + replace_pair(rest, a, b, to));
            }
            out.push(s[i]);
            i = i + 1;
        }
    }
    proof {
        assert(s@.subrange(s@.len() as int, s@.len() as int) =~= Seq::<char>::empty());
        assert(out@ + Seq::<char>::empty() =~= out@);
    }
    out
}

/// The reference tokens of a pointer that begins with "/".
fn pointer_tokens_exec(p: &Vec<char>) -> (r: Vec<Vec<char>>)
    requires
        p@.len() > 0,
    ensures
        r@.len() == pointer_tokens(p@).len(),
        forall|i: int| 0 <= i < r@.len() ==> #[trigger] r@[i]@ == pointer_tokens(p@)[i],
{
    let ghost body = p@.drop_first();
    let mut pieces: Vec<Vec<char>> = Vec::new();
    let mut current: Vec<char> = Vec::new();
    let mut i: usize = 1;
    while i < p.len()
        invariant
            1 <= i <= p@.len(),
            body == p@.drop_first(),
            split_on_slash(body.subrange(0, i - 1)).len() == pieces@.len() + 1,
            forall|k: int| 0 <= k < pieces@.len() ==> #[trigger] pieces@[k]@ == split_on_slash(body.subrange(0, i - 1))[k],
            current@ == split_on_slash(body.subrange(0, i - 1)).last(),
        decreases p@.len() - i,
    {
        proof {
            assert(body.subrange(0, i as int).drop_last() =~= body.subrange(0, i - 1));
            assert(body.subrange(0, i as int).last() == p@[i as int]);
            lemma_split_nonempty(body.subrange(0, i - 1));
        }
        if p[i] == '/' {
            pieces.push(current);
            current = Vec::new();
        } else {
            current.push(p[i]);
        }
        i = i + 1;
    }
    pieces.push(current);
    proof {
        assert(body.subrange(0, p@.len() - 1) =~= body);
    }
    let mut tokens: Vec<Vec<char>> = Vec::new();
    let mut k: usize = 0;
    while k < pieces.len()
        invariant
            k <= pieces@.len(),
            pieces@.len() == split_on_slash(body).len(),
            body == p@.drop_first(),
            forall|j: int| 0 <= j < pieces@.len() ==> #[trigger] pieces@[j]@ == split_on_slash(body)[j],
            tokens@.len() == k,
            forall|j: int| 0 <= j < k ==> #[trigger] tokens@[j]@ == pointer_tokens(p@)[j],
        decreases pieces@.len() - k,
    {
        let once = replace_pair_exec(&pieces[k], '~', '1', '/');
        let token = replace_pair_exec(&once, '~', '0', '~');
        tokens.push(token);
        k = k + 1;
    }
    tokens
}

proof fn lemma_digits_value_grows(t: Seq<char>, c: char)
    requires
        is_digit(c),
    ensures
        digits_value(t.push(c)) >= digits_value(t),
        digits_value(t.push(c)) == digits_value(t) * 10 + (c as nat - '0' as nat),
{
    assert(t.push(c).drop_last() =~= t);
}

/// The array index a token names, if it names one.
fn array_index_exec(t: &Vec<char>) -> (r: Option<usize>)
    ensures
        match r {
            Some(i) => array_index(t@) == Some(i as nat),
            None => array_index(t@) is None,
        },
{
    if t.len() == 0 || (t[0] == '0' && t.len() != 1) {
        return None;
    }
    let mut value: usize = 0;
    let mut overflow = false;
    let mut i: usize = 0;
    while i < t.len()
        invariant
            i <= t@.len(),
            forall|k: int| 0 <= k < i ==> is_digit(#[trigger] t@[k]),
            overflow == (digits_value(t@.subrange(0, i as int)) > usize::MAX),
            !overflow ==> value == digits_value(t@.subrange(0, i as int)),
        decreases t@.len() - i,
    {
        let c = t[i];
        if !('0' <= c && c <= '9') {
            proof {
                assert(!is_digit(t@[i as int]));
            }
            return None;
        }
        proof {
            assert(t@.subrange(0, i + 1) =~= t@.subrange(0, i as int).push(c));
            lemma_digits_value_grows(t@.subrange(0, i as int), c);
        }
        let d: usize = ((c as u32) - ('0' as u32)) as usize;
        if !overflow {
            match value.checked_mul(10) {
                Some(m) => match m.checked_add(d) {
                    Some(n) => {
                        value = n;
                    },
                    None => {
                        overflow = true;
                    },
                },
                None => {
                    overflow = true;
                },
            }
        }
        i = i + 1;
    }
    proof {
        assert(t@.subrange(0, t@.len() as int) =~= t@);
    }
    if overflow {
        None
    } else {
        Some(value)
    }
}

impl Json {
    /// The value the reference token leads to from this one.
    fn child(&self, token: &Vec<char>) -> (r: Option<&Json>)
        ensures
            match r {
                Some(c) => child_of(self.view(), token@) == Some(c.view()),
                None => child_of(self.view(), token@) is None,
            },
    {
        match self {
            Json::Object(members) => {
                proof {
                    lemma_members_view(members@);
                }
                let key = crate::text::string_from_chars(token.as_slice());
                let mut i: usize = 0;
                proof {
                    assert(members_view(members@).subrange(0, members@.len() as int) =~= members_view(members@));
                }
                while i < members.len()
                    invariant
                        i <= members@.len(),
                        key@ == token@,
                        *self == Json::Object(*members),
                        members_view(members@).len() == members@.len(),
                        forall|k: int|
                            0 <= k < members@.len() ==> #[trigger] members_view(members@)[k] == (
                                members@[k].0@,
                                members@[k].1.view(),
                            ),
                        member_value(members_view(members@), token@) == member_value(
                            members_view(members@).subrange(i as int, members@.len() as int),
                            token@,
                        ),
                    decreases members@.len() - i,
                {
                    let ghost rest = members_view(members@).subrange(i as int, members@.len() as int);
                    proof {
                        assert(rest[0] == members_view(members@)[i as int]);
                        assert(rest.drop_first() =~= members_view(members@).subrange(i + 1, members@.len() as int));
                    }
                    if str_is(members[i].0.as_str(), key.as_str()) {
                        proof {
                            assert(rest[0].0 == token@);
                            assert(member_value(rest, token@) == Some(rest[0].1));
                            assert(rest[0].1 == members@[i as int].1.view());
                        }
                        return Some(&members[i].1);
                    }
                    i = i + 1;
                }
                None
            },
            Json::Array(items) => {
                proof {
                    lemma_items_view(items@);
                }
                match array_index_exec(token) {
                    Some(i) => if i < items.len() {
                        Some(&items[i])
                    } else {
                        None
                    },
                    None => None,
                }
            },
            _ => None,
        }
    }

    /// The value the JSON pointer leads to from this one (as
    /// `serde_json::Value::pointer` reads a pointer).
    pub fn pointer(&self, pointer: &str) -> (r: Option<&Json>)
        ensures
            match r {
                Some(c) => at_pointer(self.view(), pointer@) == Some(c.view()),
                None => at_pointer(self.view(), pointer@) is None,
            },
    {
        let p = crate::text::to_chars(pointer);
        if p.len() == 0 {
            return Some(self);
        }
        if p[0] != '/' {
            return None;
        }
        let tokens = pointer_tokens_exec(&p);
        let ghost ts = pointer_tokens(p@);
        let mut current: &Json = self;
        let mut k: usize = 0;
        proof {
            assert(ts.subrange(0, ts.len() as int) =~= ts);
            assert(at_pointer(self.view(), pointer@) == at_tokens(self.view(), ts));
        }
        while k < tokens.len()
            invariant
                k <= tokens@.len(),
                at_pointer(self.view(), pointer@) == at_tokens(self.view(), ts),
                tokens@.len() == ts.len(),
                forall|j: int| 0 <= j < tokens@.len() ==> #[trigger] tokens@[j]@ == ts[j],
                at_tokens(self.view(), ts) == at_tokens(current.view(), ts.subrange(k as int, ts.len() as int)),
            decreases tokens@.len() - k,
        {
            let ghost rest = ts.subrange(k as int, ts.len() as int);
            proof {
                assert(rest[0] == ts[k as int]);
                assert(rest.drop_first() =~= ts.subrange(k + 1, ts.len() as int));
            }
            match current.child(&tokens[k]) {
                Some(c) => {
                    current = c;
                },
                None => {
                    return None;
                },
            }
            k = k + 1;
        }
        proof {
            assert(ts.subrange(ts.len() as int, ts.len() as int) =~= Seq::<Seq<char>>::empty());
        }
        Some(current)
    }
}

/// The position of the first member named `key`.
pub open spec fn member_position(members: Seq<(Seq<char>, JsonView)>, key: Seq<char>) -> Option<int>
    decreases members.len(),
{
    if members.len() == 0 {
        None
    } else if members[0].0 == key {
        Some(0)
    } else {
        match member_position(members.drop_first(), key) {
            Some(i) => Some(i + 1),
            None => None,
        }
    }
}

proof fn lemma_member_position(members: Seq<(Seq<char>, JsonView)>, key: Seq<char>)
    ensures
        match member_position(members, key) {
            Some(i) => 0 <= i < members.len() && members[i].0 == key && member_value(members, key) == Some(
                members[i].1,
            ) && forall|x: JsonView| #[trigger]
                member_value(members.update(i, (key, x)), key) == Some(x),
            None => member_value(members, key) is None,
        },
    decreases members.len(),
{
    if members.len() > 0 && members[0].0 != key {
        let rest = members.drop_first();
        lemma_member_position(rest, key);
        match member_position(rest, key) {
            Some(i) => {
                assert forall|x: JsonView| #[trigger] member_value(members.update(i + 1, (key, x)), key) == Some(x) by {
                    let u = members.update(i + 1, (key, x));
                    assert(u.drop_first() =~= rest.update(i, (key, x)));
                    assert(member_value(rest.update(i, (key, x)), key) == Some(x));
                }
            },
            None => {},
        }
    } else if members.len() > 0 {
        assert forall|x: JsonView| #[trigger] member_value(members.update(0, (key, x)), key) == Some(x) by {}
    }
}

/// The value `v` with what the tokens lead to replaced by `new`; `v` as it
/// is when they lead nowhere.
pub open spec fn with_at_tokens(v: JsonView, tokens: Seq<Seq<char>>, new: JsonView) -> JsonView
    decreases tokens.len(),
{
    if tokens.len() == 0 {
        new
    } else {
        match v {
            JsonView::Object(members) => match member_position(members, tokens[0]) {
                Some(i) => JsonView::Object(
                    members.update(i, (members[i].0, with_at_tokens(members[i].1, tokens.drop_first(), new))),
                ),
                None => v,
            },
            JsonView::Array(items) => match array_index(tokens[0]) {
                Some(i) => if i < items.len() {
                    JsonView::Array(items.update(i as int, with_at_tokens(items[i as int], tokens.drop_first(), new)))
                } else {
                    v
                },
                None => v,
            },
            _ => v,
        }
    }
}

/// The value `v` with what the pointer leads to replaced by `new`, when it
/// leads somewhere.
pub open spec fn with_at_pointer(v: JsonView, p: Seq<char>, new: JsonView) -> JsonView {
    if p.len() == 0 {
        new
    } else if p[0] != '/' {
        v
    } else {
        with_at_tokens(v, pointer_tokens(p), new)
    }
}

proof fn lemma_get_after_set(v: JsonView, tokens: Seq<Seq<char>>, new: JsonView)
    requires
        at_tokens(v, tokens) is Some,
    ensures
        at_tokens(with_at_tokens(v, tokens, new), tokens) == Some(new),
    decreases tokens.len(),
{
    if tokens.len() > 0 {
        match v {
            JsonView::Object(members) => {
                lemma_member_position(members, tokens[0]);
                let i = member_position(members, tokens[0])->0;
                let child = with_at_tokens(members[i].1, tokens.drop_first(), new);
                lemma_get_after_set(members[i].1, tokens.drop_first(), new);
                assert(member_value(members.update(i, (tokens[0], child)), tokens[0]) == Some(child));
                assert(members[i].0 == tokens[0]);
            },
            JsonView::Array(items) => {
                let i = array_index(tokens[0])->0;
                lemma_get_after_set(items[i as int], tokens.drop_first(), new);
            },
            _ => {},
        }
    }
}

/// Reading a pointer after writing a value there gives the value back, when
/// the pointer led somewhere before.
pub proof fn law_pointer_reads_back_what_was_set(v: JsonView, p: Seq<char>, new: JsonView)
    requires
        at_pointer(v, p) is Some,
    ensures
        at_pointer(with_at_pointer(v, p, new), p) == Some(new),
{
    if p.len() > 0 && p[0] == '/' {
        lemma_get_after_set(v, pointer_tokens(p), new);
    }
}

/// A pointer that leads nowhere changes nothing when written.
pub proof fn law_pointer_write_elsewhere_is_noop(v: JsonView, p: Seq<char>, new: JsonView)
    requires
        at_pointer(v, p) is None,
    ensures
        with_at_pointer(v, p, new) == v,
{
    if p.len() > 0 && p[0] == '/' {
        lemma_set_nowhere(v, pointer_tokens(p), new);
    }
}

proof fn lemma_set_nowhere(v: JsonView, tokens: Seq<Seq<char>>, new: JsonView)
    requires
        at_tokens(v, tokens) is None,
    ensures
        with_at_tokens(v, tokens, new) == v,
    decreases tokens.len(),
{
    if tokens.len() > 0 {
        match v {
            JsonView::Object(members) => {
                lemma_member_position(members, tokens[0]);
                match member_position(members, tokens[0]) {
                    Some(i) => {
                        lemma_set_nowhere(members[i].1, tokens.drop_first(), new);
                        assert(members.update(i, (members[i].0, members[i].1)) =~= members);
                    },
                    None => {},
                }
            },
            JsonView::Array(items) => {
                match array_index(tokens[0]) {
                    Some(i) => if i < items.len() {
                        lemma_set_nowhere(items[i as int], tokens.drop_first(), new);
                        assert(items.update(i as int, items[i as int]) =~= items);
                    },
                    None => {},
                }
            },
            _ => {},
        }
    }
}

/// `target` with the value that tokens `from..` lead to replaced by `value`.
fn with_value_at(target: Json, tokens: &Vec<Vec<char>>, from: usize, value: Json) -> (r: Json)
    requires
        from <= tokens@.len(),
    ensures
        r.view() == with_at_tokens(
            target.view(),
            tokens@.subrange(from as int, tokens@.len() as int).map_values(|t: Vec<char>| t@),
            value.view(),
        ),
    decreases tokens@.len() - from,
{
    let ghost ts = tokens@.subrange(from as int, tokens@.len() as int).map_values(|t: Vec<char>| t@);
    if from == tokens.len() {
        return value;
    }
    proof {
        assert(ts[0] == tokens@[from as int]@);
        assert(ts.drop_first() =~= tokens@.subrange(from + 1, tokens@.len() as int).map_values(
            |t: Vec<char>| t@,
        ));
    }
    match target {
        Json::Object(members) => {
            let ghost mv = members_view(members@);
            let key = crate::text::string_from_chars(tokens[from].as_slice());
            let mut i: usize = 0;
            proof {
                lemma_members_view(members@);
                assert(mv.subrange(0, mv.len() as int) =~= mv);
            }
            while i < members.len() && !str_is(members[i].0.as_str(), key.as_str())
                invariant
                    i <= members@.len(),
                    key@ == ts[0],
                    mv == members_view(members@),
                    mv.len() == members@.len(),
                    forall|k: int| 0 <= k < members@.len() ==> #[trigger] mv[k] == (members@[k].0@, members@[k].1.view()),
                    forall|k: int| 0 <= k < i ==> mv[k].0 != key@,
                decreases members@.len() - i,
            {
                i = i + 1;
            }
            proof {
                lemma_member_position_is_first(mv, key@, i as int);
            }
            if i == members.len() {
                return Json::Object(members);
            }
            let mut members = members;
            let ghost before = members@;
            let (k, child) = members.remove(i);
            let child = with_value_at(child, tokens, from + 1, value);
            let ghost member = (k, child);
            members.insert(i, (k, child));
            proof {
                lemma_members_view(members@);
                assert(members@ =~= before.update(i as int, member));
                assert(members_view(members@) =~= mv.update(i as int, (mv[i as int].0, child.view())));
            }
            Json::Object(members)
        },
        Json::Array(items) => {
            proof {
                lemma_items_view(items@);
            }
            match array_index_exec(&tokens[from]) {
                Some(i) => {
                    if i < items.len() {
                        let mut items = items;
                        let ghost before = items@;
                        let child = items.remove(i);
                        let child = with_value_at(child, tokens, from + 1, value);
                        items.insert(i, child);
                        proof {
                            lemma_items_view(items@);
                            assert(items@ =~= before.update(i as int, child));
                            assert(items_view(items@) =~= items_view(before).update(i as int, child.view()));
                        }
                        Json::Array(items)
                    } else {
                        Json::Array(items)
                    }
                },
                None => Json::Array(items),
            }
        },
        other => other,
    }
}

proof fn lemma_member_position_is_first(members: Seq<(Seq<char>, JsonView)>, key: Seq<char>, i: int)
    requires
        0 <= i <= members.len(),
        forall|k: int| 0 <= k < i ==> members[k].0 != key,
        i < members.len() ==> members[i].0 == key,
    ensures
        member_position(members, key) == if i < members.len() {
            Some(i)
        } else {
            None::<int>
        },
    decreases members.len(),
{
    if members.len() > 0 && i > 0 {
        let rest = members.drop_first();
        assert forall|k: int| 0 <= k < i - 1 implies rest[k].0 != key by {
            assert(rest[k] == members[k + 1]);
        }
        if i - 1 < rest.len() {
            assert(rest[i - 1] == members[i]);
        }
        lemma_member_position_is_first(rest, key, i - 1);
    }
}

impl Json {
    /// Deeply set a property: replace what the pointer leads to by `value`,
    /// when it leads somewhere.
    pub fn set_prop(&mut self, pointer: &str, value: Json)
        ensures
            final(self).view() == with_at_pointer(old(self).view(), pointer@, value.view()),
    {
        let p = crate::text::to_chars(pointer);
        if p.len() == 0 {
            *self = value;
            return;
        }
        if p[0] != '/' {
            return;
        }
        let tokens = pointer_tokens_exec(&p);
        proof {
            assert(tokens@.subrange(0, tokens@.len() as int).map_values(|t: Vec<char>| t@) =~= pointer_tokens(p@));
        }
        let current = self.duplicate();
        *self = with_value_at(current, &tokens, 0, value);
    }
}

/// The tokens that lead to the member `key` of what the pointer leads to.
pub open spec fn member_tokens(p: Seq<char>, key: Seq<char>) -> Option<Seq<Seq<char>>> {
    if p.len() == 0 {
        Some(seq![key])
    } else if p[0] != '/' {
        None
    } else {
        Some(pointer_tokens(p).push(key))
    }
}

/// `v` with the member `key` of the object the pointer leads to replaced by
/// `new`; `v` as it is when there is no such member.
pub open spec fn with_member_at(v: JsonView, p: Seq<char>, key: Seq<char>, new: JsonView) -> JsonView {
    match member_tokens(p, key) {
        Some(tokens) => with_at_tokens(v, tokens, new),
        None => v,
    }
}

/// `v` with the first member `key` of the object that the tokens lead to
/// removed, the last member of that object taking its place (as
/// `serde_json::Map::remove` does when the order of members is kept).
pub open spec fn without_member_at_tokens(v: JsonView, tokens: Seq<Seq<char>>, key: Seq<char>) -> JsonView
    decreases tokens.len(),
{
    if tokens.len() == 0 {
        match v {
            JsonView::Object(members) => match member_position(members, key) {
                Some(i) => JsonView::Object(members.update(i, members.last()).drop_last()),
                None => v,
            },
            _ => v,
        }
    } else {
        match v {
            JsonView::Object(members) => match member_position(members, tokens[0]) {
                Some(i) => JsonView::Object(
                    members.update(i, (members[i].0, without_member_at_tokens(members[i].1, tokens.drop_first(), key))),
                ),
                None => v,
            },
            JsonView::Array(items) => match array_index(tokens[0]) {
                Some(i) => if i < items.len() {
                    JsonView::Array(items.update(i as int, without_member_at_tokens(items[i as int], tokens.drop_first(), key)))
                } else {
                    v
                },
                None => v,
            },
            _ => v,
        }
    }
}

/// `v` with the member `key` of the object that the pointer leads to
/// removed, when there is one.
pub open spec fn without_member_at(v: JsonView, p: Seq<char>, key: Seq<char>) -> JsonView {
    if p.len() == 0 {
        without_member_at_tokens(v, Seq::empty(), key)
    } else if p[0] != '/' {
        v
    } else {
        without_member_at_tokens(v, pointer_tokens(p), key)
    }
}

/// `target` without the member `key` of the object that tokens `from..`
/// lead to.
fn without_member(target: Json, tokens: &Vec<Vec<char>>, from: usize, key: &String) -> (r: Json)
    requires
        from <= tokens@.len(),
    ensures
        r.view() == without_member_at_tokens(
            target.view(),
            tokens@.subrange(from as int, tokens@.len() as int).map_values(|t: Vec<char>| t@),
            key@,
        ),
    decreases tokens@.len() - from,
{
    let ghost ts = tokens@.subrange(from as int, tokens@.len() as int).map_values(|t: Vec<char>| t@);
    let last_step = from == tokens.len();
    let name = if last_step {
        key.clone()
    } else {
        crate::text::string_from_chars(tokens[from].as_slice())
    };
    proof {
        if !last_step {
            assert(ts[0] == tokens@[from as int]@);
            assert(ts.drop_first() =~= tokens@.subrange(from + 1, tokens@.len() as int).map_values(
                |t: Vec<char>| t@,
            ));
        } else {
            assert(ts =~= Seq::<Seq<char>>::empty());
        }
    }
    match target {
        Json::Object(members) => {
            let ghost mv = members_view(members@);
            let mut i: usize = 0;
            proof {
                lemma_members_view(members@);
            }
            while i < members.len() && !str_is(members[i].0.as_str(), name.as_str())
                invariant
                    i <= members@.len(),
                    mv == members_view(members@),
                    mv.len() == members@.len(),
                    forall|k: int| 0 <= k < members@.len() ==> #[trigger] mv[k] == (members@[k].0@, members@[k].1.view()),
                    forall|k: int| 0 <= k < i ==> mv[k].0 != name@,
                decreases members@.len() - i,
            {
                i = i + 1;
            }
            proof {
                lemma_member_position_is_first(mv, name@, i as int);
            }
            if i == members.len() {
                return Json::Object(members);
            }
            let mut members = members;
            let ghost before = members@;
            if last_step {
                let _removed = members.swap_remove(i);
                proof {
                    lemma_members_view(members@);
                    lemma_members_view(before);
                    assert(members_view(members@) =~= mv.update(i as int, mv.last()).drop_last());
                }
                Json::Object(members)
            } else {
                let (k, child) = members.remove(i);
                let child = without_member(child, tokens, from + 1, key);
                let ghost member = (k, child);
                members.insert(i, (k, child));
                proof {
                    lemma_members_view(members@);
                    assert(members@ =~= before.update(i as int, member));
                    assert(members_view(members@) =~= mv.update(i as int, (mv[i as int].0, child.view())));
                }
                Json::Object(members)
            }
        },
        Json::Array(items) => {
            if last_step {
                return Json::Array(items);
            }
            proof {
                lemma_items_view(items@);
            }
            match array_index_exec(&tokens[from]) {
                Some(i) => {
                    if i < items.len() {
                        let mut items = items;
                        let ghost before = items@;
                        let child = items.remove(i);
                        let child = without_member(child, tokens, from + 1, key);
                        items.insert(i, child);
                        proof {
                            lemma_items_view(items@);
                            assert(items@ =~= before.update(i as int, child));
                            assert(items_view(items@) =~= items_view(before).update(i as int, child.view()));
                        }
                        Json::Array(items)
                    } else {
                        Json::Array(items)
                    }
                },
                None => Json::Array(items),
            }
        },
        other => other,
    }
}

impl Json {
    /// Replace the member `key` of the object that the pointer leads to by
    /// `value`, when there is such a member.
    pub fn set_member(&mut self, pointer: &str, key: &String, value: Json)
        ensures
            final(self).view() == with_member_at(old(self).view(), pointer@, key@, value.view()),
    {
        let p = crate::text::to_chars(pointer);
        if p.len() > 0 && p[0] != '/' {
            return;
        }
        let mut tokens: Vec<Vec<char>> = if p.len() == 0 {
            Vec::new()
        } else {
            pointer_tokens_exec(&p)
        };
        let ghost before = tokens@;
        tokens.push(crate::text::to_chars(key.as_str()));
        proof {
            let tv = tokens@.subrange(0, tokens@.len() as int).map_values(|t: Vec<char>| t@);
            if p@.len() == 0 {
                assert(tv =~= seq![key@]);
            } else {
                assert(tv =~= pointer_tokens(p@).push(key@));
            }
        }
        let current = self.duplicate();
        *self = with_value_at(current, &tokens, 0, value);
    }

    /// Remove the member `key` of the object that the pointer leads to, when
    /// there is such a member.
    pub fn remove_member(&mut self, pointer: &str, key: &String)
        ensures
            final(self).view() == without_member_at(old(self).view(), pointer@, key@),
    {
        let p = crate::text::to_chars(pointer);
        if p.len() > 0 && p[0] != '/' {
            return;
        }
        let tokens: Vec<Vec<char>> = if p.len() == 0 {
            Vec::new()
        } else {
            pointer_tokens_exec(&p)
        };
        proof {
            let tv = tokens@.subrange(0, tokens@.len() as int).map_values(|t: Vec<char>| t@);
            if p@.len() == 0 {
                assert(tv =~= Seq::<Seq<char>>::empty());
            } else {
                assert(tv =~= pointer_tokens(p@));
            }
        }
        let current = self.duplicate();
        *self = without_member(current, &tokens, 0, key);
    }
}

impl Json {
    /// Is this an object with a member named `key`?
    pub fn has_member(&self, key: &String) -> (r: bool)
        ensures
            r == (self.view() matches JsonView::Object(members) && member_value(members, key@) is Some),
    {
        match self {
            Json::Object(_) => self.child(&crate::text::to_chars(key.as_str())).is_some(),
            _ => false,
        }
    }
}

} // verus!
