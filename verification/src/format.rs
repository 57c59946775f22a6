//! The formatting rules of package.json files: shorthand `bugs` and
//! `repository` values, conditional exports in a configured order, chosen
//! properties sorted alphabetically, and the file's own keys sorted.

use vstd::prelude::*;
use crate::json::{
    at_pointer, with_at_pointer, law_pointer_reads_back_what_was_set, items_view, lemma_items_view, lemma_members_view, members_view, member_value, Json, JsonView,
};
use crate::specifier::orderable::{flip, Comparison};
use crate::effects::FormatMismatchVariant;
use crate::version_group::strings_view;

verus! {

/// How the collator made for the locale (given as the bytes of its
/// identifier) orders two strings; `None` when no collator can be made.
pub uninterp spec fn collation(locale: Seq<u8>, a: Seq<char>, b: Seq<char>) -> Option<Comparison>;

/// Parses the locale with `icu::locid::Locale::try_from_bytes`, builds an
/// `icu::collator::Collator` for it with default options (`Collator::try_new`,
/// from the data the crate ships) and compares the two strings with
/// `Collator::compare`. Claimed: the result is named `collation` of the
/// locale and the strings, `None` when the locale or the collator cannot be
/// made, and comparing the strings the other way round gives the reverse
/// ordering (or `None` again). The collation rules are not stated.
#[verifier::external_body]
fn collate(locale: &[u8], a: &str, b: &str) -> (r: Option<Comparison>)
    ensures
        r == collation(locale@, a@, b@),
        collation(locale@, b@, a@) == match r {
            Some(c) => Some(flip(c)),
            None => None,
        },
{
    let locale = match icu::locid::Locale::try_from_bytes(locale) {
        Ok(l) => l,
        Err(_) => return None,
    };
    let collator = match icu::collator::Collator::try_new(&locale.into(), icu::collator::CollatorOptions::new()) {
        Ok(c) => c,
        Err(_) => return None,
    };
    match collator.compare(a, b) {
        std::cmp::Ordering::Less => Some(Comparison::Less),
        std::cmp::Ordering::Equal => Some(Comparison::Equal),
        std::cmp::Ordering::Greater => Some(Comparison::Greater),
    }
}

/// The locale whose alphabetical order is used: "en".
pub open spec fn en_locale() -> Seq<u8> {
    seq![101u8, 110u8]
}

/// Alphabetical order: how the collator of the "en" locale orders two
/// strings. Were no such collator to be made, strings would compare as equal
/// and sorting would keep their order.
pub open spec fn az_order(a: Seq<char>, b: Seq<char>) -> Comparison {
    match collation(en_locale(), a, b) {
        Some(c) => c,
        None => Comparison::Equal,
    }
}

/// Compare two strings alphabetically, both ways round.
fn compare_az(a: &str, b: &str) -> (r: Comparison)
    ensures
        r == az_order(a@, b@),
        az_order(b@, a@) == flip(r),
{
    let mut locale: Vec<u8> = Vec::new();
    locale.push(101u8);
    locale.push(110u8);
    proof {
        assert(locale@ =~= en_locale());
    }
    match collate(locale.as_slice(), a, b) {
        Some(c) => c,
        None => Comparison::Equal,
    }
}

/// The key of member `i` is not ordered after the key of the next member.
pub open spec fn keys_in_order_at(members: Seq<(Seq<char>, JsonView)>, i: int) -> bool {
    az_order(members[i].0, members[i + 1].0) != Comparison::Greater
}

/// The members are in alphabetical order of their keys.
pub open spec fn keys_az_sorted(members: Seq<(Seq<char>, JsonView)>) -> bool {
    forall|i: int| 0 <= i < members.len() - 1 ==> #[trigger] keys_in_order_at(members, i)
}

/// How two items of an array are ordered alphabetically: strings by the
/// collator, anything else as equal to everything.
pub open spec fn item_order(a: JsonView, b: JsonView) -> Comparison {
    match (a, b) {
        (JsonView::Str(x), JsonView::Str(y)) => az_order(x, y),
        _ => Comparison::Equal,
    }
}

/// Item `i` is not ordered after the next item.
pub open spec fn items_in_order_at(items: Seq<JsonView>, i: int) -> bool {
    item_order(items[i], items[i + 1]) != Comparison::Greater
}

/// The items are in alphabetical order.
pub open spec fn items_az_sorted(items: Seq<JsonView>) -> bool {
    forall|i: int| 0 <= i < items.len() - 1 ==> #[trigger] items_in_order_at(items, i)
}

proof fn lemma_members_view_remove(s: Seq<(String, Json)>, i: int)
    requires
        0 <= i < s.len(),
    ensures
        members_view(s.remove(i)) == members_view(s).remove(i),
{
    lemma_members_view(s);
    lemma_members_view(s.remove(i));
    assert(members_view(s.remove(i)) =~= members_view(s).remove(i));
}

proof fn lemma_members_view_insert(s: Seq<(String, Json)>, i: int, x: (String, Json))
    requires
        0 <= i <= s.len(),
    ensures
        members_view(s.insert(i, x)) == members_view(s).insert(i, (x.0@, x.1.view())),
{
    lemma_members_view(s);
    lemma_members_view(s.insert(i, x));
    assert(members_view(s.insert(i, x)) =~= members_view(s).insert(i, (x.0@, x.1.view())));
}

proof fn lemma_items_view_remove(s: Seq<Json>, i: int)
    requires
        0 <= i < s.len(),
    ensures
        items_view(s.remove(i)) == items_view(s).remove(i),
{
    lemma_items_view(s);
    lemma_items_view(s.remove(i));
    assert(items_view(s.remove(i)) =~= items_view(s).remove(i));
}

proof fn lemma_items_view_insert(s: Seq<Json>, i: int, x: Json)
    requires
        0 <= i <= s.len(),
    ensures
        items_view(s.insert(i, x)) == items_view(s).insert(i, x.view()),
{
    lemma_items_view(s);
    lemma_items_view(s.insert(i, x));
    assert(items_view(s.insert(i, x)) =~= items_view(s).insert(i, x.view()));
}

/// `p` takes each position of `out` to the position in `given` of the same
/// element, one for one, and an element comes before one that came earlier
/// in `given` only when `order` puts it first.
pub open spec fn stable_arrangement<A>(
    p: Seq<int>,
    out: Seq<A>,
    given: Seq<A>,
    order: spec_fn(A, A) -> Comparison,
) -> bool {
    &&& p.len() == out.len()
    &&& out.len() == given.len()
    &&& forall|i: int| 0 <= i < p.len() ==> 0 <= #[trigger] p[i] < given.len() && out[i] == given[p[i]]
    &&& forall|i: int, j: int| 0 <= i < j < p.len() ==> #[trigger] p[i] != #[trigger] p[j]
    &&& forall|i: int, j: int|
        0 <= i < j < p.len() && #[trigger] p[i] > #[trigger] p[j] ==> order(out[i], out[j]) == Comparison::Less
}

/// Members ordered by their keys.
pub open spec fn key_order() -> spec_fn((Seq<char>, JsonView), (Seq<char>, JsonView)) -> Comparison {
    |a: (Seq<char>, JsonView), b: (Seq<char>, JsonView)| az_order(a.0, b.0)
}

/// Array items ordered alphabetically.
pub open spec fn items_order() -> spec_fn(JsonView, JsonView) -> Comparison {
    |a: JsonView, b: JsonView| item_order(a, b)
}

/// Inserting the next element of `given` at `j`, before only elements that
/// `order` puts after it, keeps the arrangement stable.
pub(crate) proof fn lemma_stable_insert<A>(
    p: Seq<int>,
    out: Seq<A>,
    given: Seq<A>,
    order: spec_fn(A, A) -> Comparison,
    j: int,
    x: A,
)
    requires
        stable_arrangement(p, out, given, order),
        0 <= j <= out.len(),
        forall|k: int| j <= k < out.len() ==> order(x, #[trigger] out[k]) == Comparison::Less,
    ensures
        stable_arrangement(p.insert(j, given.len() as int), out.insert(j, x), given.push(x), order),
{
    let np = p.insert(j, given.len() as int);
    let no = out.insert(j, x);
    let ng = given.push(x);
    assert forall|i: int| 0 <= i < np.len() implies 0 <= #[trigger] np[i] < ng.len() && no[i] == ng[np[i]] by {
        if i < j {
            assert(np[i] == p[i] && no[i] == out[i]);
        } else if i > j {
            assert(np[i] == p[i - 1] && no[i] == out[i - 1]);
        }
    }
    assert forall|a: int, b: int| 0 <= a < b < np.len() implies #[trigger] np[a] != #[trigger] np[b] by {
        if a != j && b != j {
            let oa = if a < j { a } else { a - 1 };
            let ob = if b < j { b } else { b - 1 };
            assert(np[a] == p[oa] && np[b] == p[ob]);
        } else if a == j {
            assert(np[b] == p[b - 1]);
        } else {
            assert(np[a] == p[a]);
        }
    }
    assert forall|a: int, b: int| 0 <= a < b < np.len() && #[trigger] np[a] > #[trigger] np[b] implies order(
        no[a],
        no[b],
    ) == Comparison::Less by {
        if a != j && b != j {
            let oa = if a < j { a } else { a - 1 };
            let ob = if b < j { b } else { b - 1 };
            assert(np[a] == p[oa] && np[b] == p[ob]);
            assert(no[a] == out[oa] && no[b] == out[ob]);
        } else if a == j {
            assert(no[a] == x && no[b] == out[b - 1]);
        } else {
            assert(np[a] == p[a]);
        }
    }
}

proof fn lemma_insert_keeps_keys_sorted(v: Seq<(Seq<char>, JsonView)>, j: int, x: (Seq<char>, JsonView))
    requires
        0 <= j <= v.len(),
        keys_az_sorted(v),
        j > 0 ==> az_order(v[j - 1].0, x.0) != Comparison::Greater,
        j < v.len() ==> az_order(x.0, v[j].0) != Comparison::Greater,
    ensures
        keys_az_sorted(v.insert(j, x)),
{
    let nv = v.insert(j, x);
    assert forall|i: int| 0 <= i < nv.len() - 1 implies #[trigger] keys_in_order_at(nv, i) by {
        if i < j - 1 {
            assert(keys_in_order_at(v, i));
            assert(nv[i] == v[i] && nv[i + 1] == v[i + 1]);
        } else if i == j - 1 {
            assert(nv[i] == v[i] && nv[i + 1] == x);
        } else if i == j {
            assert(nv[i] == x && nv[i + 1] == v[i]);
        } else {
            assert(keys_in_order_at(v, i - 1));
            assert(nv[i] == v[i - 1] && nv[i + 1] == v[i]);
        }
    }
}

/// Insert `x` into members sorted by key, after every member whose key the
/// collator does not order after `x`'s; returns where it went.
fn insert_member_az(out: &mut Vec<(String, Json)>, x: (String, Json)) -> (j: usize)
    requires
        keys_az_sorted(members_view(old(out)@)),
    ensures
        j <= old(out)@.len(),
        members_view(final(out)@) == members_view(old(out)@).insert(j as int, (x.0@, x.1.view())),
        keys_az_sorted(members_view(final(out)@)),
        old(out)@.len() > 0 && az_order(members_view(old(out)@).last().0, x.0@) != Comparison::Greater
            ==> j == old(out)@.len(),
        forall|k: int| j <= k < old(out)@.len() ==> az_order(x.0@, #[trigger] members_view(old(out)@)[k].0) == Comparison::Less,
{
    let ghost xv = (x.0@, x.1.view());
    let ghost out_v = members_view(out@);
    proof {
        lemma_members_view(out@);
    }
    let mut j: usize = out.len();
    while j > 0 && compare_az(x.0.as_str(), out[j - 1].0.as_str()) == Comparison::Less
        invariant
            j <= out@.len(),
            out_v == members_view(out@),
            out_v.len() == out@.len(),
            forall|k: int| 0 <= k < out@.len() ==> #[trigger] out_v[k] == (out@[k].0@, out@[k].1.view()),
            forall|k: int|
                j <= k < out@.len() ==> az_order(x.0@, #[trigger] out_v[k].0) == Comparison::Less && az_order(
                    out_v[k].0,
                    x.0@,
                ) == Comparison::Greater,
        decreases j,
    {
        j = j - 1;
    }
    proof {
        if j > 0 {
            assert(az_order(out_v[j - 1].0, x.0@) != Comparison::Greater);
        }
        if j < out_v.len() {
            assert(az_order(x.0@, out_v[j as int].0) == Comparison::Less);
        }
        if out_v.len() > 0 && az_order(out_v.last().0, x.0@) != Comparison::Greater {
            assert(j == out_v.len());
        }
    }
    let ghost before_out = out@;
    out.insert(j, x);
    proof {
        lemma_members_view_insert(before_out, j as int, x);
        lemma_insert_keeps_keys_sorted(out_v, j as int, xv);
    }
    j
}

/// The members in alphabetical order of their keys (members whose keys the
/// collator finds equal keep their order). Already sorted members are
/// returned as they are.
pub fn sort_members_az(members: Vec<(String, Json)>) -> (r: Vec<(String, Json)>)
    ensures
        members_view(r@).to_multiset() == members_view(members@).to_multiset(),
        keys_az_sorted(members_view(r@)),
        keys_az_sorted(members_view(members@)) ==> members_view(r@) == members_view(members@),
        exists|p: Seq<int>| stable_arrangement(p, members_view(r@), members_view(members@), key_order()),
{
    let ghost given = members_view(members@);
    let mut input = members;
    let mut out: Vec<(String, Json)> = Vec::new();
    let ghost mut taken: int = 0;
    let ghost mut arrangement: Seq<int> = Seq::empty();
    proof {
        lemma_members_view(input@);
        assert(given.subrange(0, 0) =~= members_view(out@));
        assert(given.subrange(0, given.len() as int) =~= given);
    }
    while input.len() > 0
        invariant
            0 <= taken <= given.len(),
            members_view(input@) == given.subrange(taken, given.len() as int),
            members_view(out@).to_multiset() == given.subrange(0, taken).to_multiset(),
            keys_az_sorted(members_view(out@)),
            keys_az_sorted(given) ==> members_view(out@) == given.subrange(0, taken),
            stable_arrangement(arrangement, members_view(out@), given.subrange(0, taken), key_order()),
        decreases input@.len(),
    {
        let ghost before_in = input@;
        let x = input.remove(0);
        let ghost xv = (x.0@, x.1.view());
        proof {
            lemma_members_view_remove(before_in, 0);
            lemma_members_view(before_in);
            assert(members_view(before_in)[0] == xv);
            assert(given.subrange(taken, given.len() as int)[0] == given[taken]);
            assert(given.subrange(taken, given.len() as int).remove(0) =~= given.subrange(
                taken + 1,
                given.len() as int,
            ));
        }
        let ghost out_v = members_view(out@);
        proof {
            lemma_members_view(out@);
            if keys_az_sorted(given) && taken > 0 {
                assert(out_v.len() == taken);
                assert(out_v.last() == given[taken - 1]);
            }
        }
        let j = insert_member_az(&mut out, x);
        proof {
            lemma_stable_insert(arrangement, out_v, given.subrange(0, taken), key_order(), j as int, xv);
            arrangement = arrangement.insert(j as int, taken);
            vstd::seq_lib::to_multiset_insert(out_v, j as int, xv);
            assert(given.subrange(0, taken + 1) =~= given.subrange(0, taken).push(xv));
            vstd::seq_lib::to_multiset_build(given.subrange(0, taken), xv);
            if keys_az_sorted(given) {
                if taken > 0 {
                    assert(given[taken - 1] == out_v[taken - 1]);
                    assert(keys_in_order_at(given, taken - 1));
                }
                assert(j == out_v.len());
                assert(members_view(out@) =~= given.subrange(0, taken + 1));
            }
            taken = taken + 1;
        }
    }
    proof {
        assert(taken == given.len());
        assert(given.subrange(0, given.len() as int) =~= given);
    }
    out
}

/// How two array items are ordered alphabetically.
fn order_items(a: &Json, b: &Json) -> (r: Comparison)
    ensures
        r == item_order(a.view(), b.view()),
        item_order(b.view(), a.view()) == flip(r),
{
    match (a, b) {
        (Json::Str(x), Json::Str(y)) => compare_az(x.as_str(), y.as_str()),
        _ => Comparison::Equal,
    }
}

proof fn lemma_insert_keeps_items_sorted(v: Seq<JsonView>, j: int, x: JsonView)
    requires
        0 <= j <= v.len(),
        items_az_sorted(v),
        j > 0 ==> item_order(v[j - 1], x) != Comparison::Greater,
        j < v.len() ==> item_order(x, v[j]) != Comparison::Greater,
    ensures
        items_az_sorted(v.insert(j, x)),
{
    let nv = v.insert(j, x);
    assert forall|i: int| 0 <= i < nv.len() - 1 implies #[trigger] items_in_order_at(nv, i) by {
        if i < j - 1 {
            assert(items_in_order_at(v, i));
            assert(nv[i] == v[i] && nv[i + 1] == v[i + 1]);
        } else if i == j - 1 {
            assert(nv[i] == v[i] && nv[i + 1] == x);
        } else if i == j {
            assert(nv[i] == x && nv[i + 1] == v[i]);
        } else {
            assert(items_in_order_at(v, i - 1));
            assert(nv[i] == v[i - 1] && nv[i + 1] == v[i]);
        }
    }
}

/// Insert `x` into sorted items, after every item not ordered after it;
/// returns where it went.
fn insert_item_az(out: &mut Vec<Json>, x: Json) -> (j: usize)
    requires
        items_az_sorted(items_view(old(out)@)),
    ensures
        j <= old(out)@.len(),
        items_view(final(out)@) == items_view(old(out)@).insert(j as int, x.view()),
        items_az_sorted(items_view(final(out)@)),
        old(out)@.len() > 0 && item_order(items_view(old(out)@).last(), x.view()) != Comparison::Greater
            ==> j == old(out)@.len(),
        forall|k: int| j <= k < old(out)@.len() ==> item_order(x.view(), #[trigger] items_view(old(out)@)[k]) == Comparison::Less,
{
    let ghost xv = x.view();
    let ghost out_v = items_view(out@);
    proof {
        lemma_items_view(out@);
    }
    let mut j: usize = out.len();
    while j > 0 && order_items(&x, &out[j - 1]) == Comparison::Less
        invariant
            j <= out@.len(),
            out_v == items_view(out@),
            out_v.len() == out@.len(),
            xv == x.view(),
            forall|k: int| 0 <= k < out@.len() ==> #[trigger] out_v[k] == out@[k].view(),
            forall|k: int|
                j <= k < out@.len() ==> item_order(xv, #[trigger] out_v[k]) == Comparison::Less && item_order(
                    out_v[k],
                    xv,
                ) == Comparison::Greater,
        decreases j,
    {
        j = j - 1;
    }
    proof {
        if j > 0 {
            assert(item_order(out_v[j - 1], xv) != Comparison::Greater);
        }
        if j < out_v.len() {
            assert(item_order(xv, out_v[j as int]) == Comparison::Less);
        }
        if out_v.len() > 0 && item_order(out_v.last(), xv) != Comparison::Greater {
            assert(j == out_v.len());
        }
    }
    let ghost before_out = out@;
    out.insert(j, x);
    proof {
        lemma_items_view_insert(before_out, j as int, x);
        lemma_insert_keeps_items_sorted(out_v, j as int, xv);
    }
    j
}

/// The items in alphabetical order (strings by the collator; items that
/// are equal in that order keep their order). Already sorted items are
/// returned as they are.
pub fn sort_items_az(items: Vec<Json>) -> (r: Vec<Json>)
    ensures
        items_view(r@).to_multiset() == items_view(items@).to_multiset(),
        items_az_sorted(items_view(r@)),
        items_az_sorted(items_view(items@)) ==> items_view(r@) == items_view(items@),
        exists|p: Seq<int>| stable_arrangement(p, items_view(r@), items_view(items@), items_order()),
{
    let ghost given = items_view(items@);
    let mut input = items;
    let mut out: Vec<Json> = Vec::new();
    let ghost mut taken: int = 0;
    let ghost mut arrangement: Seq<int> = Seq::empty();
    proof {
        lemma_items_view(input@);
        assert(given.subrange(0, 0) =~= items_view(out@));
        assert(given.subrange(0, given.len() as int) =~= given);
    }
    while input.len() > 0
        invariant
            0 <= taken <= given.len(),
            items_view(input@) == given.subrange(taken, given.len() as int),
            items_view(out@).to_multiset() == given.subrange(0, taken).to_multiset(),
            items_az_sorted(items_view(out@)),
            items_az_sorted(given) ==> items_view(out@) == given.subrange(0, taken),
            stable_arrangement(arrangement, items_view(out@), given.subrange(0, taken), items_order()),
        decreases input@.len(),
    {
        let ghost before_in = input@;
        let x = input.remove(0);
        let ghost xv = x.view();
        proof {
            lemma_items_view_remove(before_in, 0);
            lemma_items_view(before_in);
            assert(items_view(before_in)[0] == xv);
            assert(given.subrange(taken, given.len() as int)[0] == given[taken]);
            assert(given.subrange(taken, given.len() as int).remove(0) =~= given.subrange(
                taken + 1,
                given.len() as int,
            ));
        }
        let ghost out_v = items_view(out@);
        proof {
            lemma_items_view(out@);
            if items_az_sorted(given) && taken > 0 {
                assert(out_v.len() == taken);
                assert(out_v.last() == given[taken - 1]);
            }
        }
        let j = insert_item_az(&mut out, x);
        proof {
            lemma_stable_insert(arrangement, out_v, given.subrange(0, taken), items_order(), j as int, xv);
            arrangement = arrangement.insert(j as int, taken);
            vstd::seq_lib::to_multiset_insert(out_v, j as int, xv);
            assert(given.subrange(0, taken + 1) =~= given.subrange(0, taken).push(xv));
            vstd::seq_lib::to_multiset_build(given.subrange(0, taken), xv);
            if items_az_sorted(given) {
                if taken > 0 {
                    assert(given[taken - 1] == out_v[taken - 1]);
                    assert(items_in_order_at(given, taken - 1));
                }
                assert(j == out_v.len());
                assert(items_view(out@) =~= given.subrange(0, taken + 1));
            }
            taken = taken + 1;
        }
    }
    proof {
        assert(taken == given.len());
        assert(given.subrange(0, given.len() as int) =~= given);
    }
    out
}

/// What sorting a value alphabetically may give: an object's members
/// sorted by key, an array's items sorted, anything else as it is; what is
/// already sorted stays as it is.
pub open spec fn az_sorted_form(out: JsonView, v: JsonView) -> bool {
    match v {
        JsonView::Object(members) => match out {
            JsonView::Object(sorted) => {
                &&& sorted.to_multiset() == members.to_multiset()
                &&& keys_az_sorted(sorted)
                &&& keys_az_sorted(members) ==> sorted == members
                &&& exists|p: Seq<int>| stable_arrangement(p, sorted, members, key_order())
            },
            _ => false,
        },
        JsonView::Array(items) => match out {
            JsonView::Array(sorted) => {
                &&& sorted.to_multiset() == items.to_multiset()
                &&& items_az_sorted(sorted)
                &&& items_az_sorted(items) ==> sorted == items
                &&& exists|p: Seq<int>| stable_arrangement(p, sorted, items, items_order())
            },
            _ => false,
        },
        _ => out == v,
    }
}

/// Is the value sorted alphabetically already?
pub open spec fn is_az_sorted(v: JsonView) -> bool {
    match v {
        JsonView::Object(members) => keys_az_sorted(members),
        JsonView::Array(items) => items_az_sorted(items),
        _ => true,
    }
}

/// Sort an array or object alphabetically by EN locale
pub fn sort_alphabetically(value: &Json) -> (r: Json)
    ensures
        az_sorted_form(r.view(), value.view()),
{
    match value.duplicate() {
        Json::Object(members) => {
            let ghost given = members_view(members@);
            let sorted = sort_members_az(members);
            proof {
                let p = choose|p: Seq<int>| stable_arrangement(p, members_view(sorted@), given, key_order());
                assert(stable_arrangement(p, members_view(sorted@), given, key_order()));
            }
            Json::Object(sorted)
        },
        Json::Array(items) => {
            let ghost given = items_view(items@);
            let sorted = sort_items_az(items);
            proof {
                let p = choose|p: Seq<int>| stable_arrangement(p, items_view(sorted@), given, items_order());
                assert(stable_arrangement(p, items_view(sorted@), given, items_order()));
            }
            Json::Array(sorted)
        },
        other => other,
    }
}

/// Get a sorted version of the given property from package.json: `None`
/// when there is no such property or it is sorted already.
pub fn get_sorted_az(key: &String, package: &Json) -> (r: Option<Json>)
    ensures
        match at_pointer(package.view(), seq!['/'] + key@) {
            None => r is None,
            Some(v) => match r {
                None => is_az_sorted(v),
                Some(sorted) => az_sorted_form(sorted.view(), v) && sorted.view() != v,
            },
        },
{
    let mut chars: Vec<char> = Vec::new();
    chars.push('/');
    let key_chars = crate::text::to_chars(key.as_str());
    let mut i: usize = 0;
    while i < key_chars.len()
        invariant
            i <= key_chars@.len(),
            key_chars@ == key@,
            chars@ == seq!['/'] + key@.subrange(0, i as int),
        decreases key_chars@.len() - i,
    {
        chars.push(key_chars[i]);
        proof {
            assert(seq!['/'] + key@.subrange(0, i + 1) =~= (seq!['/'] + key@.subrange(0, i as int)).push(
                key@[i as int],
            ));
        }
        i = i + 1;
    }
    proof {
        assert(key@.subrange(0, key@.len() as int) =~= key@);
    }
    let pointer = crate::text::string_from_chars(chars.as_slice());
    match package.pointer(pointer.as_str()) {
        Some(value) => {
            let sorted = sort_alphabetically(value);
            if value.same(&sorted) {
                None
            } else {
                Some(sorted)
            }
        },
        None => None,
    }
}

/// The members that `order` names, in the order of `order`: for each key
/// named the first time, the first member with that key, if there is one.
pub open spec fn prioritized(order: Seq<Seq<char>>, members: Seq<(Seq<char>, JsonView)>) -> Seq<(Seq<char>, JsonView)>
    decreases order.len(),
{
    if order.len() == 0 {
        Seq::empty()
    } else {
        let rest = prioritized(order.drop_last(), members);
        let key = order.last();
        if order.drop_last().contains(key) {
            rest
        } else {
            match member_value(members, key) {
                Some(v) => rest.push((key, v)),
                None => rest,
            }
        }
    }
}

/// The members whose keys `order` does not name, in their order.
pub open spec fn unnamed(order: Seq<Seq<char>>, members: Seq<(Seq<char>, JsonView)>) -> Seq<(Seq<char>, JsonView)>
    decreases members.len(),
{
    if members.len() == 0 {
        Seq::empty()
    } else {
        let rest = unnamed(order, members.drop_last());
        if order.contains(members.last().0) {
            rest
        } else {
            rest.push(members.last())
        }
    }
}

/// `sorted` is the members with the keys that `order` names first, in that
/// order, then the others: sorted by key when `sort_remaining`, else as
/// they were.
pub open spec fn priority_sorted(
    sorted: Seq<(Seq<char>, JsonView)>,
    order: Seq<Seq<char>>,
    sort_remaining: bool,
    members: Seq<(Seq<char>, JsonView)>,
) -> bool {
    let first = prioritized(order, members);
    let others = unnamed(order, members);
    &&& sorted.len() >= first.len()
    &&& sorted.subrange(0, first.len() as int) == first
    &&& if sort_remaining {
        let rest = sorted.subrange(first.len() as int, sorted.len() as int);
        &&& rest.to_multiset() == others.to_multiset()
        &&& keys_az_sorted(rest)
        &&& keys_az_sorted(others) ==> rest == others
        &&& exists|p: Seq<int>| stable_arrangement(p, rest, others, key_order())
    } else {
        sorted.subrange(first.len() as int, sorted.len() as int) == others
    }
}

/// Does one of the first `upto` strings equal `key`?
fn strings_contain(v: &Vec<String>, upto: usize, key: &String) -> (r: bool)
    requires
        upto <= v@.len(),
    ensures
        r == crate::version_group::strings_view(v@).subrange(0, upto as int).contains(key@),
{
    let ghost sv = crate::version_group::strings_view(v@).subrange(0, upto as int);
    let mut i: usize = 0;
    while i < upto
        invariant
            i <= upto <= v@.len(),
            sv == crate::version_group::strings_view(v@).subrange(0, upto as int),
            forall|k: int| 0 <= k < i ==> sv[k] != key@,
        decreases upto - i,
    {
        if crate::text::str_is(v[i].as_str(), key.as_str()) {
            proof {
                assert(sv[i as int] == key@);
            }
            return true;
        }
        i = i + 1;
    }
    false
}

/// The first member with the key, as its position.
fn find_member(members: &Vec<(String, Json)>, key: &String) -> (r: Option<usize>)
    ensures
        match r {
            Some(i) => i < members@.len() && member_value(members_view(members@), key@) == Some(
                members@[i as int].1.view(),
            ),
            None => member_value(members_view(members@), key@) is None,
        },
{
    let ghost mv = members_view(members@);
    proof {
        lemma_members_view(members@);
        assert(mv.subrange(0, mv.len() as int) =~= mv);
    }
    let mut i: usize = 0;
    while i < members.len()
        invariant
            i <= members@.len(),
            mv == members_view(members@),
            mv.len() == members@.len(),
            forall|k: int| 0 <= k < members@.len() ==> #[trigger] mv[k] == (members@[k].0@, members@[k].1.view()),
            member_value(mv, key@) == member_value(mv.subrange(i as int, mv.len() as int), key@),
        decreases members@.len() - i,
    {
        let ghost rest = mv.subrange(i as int, mv.len() as int);
        proof {
            assert(rest[0] == mv[i as int]);
            assert(rest.drop_first() =~= mv.subrange(i + 1, mv.len() as int));
        }
        if crate::text::str_is(members[i].0.as_str(), key.as_str()) {
            return Some(i);
        }
        i = i + 1;
    }
    None
}

/// The members named by `order` first, in that order, then the remaining
/// members, sorted by key when `sort_remaining`.
pub fn sort_keys_with_priority(
    order: &Vec<String>,
    sort_remaining: bool,
    members: &Vec<(String, Json)>,
) -> (r: Vec<(String, Json)>)
    ensures
        priority_sorted(
            members_view(r@),
            crate::version_group::strings_view(order@),
            sort_remaining,
            members_view(members@),
        ),
{
    let ghost ov = crate::version_group::strings_view(order@);
    let ghost mv = members_view(members@);
    let mut first: Vec<(String, Json)> = Vec::new();
    let mut k: usize = 0;
    proof {
        lemma_members_view(first@);
    }
    while k < order.len()
        invariant
            k <= order@.len(),
            ov == crate::version_group::strings_view(order@),
            mv == members_view(members@),
            members_view(first@) == prioritized(ov.subrange(0, k as int), mv),
        decreases order@.len() - k,
    {
        let key = &order[k];
        proof {
            assert(ov.subrange(0, k + 1).drop_last() =~= ov.subrange(0, k as int));
            assert(ov.subrange(0, k + 1).last() == key@);
        }
        if !strings_contain(order, k, key) {
            match find_member(members, key) {
                Some(i) => {
                    let ghost before = first@;
                    let member = (key.clone(), members[i].1.duplicate());
                    first.push(member);
                    proof {
                        lemma_members_view_insert(before, before.len() as int, member);
                        assert(before.insert(before.len() as int, member) =~= before.push(member));
                        lemma_members_view(before);
                        assert(members_view(before).insert(before.len() as int, (member.0@, member.1.view()))
                            =~= members_view(before).push((member.0@, member.1.view())));
                    }
                },
                None => {},
            }
        }
        k = k + 1;
    }
    proof {
        assert(ov.subrange(0, order@.len() as int) =~= ov);
    }
    let mut others: Vec<(String, Json)> = Vec::new();
    let mut m: usize = 0;
    proof {
        lemma_members_view(others@);
        lemma_members_view(members@);
    }
    while m < members.len()
        invariant
            m <= members@.len(),
            ov == crate::version_group::strings_view(order@),
            mv == members_view(members@),
            mv.len() == members@.len(),
            forall|j: int| 0 <= j < members@.len() ==> #[trigger] mv[j] == (members@[j].0@, members@[j].1.view()),
            members_view(others@) == unnamed(ov, mv.subrange(0, m as int)),
        decreases members@.len() - m,
    {
        proof {
            assert(mv.subrange(0, m + 1).drop_last() =~= mv.subrange(0, m as int));
            assert(mv.subrange(0, m + 1).last() == mv[m as int]);
            assert(ov.subrange(0, order@.len() as int) =~= ov);
        }
        if !strings_contain(order, order.len(), &members[m].0) {
            let ghost before = others@;
            let member = (members[m].0.clone(), members[m].1.duplicate());
            others.push(member);
            proof {
                lemma_members_view_insert(before, before.len() as int, member);
                assert(before.insert(before.len() as int, member) =~= before.push(member));
                lemma_members_view(before);
                assert(members_view(before).insert(before.len() as int, (member.0@, member.1.view()))
                    =~= members_view(before).push((member.0@, member.1.view())));
            }
        }
        m = m + 1;
    }
    proof {
        assert(mv.subrange(0, members@.len() as int) =~= mv);
    }
    let rest = if sort_remaining {
        sort_members_az(others)
    } else {
        others
    };
    let ghost first_v = members_view(first@);
    let ghost rest_v = members_view(rest@);
    let mut rest = rest;
    let ghost first_s = first@;
    let ghost rest_s = rest@;
    first.append(&mut rest);
    proof {
        lemma_members_view(first@);
        lemma_members_view(first_s);
        lemma_members_view(rest_s);
        let all = members_view(first@);
        assert(all.subrange(0, first_v.len() as int) =~= first_v);
        assert(all.subrange(first_v.len() as int, all.len() as int) =~= rest_v);
    }
    first
}

/// The members of `members` with the keys that `order` names first, in that
/// order, then the others as they were.
pub open spec fn in_priority_order(order: Seq<Seq<char>>, members: Seq<(Seq<char>, JsonView)>) -> Seq<(Seq<char>, JsonView)> {
    prioritized(order, members) + unnamed(order, members)
}

/// Conditional exports sorted: in every object, at any depth, the keys
/// that `order` names come first, in that order.
pub open spec fn exports_sorted(v: JsonView, order: Seq<Seq<char>>) -> JsonView
    decreases v, 0nat,
{
    match v {
        JsonView::Object(members) => JsonView::Object(in_priority_order(order, nested_exports_sorted(members, order))),
        _ => v,
    }
}

/// The members with each value sorted as conditional exports.
pub open spec fn nested_exports_sorted(members: Seq<(Seq<char>, JsonView)>, order: Seq<Seq<char>>) -> Seq<(Seq<char>, JsonView)>
    decreases members, 1nat,
{
    if members.len() == 0 {
        Seq::empty()
    } else {
        nested_exports_sorted(members.drop_last(), order).push(
            (members.last().0, exports_sorted(members.last().1, order)),
        )
    }
}

proof fn lemma_nested_exports_sorted(members: Seq<(Seq<char>, JsonView)>, order: Seq<Seq<char>>)
    ensures
        nested_exports_sorted(members, order).len() == members.len(),
        forall|i: int|
            0 <= i < members.len() ==> #[trigger] nested_exports_sorted(members, order)[i] == (
                members[i].0,
                exports_sorted(members[i].1, order),
            ),
    decreases members.len(),
{
    if members.len() > 0 {
        lemma_nested_exports_sorted(members.drop_last(), order);
    }
}

/// Recursively visit and sort nested objects of the exports object
fn sort_nested_objects(sort_exports: &Vec<String>, value: &Json) -> (r: Json)
    ensures
        r.view() == exports_sorted(value.view(), crate::version_group::strings_view(sort_exports@)),
    decreases value,
{
    let ghost order = crate::version_group::strings_view(sort_exports@);
    match value {
        Json::Object(members) => {
            let mut mapped: Vec<(String, Json)> = Vec::new();
            let mut i: usize = 0;
            proof {
                lemma_members_view(members@);
                lemma_members_view(mapped@);
                lemma_nested_exports_sorted(members_view(members@), order);
            }
            while i < members.len()
                invariant
                    i <= members@.len(),
                    *value == Json::Object(*members),
                    order == crate::version_group::strings_view(sort_exports@),
                    members_view(members@).len() == members@.len(),
                    forall|k: int|
                        0 <= k < members@.len() ==> #[trigger] members_view(members@)[k] == (
                            members@[k].0@,
                            members@[k].1.view(),
                        ),
                    nested_exports_sorted(members_view(members@), order).len() == members@.len(),
                    forall|k: int|
                        0 <= k < members@.len() ==> #[trigger] nested_exports_sorted(members_view(members@), order)[k]
                            == (members_view(members@)[k].0, exports_sorted(members_view(members@)[k].1, order)),
                    members_view(mapped@) == nested_exports_sorted(members_view(members@), order).subrange(0, i as int),
                decreases members@.len() - i,
            {
                proof {
                    assert(decreases_to!(*value => value->Object_0));
                    assert(decreases_to!(*members => members@));
                    assert(decreases_to!(members@ => members@[i as int]));
                    assert(decreases_to!(members@[i as int] => members@[i as int].1));
                }
                let sorted_value = sort_nested_objects(sort_exports, &members[i].1);
                let member = (members[i].0.clone(), sorted_value);
                let ghost before = mapped@;
                mapped.push(member);
                proof {
                    lemma_members_view_insert(before, before.len() as int, member);
                    assert(before.insert(before.len() as int, member) =~= before.push(member));
                    lemma_members_view(before);
                    let target = nested_exports_sorted(members_view(members@), order);
                    assert(target.subrange(0, i + 1) =~= target.subrange(0, i as int).push(target[i as int]));
                    assert(members_view(before).insert(before.len() as int, (member.0@, member.1.view()))
                        =~= members_view(before).push((member.0@, member.1.view())));
                }
                i = i + 1;
            }
            proof {
                let target = nested_exports_sorted(members_view(members@), order);
                assert(target.subrange(0, members@.len() as int) =~= target);
            }
            let sorted = sort_keys_with_priority(sort_exports, false, &mapped);
            proof {
                let sv = members_view(sorted@);
                let f = prioritized(order, members_view(mapped@)).len();
                assert(sv =~= sv.subrange(0, f as int) + sv.subrange(f as int, sv.len() as int));
            }
            Json::Object(sorted)
        },
        _ => value.duplicate(),
    }
}

/// The formatting options of a config file.
pub struct FormatConfig {
    /// Use the shorthand form of the `bugs` property
    pub format_bugs: bool,
    /// Use the shorthand form of the `repository` property
    pub format_repository: bool,
    /// Properties to sort alphabetically
    pub sort_az: Vec<String>,
    /// The order of conditional exports
    pub sort_exports: Vec<String>,
    /// The keys of a package.json file to put first, in this order
    pub sort_first: Vec<String>,
    /// Sort the other keys of a package.json file alphabetically
    pub sort_packages: bool,
}

pub open spec fn opt_json_view(o: Option<Json>) -> Option<JsonView> {
    match o {
        Some(j) => Some(j.view()),
        None => None,
    }
}

/// The shorthand `bugs` value: the url of the `bugs` object.
pub open spec fn formatted_bugs(package: JsonView) -> Option<JsonView> {
    at_pointer(package, "/bugs/url"@)
}

/// Use a shorthand format for the bugs URL when possible
pub fn get_formatted_bugs(package: &Json) -> (r: Option<Json>)
    ensures
        opt_json_view(r) == formatted_bugs(package.view()),
{
    match package.pointer("/bugs/url") {
        Some(url) => Some(url.duplicate()),
        None => None,
    }
}

/// What `regex::Regex::new(pattern)` followed by `Regex::replace` of the
/// first match in the text by nothing gives; `None` when the pattern does
/// not compile.
pub uninterp spec fn regex_replaced(pattern: Seq<char>, text: Seq<char>) -> Option<Seq<char>>;

/// The pattern that matches a GitHub url up to the owner's name.
pub open spec fn github_url_pattern() -> Seq<char> {
    ".+github\\.com/"@
}

/// `github.com/` stands at index `i` of the url, after at least one character.
pub open spec fn github_host_at(url: Seq<char>, i: int) -> bool {
    1 <= i && i + 11 <= url.len() && url.subrange(i, i + 11) == "github.com/"@
}

/// The last index `j <= i` at which `github_host_at` holds, or 0 when none.
pub open spec fn last_github_host(url: Seq<char>, i: int) -> int
    decreases i,
{
    if i < 1 {
        0
    } else if github_host_at(url, i) {
        i
    } else {
        last_github_host(url, i - 1)
    }
}

/// The url without everything up to its last `github.com/` that has a
/// character before it; the url itself when it has none.
pub open spec fn without_github_prefix(url: Seq<char>) -> Seq<char> {
    let i = last_github_host(url, url.len() - 11);
    if i >= 1 {
        url.subrange(i + 11, url.len() as int)
    } else {
        url
    }
}

/// Builds `regex::Regex::new(pattern)` and, when it compiles, calls
/// `Regex::replace` with it on the text and an empty replacement, which
/// removes the leftmost-first match. Claimed: the result is named
/// `regex_replaced` of the pattern and the text; it is `Some` exactly when
/// the pattern compiles (`regex_is_valid`); and for the pattern `.+github\.com/`
/// on a text without a newline (where `.` matches every character and the
/// greedy `.+` extends the match from the start to the last `github.com/`
/// with a character before it) it is `without_github_prefix` of the text.
/// The regex semantics are otherwise not stated.
#[verifier::external_body]
fn regex_replace_first(pattern: &str, text: &str) -> (r: Option<String>)
    ensures
        match r {
            Some(s) => regex_replaced(pattern@, text@) == Some(s@),
            None => regex_replaced(pattern@, text@) is None,
        },
        match r {
            Some(s) => crate::cli::regex_is_valid(pattern@) && (pattern@ == github_url_pattern()
                && !text@.contains('\n') ==> s@ == without_github_prefix(text@)),
            None => !crate::cli::regex_is_valid(pattern@) && !(pattern@ == github_url_pattern()
                && !text@.contains('\n')),
        },
{
    match regex::Regex::new(pattern) {
        Ok(re) => Some(re.replace(text, "").to_string()),
        Err(_) => None,
    }
}

/// The shorthand of a repository url: without its GitHub prefix.
pub open spec fn shorthand_url(url: Seq<char>) -> Option<Seq<char>> {
    if url.contains('\n') {
        regex_replaced(github_url_pattern(), url)
    } else {
        Some(without_github_prefix(url))
    }
}

/// The shorthand `repository` value when the `repository` object has no
/// `directory` and its `url` is a string.
pub open spec fn formatted_repository(package: JsonView) -> Option<JsonView> {
    if at_pointer(package, "/repository/directory"@) is Some {
        None
    } else {
        match at_pointer(package, "/repository/url"@) {
            Some(JsonView::Str(url)) => match shorthand_url(url) {
                Some(short) => Some(JsonView::Str(short)),
                None => None,
            },
            _ => None,
        }
    }
}

/// The `repository` value that a shorthand url gives.
pub fn repository_value(shorthand: Option<String>) -> (r: Option<Json>)
    ensures
        match shorthand {
            Some(s) => opt_json_view(r) == Some(JsonView::Str(s@)),
            None => r is None,
        },
{
    match shorthand {
        Some(s) => Some(Json::Str(s)),
        None => None,
    }
}

/// Use a shorthand format for the repository URL when possible
pub fn get_formatted_repository(package: &Json) -> (r: Option<Json>)
    ensures
        opt_json_view(r) == formatted_repository(package.view()),
{
    if package.pointer("/repository/directory").is_some() {
        return None;
    }
    match package.pointer("/repository/url") {
        Some(Json::Str(url)) => {
            let short = regex_replace_first(".+github\\.com/", url.as_str());
            repository_value(short)
        },
        _ => None,
    }
}

/// The exports of the package sorted, when sorting changes them.
pub open spec fn sorted_exports(order: Seq<Seq<char>>, package: JsonView) -> Option<JsonView> {
    match at_pointer(package, "/exports"@) {
        Some(exports) => if exports_sorted(exports, order) == exports {
            None
        } else {
            Some(exports_sorted(exports, order))
        },
        None => None,
    }
}

/// Get sorted conditional exports and conditional exports subpaths
pub fn get_sorted_exports(config: &FormatConfig, package: &Json) -> (r: Option<Json>)
    ensures
        opt_json_view(r) == sorted_exports(crate::version_group::strings_view(config.sort_exports@), package.view()),
{
    match package.pointer("/exports") {
        Some(exports) => {
            let sorted = sort_nested_objects(&config.sort_exports, exports);
            if exports.same(&sorted) {
                None
            } else {
                Some(sorted)
            }
        },
        None => None,
    }
}

/// The keys of the members, in order.
pub open spec fn keys_of(members: Seq<(Seq<char>, JsonView)>) -> Seq<Seq<char>> {
    members.map_values(|m: (Seq<char>, JsonView)| m.0)
}

/// Do both of these objects have the same order keys?
fn has_same_key_order(a: &Vec<(String, Json)>, b: &Vec<(String, Json)>) -> (r: bool)
    ensures
        r == (keys_of(members_view(a@)) == keys_of(members_view(b@))),
{
    proof {
        lemma_members_view(a@);
        lemma_members_view(b@);
    }
    if a.len() != b.len() {
        proof {
            assert(keys_of(members_view(a@)).len() != keys_of(members_view(b@)).len());
        }
        return false;
    }
    let mut i: usize = 0;
    while i < a.len()
        invariant
            i <= a@.len(),
            a@.len() == b@.len(),
            members_view(a@).len() == a@.len(),
            members_view(b@).len() == b@.len(),
            forall|k: int| 0 <= k < a@.len() ==> #[trigger] members_view(a@)[k] == (a@[k].0@, a@[k].1.view()),
            forall|k: int| 0 <= k < b@.len() ==> #[trigger] members_view(b@)[k] == (b@[k].0@, b@[k].1.view()),
            forall|k: int| 0 <= k < i ==> keys_of(members_view(a@))[k] == keys_of(members_view(b@))[k],
        decreases a@.len() - i,
    {
        if !crate::text::str_is(a[i].0.as_str(), b[i].0.as_str()) {
            proof {
                assert(keys_of(members_view(a@))[i as int] != keys_of(members_view(b@))[i as int]);
            }
            return false;
        }
        i = i + 1;
    }
    proof {
        assert(keys_of(members_view(a@)) =~= keys_of(members_view(b@)));
    }
    true
}

/// Get a new package.json with its keys sorted to match the config: `None`
/// when the package is not an object or its keys are in that order already.
pub fn get_sorted_first(config: &FormatConfig, package: &Json) -> (r: Option<Json>)
    ensures
        match package.view() {
            JsonView::Object(members) => match r {
                Some(sorted) => match sorted.view() {
                    JsonView::Object(sorted_members) => {
                        &&& priority_sorted(
                            sorted_members,
                            crate::version_group::strings_view(config.sort_first@),
                            config.sort_packages,
                            members,
                        )
                        &&& keys_of(sorted_members) != keys_of(members)
                    },
                    _ => false,
                },
                None => exists|sorted_members: Seq<(Seq<char>, JsonView)>|
                    priority_sorted(
                        sorted_members,
                        crate::version_group::strings_view(config.sort_first@),
                        config.sort_packages,
                        members,
                    ) && keys_of(sorted_members) == keys_of(members),
            },
            _ => r is None,
        },
{
    match package {
        Json::Object(members) => {
            let sorted = sort_keys_with_priority(&config.sort_first, config.sort_packages, members);
            if has_same_key_order(members, &sorted) {
                proof {
                    assert(priority_sorted(
                        members_view(sorted@),
                        crate::version_group::strings_view(config.sort_first@),
                        config.sort_packages,
                        members_view(members@),
                    ));
                }
                None
            } else {
                Some(Json::Object(sorted))
            }
        },
        _ => None,
    }
}

/// A formatting rule that a package.json file breaks, with the value that
/// would mend it and where that value goes.
pub struct FormatMismatch {
    /// The formatted value
    pub expected: Json,
    /// The path to the property that was linted
    pub property_path: String,
    /// The broken linting rule
    pub variant: FormatMismatchVariant,
}

pub open spec fn mismatch_view(m: FormatMismatch) -> (FormatMismatchVariant, Seq<char>, JsonView) {
    (m.variant, m.property_path@, m.expected.view())
}

pub open spec fn mismatches_view(ms: Seq<FormatMismatch>) -> Seq<(FormatMismatchVariant, Seq<char>, JsonView)> {
    ms.map_values(|m: FormatMismatch| mismatch_view(m))
}

/// What the sortAz rule may find of the property `key`.
pub open spec fn az_outcome(key: Seq<char>, package: JsonView, o: Option<JsonView>) -> bool {
    match at_pointer(package, seq!['/'] + key) {
        None => o is None,
        Some(v) => match o {
            None => is_az_sorted(v),
            Some(sorted) => az_sorted_form(sorted, v) && sorted != v,
        },
    }
}

/// What sorting the keys of the package may find.
pub open spec fn first_outcome(order: Seq<Seq<char>>, sort_packages: bool, package: JsonView, o: Option<JsonView>) -> bool {
    match package {
        JsonView::Object(members) => match o {
            Some(JsonView::Object(sorted)) => priority_sorted(sorted, order, sort_packages, members) && keys_of(sorted)
                != keys_of(members),
            Some(_) => false,
            None => exists|sorted: Seq<(Seq<char>, JsonView)>|
                priority_sorted(sorted, order, sort_packages, members) && keys_of(sorted) == keys_of(members),
        },
        _ => o is None,
    }
}

/// A mismatch of the rule `variant` at `path` when the rule found a value.
pub open spec fn found(o: Option<JsonView>, variant: FormatMismatchVariant, path: Seq<char>) -> Seq<(FormatMismatchVariant, Seq<char>, JsonView)> {
    match o {
        Some(v) => seq![(variant, path, v)],
        None => Seq::empty(),
    }
}

/// The sortAz mismatches, key by key.
pub open spec fn az_found(keys: Seq<Seq<char>>, outcomes: Seq<Option<JsonView>>) -> Seq<(FormatMismatchVariant, Seq<char>, JsonView)>
    decreases keys.len(),
{
    if keys.len() == 0 {
        Seq::empty()
    } else {
        az_found(keys.drop_last(), outcomes.drop_last()) + found(
            outcomes.last(),
            FormatMismatchVariant::PropertyIsNotSortedAz,
            seq!['/'] + keys.last(),
        )
    }
}

/// The mismatches of a package, rule by rule in the order they are checked,
/// given what the sortAz rule and the key sorting found.
pub open spec fn mismatches_found(
    config: FormatConfig,
    package: JsonView,
    az: Seq<Option<JsonView>>,
    first: Option<JsonView>,
) -> Seq<(FormatMismatchVariant, Seq<char>, JsonView)> {
    (if config.format_bugs {
        found(formatted_bugs(package), FormatMismatchVariant::BugsPropertyIsNotFormatted, "/bugs"@)
    } else {
        Seq::empty()
    }) + (if config.format_repository {
        found(formatted_repository(package), FormatMismatchVariant::RepositoryPropertyIsNotFormatted, "/repository"@)
    } else {
        Seq::empty()
    }) + (if config.sort_exports@.len() > 0 {
        found(
            sorted_exports(strings_view(config.sort_exports@), package),
            FormatMismatchVariant::ExportsPropertyIsNotSorted,
            "/exports"@,
        )
    } else {
        Seq::empty()
    }) + az_found(strings_view(config.sort_az@), az) + (if config.sort_packages || config.sort_first@.len() > 0 {
        found(first, FormatMismatchVariant::PackagePropertiesAreNotSorted, "/"@)
    } else {
        Seq::empty()
    })
}

/// The formatting rules of the config that the package breaks, each with
/// the value that would mend it, in the order the rules are checked: bugs,
/// repository, exports, each sortAz property, then the order of the keys.
pub fn get_format_mismatches(config: &FormatConfig, package: &Json) -> (r: Vec<FormatMismatch>)
    ensures
        exists|az: Seq<Option<JsonView>>, first: Option<JsonView>|
            {
                &&& az.len() == config.sort_az@.len()
                &&& forall|i: int| 0 <= i < az.len() ==> az_outcome(#[trigger] config.sort_az@[i]@, package.view(), az[i])
                &&& (config.sort_packages || config.sort_first@.len() > 0) ==> first_outcome(
                    strings_view(config.sort_first@),
                    config.sort_packages,
                    package.view(),
                    first,
                )
                &&& mismatches_view(r@) == mismatches_found(*config, package.view(), az, first)
            },
{
    let ghost pv = package.view();
    let mut out: Vec<FormatMismatch> = Vec::new();
    let ghost mut expect: Seq<(FormatMismatchVariant, Seq<char>, JsonView)> = Seq::empty();
    if config.format_bugs {
        match get_formatted_bugs(package) {
            Some(expected) => {
                out.push(FormatMismatch {
                    expected,
                    property_path: String::from_str("/bugs"),
                    variant: FormatMismatchVariant::BugsPropertyIsNotFormatted,
                });
            },
            None => {},
        }
        proof {
            expect = found(formatted_bugs(pv), FormatMismatchVariant::BugsPropertyIsNotFormatted, "/bugs"@);
            assert(mismatches_view(out@) =~= expect);
        }
    }
    let ghost e1 = expect;
    assert(mismatches_view(out@) =~= e1);
    if config.format_repository {
        let ghost before = out@;
        match get_formatted_repository(package) {
            Some(expected) => {
                out.push(FormatMismatch {
                    expected,
                    property_path: String::from_str("/repository"),
                    variant: FormatMismatchVariant::RepositoryPropertyIsNotFormatted,
                });
            },
            None => {},
        }
        proof {
            expect = e1 + found(
                formatted_repository(pv),
                FormatMismatchVariant::RepositoryPropertyIsNotFormatted,
                "/repository"@,
            );
            assert(mismatches_view(out@) =~= expect);
        }
    } else {
        proof {
            expect = e1 + Seq::empty();
            assert(expect =~= e1);
        }
    }
    let ghost e2 = expect;
    assert(mismatches_view(out@) == e2);
    if config.sort_exports.len() > 0 {
        match get_sorted_exports(config, package) {
            Some(expected) => {
                out.push(FormatMismatch {
                    expected,
                    property_path: String::from_str("/exports"),
                    variant: FormatMismatchVariant::ExportsPropertyIsNotSorted,
                });
            },
            None => {},
        }
        proof {
            expect = e2 + found(
                sorted_exports(strings_view(config.sort_exports@), pv),
                FormatMismatchVariant::ExportsPropertyIsNotSorted,
                "/exports"@,
            );
            assert(mismatches_view(out@) =~= expect);
        }
    } else {
        proof {
            expect = e2 + Seq::empty();
            assert(expect =~= e2);
        }
    }
    let ghost e3 = expect;
    assert(mismatches_view(out@) == e3);
    let ghost mut az: Seq<Option<JsonView>> = Seq::empty();
    let mut k: usize = 0;
    proof {
        assert(az_found(strings_view(config.sort_az@).subrange(0, 0), az) =~= Seq::empty());
        assert(e3 + Seq::empty() =~= e3);
    }
    while k < config.sort_az.len()
        invariant
            k <= config.sort_az@.len(),
            pv == package.view(),
            az.len() == k,
            forall|i: int| 0 <= i < k ==> az_outcome(#[trigger] config.sort_az@[i]@, pv, az[i]),
            mismatches_view(out@) == e3 + az_found(strings_view(config.sort_az@).subrange(0, k as int), az),
        decreases config.sort_az@.len() - k,
    {
        let key = &config.sort_az[k];
        let o = get_sorted_az(key, package);
        let ghost ov = opt_json_view(o);
        let ghost before = out@;
        let ghost keys = strings_view(config.sort_az@);
        match o {
            Some(expected) => {
                let mut path_chars: Vec<char> = Vec::new();
                path_chars.push('/');
                let kc = crate::text::to_chars(key.as_str());
                let mut i: usize = 0;
                while i < kc.len()
                    invariant
                        i <= kc@.len(),
                        kc@ == key@,
                        path_chars@ == seq!['/'] + key@.subrange(0, i as int),
                    decreases kc@.len() - i,
                {
                    path_chars.push(kc[i]);
                    proof {
                        assert(seq!['/'] + key@.subrange(0, i + 1) =~= (seq!['/'] + key@.subrange(0, i as int)).push(
                            key@[i as int],
                        ));
                    }
                    i = i + 1;
                }
                proof {
                    assert(key@.subrange(0, key@.len() as int) =~= key@);
                }
                let property_path = crate::text::string_from_chars(path_chars.as_slice());
                out.push(FormatMismatch { expected, property_path, variant: FormatMismatchVariant::PropertyIsNotSortedAz });
            },
            None => {},
        }
        proof {
            let new_az = az.push(ov);
            assert(keys.subrange(0, k + 1).drop_last() =~= keys.subrange(0, k as int));
            assert(new_az.drop_last() =~= az);
            assert(keys.subrange(0, k + 1).last() == key@);
            assert(mismatches_view(out@) =~= mismatches_view(before) + found(
                ov,
                FormatMismatchVariant::PropertyIsNotSortedAz,
                seq!['/'] + key@,
            ));
            az = new_az;
        }
        k = k + 1;
    }
    proof {
        assert(strings_view(config.sort_az@).subrange(0, config.sort_az@.len() as int) =~= strings_view(
            config.sort_az@,
        ));
    }
    let ghost e4 = mismatches_view(out@);
    let ghost mut first: Option<JsonView> = None;
    if config.sort_packages || config.sort_first.len() > 0 {
        let o = get_sorted_first(config, package);
        proof {
            first = opt_json_view(o);
        }
        match o {
            Some(expected) => {
                out.push(FormatMismatch {
                    expected,
                    property_path: String::from_str("/"),
                    variant: FormatMismatchVariant::PackagePropertiesAreNotSorted,
                });
            },
            None => {},
        }
        proof {
            assert(mismatches_view(out@) =~= e4 + found(
                first,
                FormatMismatchVariant::PackagePropertiesAreNotSorted,
                "/"@,
            ));
        }
    } else {
        proof {
            first = None;
            assert(mismatches_view(out@) =~= e4 + Seq::empty());
        }
    }
    proof {
        let a = if config.format_bugs {
            found(formatted_bugs(pv), FormatMismatchVariant::BugsPropertyIsNotFormatted, "/bugs"@)
        } else {
            Seq::empty()
        };
        assert(e1 =~= a);
        let all = mismatches_found(*config, pv, az, first);
        assert(mismatches_view(out@) =~= all);
        assert(az.len() == config.sort_az@.len());
        assert((config.sort_packages || config.sort_first@.len() > 0) ==> first_outcome(
            strings_view(config.sort_first@),
            config.sort_packages,
            pv,
            first,
        ));
    }
    out
}

/// The package once the value of each mismatch is written at its path, one
/// mismatch after the other.
pub open spec fn with_mismatches_fixed(
    package: JsonView,
    mismatches: Seq<(FormatMismatchVariant, Seq<char>, JsonView)>,
) -> JsonView
    decreases mismatches.len(),
{
    if mismatches.len() == 0 {
        package
    } else {
        with_at_pointer(
            with_mismatches_fixed(package, mismatches.drop_last()),
            mismatches.last().1,
            mismatches.last().2,
        )
    }
}

/// Write the value of each formatting mismatch into the package, at the
/// mismatch's path.
pub fn fix_formatting(package: &mut Json, mismatches: &Vec<FormatMismatch>)
    ensures
        final(package).view() == with_mismatches_fixed(old(package).view(), mismatches_view(mismatches@)),
{
    let ghost start = package.view();
    let mut i: usize = 0;
    while i < mismatches.len()
        invariant
            i <= mismatches@.len(),
            package.view() == with_mismatches_fixed(start, mismatches_view(mismatches@).subrange(0, i as int)),
        decreases mismatches@.len() - i,
    {
        let mismatch = &mismatches[i];
        proof {
            let mv = mismatches_view(mismatches@);
            assert(mv.subrange(0, i + 1).drop_last() =~= mv.subrange(0, i as int));
            assert(mv.subrange(0, i + 1).last() == mismatch_view(*mismatch));
        }
        package.set_prop(mismatch.property_path.as_str(), mismatch.expected.duplicate());
        i = i + 1;
    }
    proof {
        assert(mismatches_view(mismatches@).subrange(0, mismatches@.len() as int) =~= mismatches_view(mismatches@));
    }
}

/// Once a property that was not sorted alphabetically is replaced by its
/// sorted form, the sortAz rule finds nothing more to sort there.
pub proof fn law_sorted_property_stays_sorted(package: JsonView, key: Seq<char>, sorted: JsonView)
    requires
        az_outcome(key, package, Some(sorted)),
    ensures
        az_outcome(key, with_at_pointer(package, seq!['/'] + key, sorted), None),
{
    let p = seq!['/'] + key;
    law_pointer_reads_back_what_was_set(package, p, sorted);
}

proof fn lemma_member_value_push(ms: Seq<(Seq<char>, JsonView)>, m: (Seq<char>, JsonView), k: Seq<char>)
    ensures
        member_value(ms.push(m), k) == match member_value(ms, k) {
            Some(v) => Some(v),
            None => if m.0 == k {
                Some(m.1)
            } else {
                None
            },
        },
    decreases ms.len(),
{
    assert(ms.push(m)[0] == if ms.len() > 0 {
        ms[0]
    } else {
        m
    });
    if ms.len() > 0 {
        assert(ms.push(m).drop_first() =~= ms.drop_first().push(m));
        lemma_member_value_push(ms.drop_first(), m, k);
    } else {
        assert(ms.push(m).drop_first() =~= Seq::<(Seq<char>, JsonView)>::empty());
    }
}

proof fn lemma_member_value_concat(a: Seq<(Seq<char>, JsonView)>, b: Seq<(Seq<char>, JsonView)>, k: Seq<char>)
    ensures
        member_value(a + b, k) == match member_value(a, k) {
            Some(v) => Some(v),
            None => member_value(b, k),
        },
    decreases a.len(),
{
    if a.len() > 0 {
        assert((a + b).drop_first() =~= a.drop_first() + b);
        lemma_member_value_concat(a.drop_first(), b, k);
    } else {
        assert(a + b =~= b);
    }
}

proof fn lemma_member_value_unnamed(order: Seq<Seq<char>>, ms: Seq<(Seq<char>, JsonView)>, k: Seq<char>)
    requires
        order.contains(k),
    ensures
        member_value(unnamed(order, ms), k) is None,
    decreases ms.len(),
{
    if ms.len() > 0 {
        lemma_member_value_unnamed(order, ms.drop_last(), k);
        if !order.contains(ms.last().0) {
            lemma_member_value_push(unnamed(order, ms.drop_last()), ms.last(), k);
        }
    }
}

/// The members that `order` names are found in `prioritized` with the value
/// they have in the object.
proof fn lemma_member_value_prioritized(order: Seq<Seq<char>>, ms: Seq<(Seq<char>, JsonView)>, k: Seq<char>)
    ensures
        member_value(prioritized(order, ms), k) == if order.contains(k) {
            member_value(ms, k)
        } else {
            None
        },
    decreases order.len(),
{
    if order.len() > 0 {
        let init = order.drop_last();
        let key = order.last();
        lemma_member_value_prioritized(init, ms, k);
        assert(order =~= init.push(key));
        assert(order.contains(k) == (init.contains(k) || key == k)) by {
            if key == k {
                assert(order[order.len() - 1] == k);
            }
            if init.contains(k) {
                let j = choose|j: int| 0 <= j < init.len() && init[j] == k;
                assert(order[j] == k);
            }
            if order.contains(k) && key != k {
                let j = choose|j: int| 0 <= j < order.len() && order[j] == k;
                assert(init[j] == k);
            }
        }
        if !init.contains(key) {
            match member_value(ms, key) {
                Some(v) => {
                    lemma_member_value_push(prioritized(init, ms), (key, v), k);
                },
                None => {},
            }
        }
    } else {
        assert(!order.contains(k));
    }
}

/// Every key of `prioritized` is named by `order`.
proof fn lemma_unnamed_of_prioritized(order: Seq<Seq<char>>, o2: Seq<Seq<char>>, ms: Seq<(Seq<char>, JsonView)>)
    requires
        forall|k: Seq<char>| o2.contains(k) ==> order.contains(k),
    ensures
        unnamed(order, prioritized(o2, ms)) == Seq::<(Seq<char>, JsonView)>::empty(),
    decreases o2.len(),
{
    if o2.len() > 0 {
        let init = o2.drop_last();
        assert forall|k: Seq<char>| init.contains(k) implies order.contains(k) by {
            let j = choose|j: int| 0 <= j < init.len() && init[j] == k;
            assert(o2[j] == k);
        }
        lemma_unnamed_of_prioritized(order, init, ms);
        let key = o2.last();
        assert(o2[o2.len() - 1] == key);
        if !init.contains(key) {
            match member_value(ms, key) {
                Some(v) => {
                    let rest = prioritized(init, ms);
                    assert(rest.push((key, v)).drop_last() =~= rest);
                },
                None => {},
            }
        }
    }
}

proof fn lemma_unnamed_concat(order: Seq<Seq<char>>, a: Seq<(Seq<char>, JsonView)>, b: Seq<(Seq<char>, JsonView)>)
    ensures
        unnamed(order, a + b) == unnamed(order, a) + unnamed(order, b),
    decreases b.len(),
{
    if b.len() == 0 {
        assert(a + b =~= a);
        assert(unnamed(order, a) + unnamed(order, b) =~= unnamed(order, a));
    } else {
        assert((a + b).drop_last() =~= a + b.drop_last());
        assert((a + b).last() == b.last());
        lemma_unnamed_concat(order, a, b.drop_last());
        let ub = unnamed(order, b.drop_last());
        if !order.contains(b.last().0) {
            assert(unnamed(order, a) + ub.push(b.last()) =~= (unnamed(order, a) + ub).push(b.last()));
        }
    }
}

proof fn lemma_unnamed_idempotent(order: Seq<Seq<char>>, ms: Seq<(Seq<char>, JsonView)>)
    ensures
        unnamed(order, unnamed(order, ms)) == unnamed(order, ms),
    decreases ms.len(),
{
    if ms.len() > 0 {
        lemma_unnamed_idempotent(order, ms.drop_last());
        let rest = unnamed(order, ms.drop_last());
        if !order.contains(ms.last().0) {
            assert(rest.push(ms.last()).drop_last() =~= rest);
        }
    }
}

/// Putting the named members first a second time changes nothing.
proof fn lemma_in_priority_order_idempotent(order: Seq<Seq<char>>, ms: Seq<(Seq<char>, JsonView)>)
    ensures
        in_priority_order(order, in_priority_order(order, ms)) == in_priority_order(order, ms),
{
    let p = prioritized(order, ms);
    let u = unnamed(order, ms);
    let all = p + u;
    assert forall|k: Seq<char>| order.contains(k) implies member_value(all, k) == member_value(ms, k) by {
        lemma_member_value_concat(p, u, k);
        lemma_member_value_prioritized(order, ms, k);
        lemma_member_value_unnamed(order, ms, k);
    }
    lemma_prioritized_same_named_values(order, ms, all);
    lemma_unnamed_concat(order, p, u);
    lemma_unnamed_of_prioritized(order, order, ms);
    lemma_unnamed_idempotent(order, ms);
    assert(Seq::<(Seq<char>, JsonView)>::empty() + u =~= u);
}

/// `prioritized` only reads the values of the named keys.
proof fn lemma_prioritized_same_named_values(order: Seq<Seq<char>>, a: Seq<(Seq<char>, JsonView)>, b: Seq<(Seq<char>, JsonView)>)
    requires
        forall|k: Seq<char>| order.contains(k) ==> member_value(b, k) == member_value(a, k),
    ensures
        prioritized(order, b) == prioritized(order, a),
    decreases order.len(),
{
    if order.len() > 0 {
        let init = order.drop_last();
        assert forall|k: Seq<char>| init.contains(k) implies member_value(b, k) == member_value(a, k) by {
            let j = choose|j: int| 0 <= j < init.len() && init[j] == k;
            assert(order[j] == k);
        }
        lemma_prioritized_same_named_values(init, a, b);
        assert(order[order.len() - 1] == order.last());
    }
}

proof fn lemma_member_value_found(ms: Seq<(Seq<char>, JsonView)>, k: Seq<char>)
    ensures
        member_value(ms, k) matches Some(x) ==> exists|i: int| 0 <= i < ms.len() && #[trigger] ms[i] == (k, x),
    decreases ms.len(),
{
    if ms.len() > 0 && ms[0].0 != k {
        lemma_member_value_found(ms.drop_first(), k);
        if let Some(x) = member_value(ms, k) {
            let i = choose|i: int| 0 <= i < ms.drop_first().len() && #[trigger] ms.drop_first()[i] == (k, x);
            assert(ms[i + 1] == (k, x));
        }
    } else if ms.len() > 0 {
        assert(ms[0] == (k, ms[0].1));
    }
}

/// Every member that `prioritized` picks is a member of the object.
proof fn lemma_prioritized_from(order: Seq<Seq<char>>, ms: Seq<(Seq<char>, JsonView)>)
    ensures
        forall|j: int|
            0 <= j < prioritized(order, ms).len() ==> exists|i: int|
                0 <= i < ms.len() && ms[i] == #[trigger] prioritized(order, ms)[j],
    decreases order.len(),
{
    if order.len() > 0 {
        let init = order.drop_last();
        let key = order.last();
        lemma_prioritized_from(init, ms);
        let rest = prioritized(init, ms);
        if !init.contains(key) {
            if let Some(v) = member_value(ms, key) {
                lemma_member_value_found(ms, key);
                let p = rest.push((key, v));
                assert forall|j: int| 0 <= j < p.len() implies exists|i: int|
                    0 <= i < ms.len() && ms[i] == #[trigger] p[j] by {
                    if j < rest.len() {
                        assert(p[j] == rest[j]);
                    } else {
                        assert(p[j] == (key, v));
                    }
                }
            }
        }
    }
}

/// Every member that `unnamed` keeps is a member of the object.
proof fn lemma_unnamed_from(order: Seq<Seq<char>>, ms: Seq<(Seq<char>, JsonView)>)
    ensures
        forall|j: int|
            0 <= j < unnamed(order, ms).len() ==> exists|i: int| 0 <= i < ms.len() && ms[i] == #[trigger] unnamed(order, ms)[j],
    decreases ms.len(),
{
    if ms.len() > 0 {
        let init = ms.drop_last();
        lemma_unnamed_from(order, init);
        let rest = unnamed(order, init);
        assert forall|j: int| 0 <= j < rest.len() implies exists|i: int| 0 <= i < ms.len() && ms[i] == #[trigger] rest[j] by {
            let i = choose|i: int| 0 <= i < init.len() && init[i] == rest[j];
            assert(ms[i] == init[i]);
        }
        if !order.contains(ms.last().0) {
            let u = rest.push(ms.last());
            assert forall|j: int| 0 <= j < u.len() implies exists|i: int| 0 <= i < ms.len() && ms[i] == #[trigger] u[j] by {
                if j < rest.len() {
                    assert(u[j] == rest[j]);
                } else {
                    assert(u[j] == ms[ms.len() - 1]);
                }
            }
        }
    }
}

proof fn lemma_nested_fixed(members: Seq<(Seq<char>, JsonView)>, order: Seq<Seq<char>>)
    requires
        forall|i: int| 0 <= i < members.len() ==> exports_sorted(#[trigger] members[i].1, order) == members[i].1,
    ensures
        nested_exports_sorted(members, order) == members,
    decreases members.len(),
{
    if members.len() > 0 {
        let init = members.drop_last();
        assert forall|i: int| 0 <= i < init.len() implies exports_sorted(#[trigger] init[i].1, order) == init[i].1 by {
            assert(init[i] == members[i]);
        }
        lemma_nested_fixed(init, order);
        assert(members[members.len() - 1] == members.last());
        assert(init.push(members.last()) =~= members);
    }
}

/// Sorting exports that are sorted already changes nothing.
pub proof fn law_sorting_exports_is_idempotent(v: JsonView, order: Seq<Seq<char>>)
    ensures
        exports_sorted(exports_sorted(v, order), order) == exports_sorted(v, order),
    decreases v,
{
    if let JsonView::Object(ms) = v {
        let n = nested_exports_sorted(ms, order);
        lemma_nested_exports_sorted(ms, order);
        let s = in_priority_order(order, n);
        lemma_prioritized_from(order, n);
        lemma_unnamed_from(order, n);
        let p = prioritized(order, n);
        let u = unnamed(order, n);
        assert forall|j: int| 0 <= j < s.len() implies exports_sorted(#[trigger] s[j].1, order) == s[j].1 by {
            let i = if j < p.len() {
                assert(s[j] == p[j]);
                choose|i: int| 0 <= i < n.len() && n[i] == p[j]
            } else {
                assert(s[j] == u[j - p.len()]);
                choose|i: int| 0 <= i < n.len() && n[i] == u[j - p.len()]
            };
            assert(n[i] == s[j]);
            assert(decreases_to!(v => ms));
            assert(decreases_to!(ms => ms[i]));
            assert(decreases_to!(ms[i] => ms[i].1));
            law_sorting_exports_is_idempotent(ms[i].1, order);
        }
        lemma_nested_fixed(s, order);
        lemma_in_priority_order_idempotent(order, n);
    }
}

/// Once exports that were not sorted are replaced by their sorted form,
/// there is nothing more to sort in them.
pub proof fn law_fixed_exports_stay_sorted(order: Seq<Seq<char>>, package: JsonView, sorted: JsonView)
    requires
        sorted_exports(order, package) == Some(sorted),
    ensures
        sorted_exports(order, with_at_pointer(package, "/exports"@, sorted)) is None,
{
    let exports = at_pointer(package, "/exports"@)->0;
    law_pointer_reads_back_what_was_set(package, "/exports"@, sorted);
    law_sorting_exports_is_idempotent(exports, order);
}

} // verus!
