//! Ordering of catalogue listings: by label (byte-wise, as `String`
//! comparison orders), then by the tier read from the item id. The order
//! is stable: entries with equal keys keep their relative order.
use vstd::prelude::*;
use vstd::seq_lib::*;
use vstd::string::*;
use vstd::utf8::*;
use std::collections::VecDeque;
use crate::naming::{tier, tier_of};
use crate::text::{bytes_eq, bytes_lt, lemma_lex_lt_irreflexive, lemma_lex_lt_total, lemma_lex_lt_transitive, lex_lt};

verus! {

/// A catalogue entry that listings order: it has a label and an item id.
pub trait Listed: Sized {
    spec fn label_view(&self) -> Seq<char>;

    spec fn item_id_view(&self) -> Seq<char>;

    fn label_text(&self) -> (r: &str)
        ensures
            r@ == self.label_view(),
    ;

    fn item_id_text(&self) -> (r: &str)
        ensures
            r@ == self.item_id_view(),
    ;
}

/// The key a listing is ordered by: the label's UTF-8 bytes and the tier.
pub open spec fn listing_key<T: Listed>(e: T) -> (Seq<u8>, u8) {
    (encode_utf8(e.label_view()), tier_of(encode_utf8(e.item_id_view())))
}

/// Strict order of keys: by label bytes, then by tier.
pub open spec fn key_lt(a: (Seq<u8>, u8), b: (Seq<u8>, u8)) -> bool {
    lex_lt(a.0, b.0) || (a.0 == b.0 && a.1 < b.1)
}

/// `a` comes no later than `b`.
pub open spec fn key_le(a: (Seq<u8>, u8), b: (Seq<u8>, u8)) -> bool {
    !key_lt(b, a)
}

/// Every entry's key is at most the key of every later entry.
pub open spec fn sorted_by_listing<T: Listed>(s: Seq<T>) -> bool {
    forall|i: int, j: int|
        0 <= i < j < s.len() ==> key_le(#[trigger] listing_key(s[i]), #[trigger] listing_key(s[j]))
}

/// The predicate "has key `k`".
pub open spec fn has_key<T: Listed>(k: (Seq<u8>, u8)) -> spec_fn(T) -> bool {
    |e: T| listing_key(e) == k
}

/// The entries of `s` with key `k`, in their order in `s`.
pub open spec fn with_key<T: Listed>(s: Seq<T>, k: (Seq<u8>, u8)) -> Seq<T> {
    s.filter(has_key(k))
}

/// Keys are strictly ordered: irreflexive.
pub proof fn lemma_key_lt_irreflexive(a: (Seq<u8>, u8))
    ensures
        !key_lt(a, a),
{
    lemma_lex_lt_irreflexive(a.0);
}

/// Keys are strictly ordered: transitive.
pub proof fn lemma_key_lt_transitive(a: (Seq<u8>, u8), b: (Seq<u8>, u8), c: (Seq<u8>, u8))
    requires
        key_lt(a, b),
        key_lt(b, c),
    ensures
        key_lt(a, c),
{
    if lex_lt(a.0, b.0) && lex_lt(b.0, c.0) {
        lemma_lex_lt_transitive(a.0, b.0, c.0);
    }
}

/// Keys are strictly ordered: any two distinct keys are comparable.
pub proof fn lemma_key_lt_total(a: (Seq<u8>, u8), b: (Seq<u8>, u8))
    ensures
        a == b || key_lt(a, b) || key_lt(b, a),
{
    lemma_lex_lt_total(a.0, b.0);
}

proof fn lemma_key_le_transitive(a: (Seq<u8>, u8), b: (Seq<u8>, u8), c: (Seq<u8>, u8))
    requires
        key_le(a, b),
        key_le(b, c),
    ensures
        key_le(a, c),
{
    lemma_key_lt_total(a, b);
    lemma_key_lt_total(b, c);
    if key_lt(c, a) {
        if a == b {
            assert(key_lt(c, b));
        } else if b == c {
            assert(key_lt(b, a));
        } else {
            lemma_key_lt_transitive(a, b, c);
            lemma_key_lt_transitive(c, a, c);
            lemma_key_lt_irreflexive(c);
        }
    }
}

proof fn lemma_key_lt_asymmetric(a: (Seq<u8>, u8), b: (Seq<u8>, u8))
    requires
        key_lt(a, b),
    ensures
        key_le(a, b),
{
    if key_lt(b, a) {
        lemma_key_lt_transitive(a, b, a);
        lemma_key_lt_irreflexive(a);
    }
}

proof fn lemma_key_le_antisymmetric(a: (Seq<u8>, u8), b: (Seq<u8>, u8))
    requires
        key_le(a, b),
        key_le(b, a),
    ensures
        a == b,
{
    lemma_key_lt_total(a, b);
}

/// Some entry of a sorted non-empty listing has key `k` only if `k` is at
/// most the key of its last entry.
proof fn lemma_key_at_most_last<T: Listed>(t: Seq<T>, k: (Seq<u8>, u8))
    requires
        sorted_by_listing(t),
        t.len() > 0,
        with_key(t, k).len() > 0,
    ensures
        key_le(k, listing_key(t.last())),
{
    let x = with_key(t, k)[0];
    t.lemma_filter_pred(has_key(k), 0);
    assert(with_key(t, k).contains(x));
    t.lemma_filter_contains_rev(has_key(k), x);
    let idx = choose|idx: int| 0 <= idx < t.len() && t[idx] == x;
    if idx < t.len() - 1 {
        assert(key_le(listing_key(t[idx]), listing_key(t[t.len() - 1])));
    } else {
        lemma_key_lt_irreflexive(k);
    }
}

/// Law: a listing order is fully determined. Two sorted listings with the
/// same entries for every key, in the same order, are equal; so ordering
/// an already ordered listing changes nothing.
pub proof fn lemma_sorted_listing_unique<T: Listed>(s: Seq<T>, t: Seq<T>)
    requires
        sorted_by_listing(s),
        sorted_by_listing(t),
        forall|k: (Seq<u8>, u8)| #[trigger] with_key(s, k) == with_key(t, k),
    ensures
        s == t,
    decreases s.len(),
{
    broadcast use Seq::lemma_filter_push;

    if s.len() == 0 || t.len() == 0 {
        if s.len() > 0 {
            assert(s =~= s.drop_last().push(s.last()));
            assert(with_key(s, listing_key(s.last())).len() > 0);
            assert(with_key(t, listing_key(s.last())) == with_key(t, listing_key(s.last())));
            lemma_filter_none(t, listing_key(s.last()));
        } else if t.len() > 0 {
            assert(t =~= t.drop_last().push(t.last()));
            assert(with_key(t, listing_key(t.last())).len() > 0);
            lemma_filter_none(s, listing_key(t.last()));
            assert(with_key(s, listing_key(t.last())) == with_key(t, listing_key(t.last())));
        } else {
            assert(s =~= t);
        }
    } else {
        let a = s.last();
        let b = t.last();
        let s0 = s.drop_last();
        let t0 = t.drop_last();
        assert(s =~= s0.push(a));
        assert(t =~= t0.push(b));
        let ka = listing_key(a);
        let kb = listing_key(b);
        assert(with_key(s, ka) == with_key(s0, ka).push(a));
        assert(with_key(t, kb) == with_key(t0, kb).push(b));
        assert(with_key(t, ka) == with_key(s, ka));
        assert(with_key(s, kb) == with_key(t, kb));
        lemma_key_at_most_last(t, ka);
        lemma_key_at_most_last(s, kb);
        lemma_key_le_antisymmetric(ka, kb);
        assert(with_key(t, ka) == with_key(t0, ka).push(b));
        assert(with_key(s, ka).last() == a);
        assert(with_key(t, ka).last() == b);
        assert(a == b);
        assert forall|i: int, j: int| 0 <= i < j < s0.len() implies key_le(
            #[trigger] listing_key(s0[i]),
            #[trigger] listing_key(s0[j]),
        ) by {
            assert(s0[i] == s[i] && s0[j] == s[j]);
        }
        assert forall|i: int, j: int| 0 <= i < j < t0.len() implies key_le(
            #[trigger] listing_key(t0[i]),
            #[trigger] listing_key(t0[j]),
        ) by {
            assert(t0[i] == t[i] && t0[j] == t[j]);
        }
        assert forall|k: (Seq<u8>, u8)| #[trigger] with_key(s0, k) == with_key(t0, k) by {
            assert(with_key(s, k) == with_key(t, k));
            if k == ka {
                assert(with_key(s0, k) =~= with_key(s, k).drop_last());
                assert(with_key(t0, k) =~= with_key(t, k).drop_last());
            }
        }
        lemma_sorted_listing_unique(s0, t0);
    }
}

/// Whether entry `a` is ordered strictly before entry `b`.
pub fn listing_lt<T: Listed>(a: &T, b: &T) -> (r: bool)
    ensures
        r == key_lt(listing_key(*a), listing_key(*b)),
{
    let la = a.label_text().as_bytes();
    let lb = b.label_text().as_bytes();
    if bytes_lt(la, lb) {
        true
    } else if bytes_eq(la, lb) {
        tier(a.item_id_text()) < tier(b.item_id_text())
    } else {
        false
    }
}

proof fn lemma_filter_none<T: Listed>(s: Seq<T>, k: (Seq<u8>, u8))
    requires
        forall|j: int| 0 <= j < s.len() ==> listing_key(#[trigger] s[j]) != k,
    ensures
        with_key(s, k) == Seq::<T>::empty(),
{
    assert(s.all(|e: T| !has_key(k)(e))) by {
        assert forall|j: int| 0 <= j < s.len() implies !has_key(k)(#[trigger] s[j]) by {}
    }
    s.lemma_all_neg_filter_empty(has_key(k));
}

/// Every entry of `a` comes no later than every entry of `b`.
pub open spec fn all_le<T: Listed>(a: Seq<T>, b: Seq<T>) -> bool {
    forall|i: int, j: int|
        0 <= i < a.len() && 0 <= j < b.len() ==> key_le(
            #[trigger] listing_key(a[i]),
            #[trigger] listing_key(b[j]),
        )
}

/// Merges two ordered listings into one, taking from `left` first among
/// entries with equal keys.
fn merge<T: Listed>(left: VecDeque<T>, right: VecDeque<T>) -> (out: VecDeque<T>)
    requires
        sorted_by_listing(left@),
        sorted_by_listing(right@),
    ensures
        sorted_by_listing(out@),
        forall|k: (Seq<u8>, u8)| #[trigger]
            with_key(out@, k) == with_key(left@, k) + with_key(right@, k),
        out@.to_multiset() == left@.to_multiset().add(right@.to_multiset()),
{
    broadcast use Seq::lemma_filter_push, Seq::lemma_filter_prepend, lemma_multiset_commutative;
    broadcast use vstd::multiset::group_multiset_axioms, group_to_multiset_ensures;

    let ghost l0 = left@;
    let ghost r0 = right@;
    let mut out: VecDeque<T> = VecDeque::new();
    let mut l = left;
    let mut r = right;
    proof {
        assert forall|k: (Seq<u8>, u8)| #[trigger]
            with_key(out@, k) + with_key(l@, k) + with_key(r@, k) == with_key(l0, k) + with_key(
                r0,
                k,
            ) by {
            lemma_filter_none(out@, k);
            assert(with_key(out@, k) + with_key(l@, k) =~= with_key(l@, k));
        }
        assert(out@.to_multiset().add(l@.to_multiset()).add(r@.to_multiset()) =~= l0.to_multiset().add(
            r0.to_multiset(),
        ));
    }
    while l.len() > 0 || r.len() > 0
        invariant
            sorted_by_listing(out@),
            sorted_by_listing(l@),
            sorted_by_listing(r@),
            all_le(out@, l@),
            all_le(out@, r@),
            forall|k: (Seq<u8>, u8)| #[trigger]
                with_key(out@, k) + with_key(l@, k) + with_key(r@, k) == with_key(l0, k) + with_key(
                    r0,
                    k,
                ),
            out@.to_multiset().add(l@.to_multiset()).add(r@.to_multiset()) == l0.to_multiset().add(
                r0.to_multiset(),
            ),
        decreases l@.len() + r@.len(),
    {
        let ghost o1 = out@;
        let ghost l1 = l@;
        let ghost r1 = r@;
        let take_right = l.len() == 0 || (r.len() > 0 && listing_lt(&r[0], &l[0]));
        if take_right {
            let x = r.pop_front().unwrap();
            proof {
                assert(r1 =~= seq![x] + r@);
                if l1.len() > 0 {
                    assert forall|j: int| 0 <= j < l1.len() implies key_lt(
                        listing_key(x),
                        listing_key(#[trigger] l1[j]),
                    ) by {
                        if j > 0 {
                            lemma_lt_le_transitive(listing_key(x), listing_key(l1[0]), listing_key(l1[j]));
                        }
                    }
                }
                lemma_take_keeps_merge(o1, l1, r@, x, r1);
            }
            out.push_back(x);
        } else {
            let x = l.pop_front().unwrap();
            proof {
                assert(l1 =~= seq![x] + l@);
                if r1.len() > 0 {
                    lemma_key_lt_total(listing_key(r1[0]), listing_key(x));
                    assert forall|j: int| 0 <= j < r1.len() implies key_le(
                        listing_key(x),
                        listing_key(#[trigger] r1[j]),
                    ) by {
                        if j > 0 {
                            lemma_key_le_transitive(listing_key(x), listing_key(r1[0]), listing_key(r1[j]));
                        }
                    }
                }
                lemma_take_left_keeps_merge(o1, l@, r1, x, l1);
            }
            out.push_back(x);
        }
    }
    proof {
        assert forall|k: (Seq<u8>, u8)| #[trigger]
            with_key(out@, k) == with_key(l0, k) + with_key(r0, k) by {
            lemma_filter_none(l@, k);
            lemma_filter_none(r@, k);
            assert(with_key(out@, k) + with_key(l@, k) + with_key(r@, k) =~= with_key(out@, k));
        }
        assert(out@.to_multiset().add(l@.to_multiset()).add(r@.to_multiset()) =~= out@.to_multiset());
    }
    out
}

proof fn lemma_lt_le_transitive(a: (Seq<u8>, u8), b: (Seq<u8>, u8), c: (Seq<u8>, u8))
    requires
        key_lt(a, b),
        key_le(b, c),
    ensures
        key_lt(a, c),
{
    lemma_key_lt_total(b, c);
    if b != c {
        lemma_key_lt_transitive(a, b, c);
    }
}

/// Taking the first entry `x` of the right listing, when it comes strictly
/// before every entry of the left one, keeps the merge invariant.
proof fn lemma_take_keeps_merge<T: Listed>(out: Seq<T>, l: Seq<T>, r: Seq<T>, x: T, r1: Seq<T>)
    requires
        r1 == seq![x] + r,
        sorted_by_listing(out),
        sorted_by_listing(r1),
        all_le(out, l),
        all_le(out, r1),
        forall|j: int| 0 <= j < l.len() ==> key_lt(listing_key(x), listing_key(#[trigger] l[j])),
    ensures
        sorted_by_listing(out.push(x)),
        sorted_by_listing(r),
        all_le(out.push(x), l),
        all_le(out.push(x), r),
        forall|k: (Seq<u8>, u8)| #[trigger]
            with_key(out.push(x), k) + with_key(l, k) + with_key(r, k) == with_key(out, k) + with_key(
                l,
                k,
            ) + with_key(r1, k),
        out.push(x).to_multiset().add(l.to_multiset()).add(r.to_multiset()) == out.to_multiset().add(
            l.to_multiset(),
        ).add(r1.to_multiset()),
{
    broadcast use Seq::lemma_filter_push, Seq::lemma_filter_prepend, lemma_multiset_commutative;
    broadcast use vstd::multiset::group_multiset_axioms, group_to_multiset_ensures;

    let o = out.push(x);
    assert forall|i: int, j: int| 0 <= i < j < o.len() implies key_le(
        #[trigger] listing_key(o[i]),
        #[trigger] listing_key(o[j]),
    ) by {
        if j == out.len() {
            assert(r1[0] == x);
        }
    }
    assert forall|i: int, j: int| 0 <= i < j < r.len() implies key_le(
        #[trigger] listing_key(r[i]),
        #[trigger] listing_key(r[j]),
    ) by {
        assert(r[i] == r1[i + 1] && r[j] == r1[j + 1]);
    }
    assert forall|i: int, j: int| 0 <= i < o.len() && 0 <= j < l.len() implies key_le(
        #[trigger] listing_key(o[i]),
        #[trigger] listing_key(l[j]),
    ) by {
        if i == out.len() {
            lemma_key_lt_asymmetric(listing_key(x), listing_key(l[j]));
        }
    }
    assert forall|i: int, j: int| 0 <= i < o.len() && 0 <= j < r.len() implies key_le(
        #[trigger] listing_key(o[i]),
        #[trigger] listing_key(r[j]),
    ) by {
        assert(r[j] == r1[j + 1]);
        if i == out.len() {
            assert(r1[0] == x);
        }
    }
    assert forall|k: (Seq<u8>, u8)| #[trigger]
        with_key(o, k) + with_key(l, k) + with_key(r, k) == with_key(out, k) + with_key(l, k)
            + with_key(r1, k) by {
        if listing_key(x) == k {
            assert forall|j: int| 0 <= j < l.len() implies listing_key(#[trigger] l[j]) != k by {
                lemma_key_lt_irreflexive(k);
            }
            lemma_filter_none(l, k);
            assert(with_key(o, k) + with_key(l, k) + with_key(r, k) =~= with_key(out, k) + with_key(
                l,
                k,
            ) + with_key(r1, k));
        } else {
            assert(with_key(o, k) + with_key(l, k) + with_key(r, k) =~= with_key(out, k) + with_key(
                l,
                k,
            ) + with_key(r1, k));
        }
    }
    assert(o.to_multiset().add(l.to_multiset()).add(r.to_multiset()) =~= out.to_multiset().add(
        l.to_multiset(),
    ).add(r1.to_multiset()));
}

/// Taking the first entry `x` of the left listing, when it comes no later
/// than every entry of the right one, keeps the merge invariant.
proof fn lemma_take_left_keeps_merge<T: Listed>(out: Seq<T>, l: Seq<T>, r: Seq<T>, x: T, l1: Seq<T>)
    requires
        l1 == seq![x] + l,
        sorted_by_listing(out),
        sorted_by_listing(l1),
        all_le(out, l1),
        all_le(out, r),
        forall|j: int| 0 <= j < r.len() ==> key_le(listing_key(x), listing_key(#[trigger] r[j])),
    ensures
        sorted_by_listing(out.push(x)),
        sorted_by_listing(l),
        all_le(out.push(x), l),
        all_le(out.push(x), r),
        forall|k: (Seq<u8>, u8)| #[trigger]
            with_key(out.push(x), k) + with_key(l, k) + with_key(r, k) == with_key(out, k) + with_key(
                l1,
                k,
            ) + with_key(r, k),
        out.push(x).to_multiset().add(l.to_multiset()).add(r.to_multiset()) == out.to_multiset().add(
            l1.to_multiset(),
        ).add(r.to_multiset()),
{
    broadcast use Seq::lemma_filter_push, Seq::lemma_filter_prepend, lemma_multiset_commutative;
    broadcast use vstd::multiset::group_multiset_axioms, group_to_multiset_ensures;

    let o = out.push(x);
    assert forall|i: int, j: int| 0 <= i < j < o.len() implies key_le(
        #[trigger] listing_key(o[i]),
        #[trigger] listing_key(o[j]),
    ) by {
        if j == out.len() {
            assert(l1[0] == x);
        }
    }
    assert forall|i: int, j: int| 0 <= i < j < l.len() implies key_le(
        #[trigger] listing_key(l[i]),
        #[trigger] listing_key(l[j]),
    ) by {
        assert(l[i] == l1[i + 1] && l[j] == l1[j + 1]);
    }
    assert forall|i: int, j: int| 0 <= i < o.len() && 0 <= j < l.len() implies key_le(
        #[trigger] listing_key(o[i]),
        #[trigger] listing_key(l[j]),
    ) by {
        assert(l[j] == l1[j + 1]);
        if i == out.len() {
            assert(l1[0] == x);
        }
    }
    assert forall|i: int, j: int| 0 <= i < o.len() && 0 <= j < r.len() implies key_le(
        #[trigger] listing_key(o[i]),
        #[trigger] listing_key(r[j]),
    ) by {
    }
    assert forall|k: (Seq<u8>, u8)| #[trigger]
        with_key(o, k) + with_key(l, k) + with_key(r, k) == with_key(out, k) + with_key(l1, k)
            + with_key(r, k) by {
        assert(with_key(o, k) + with_key(l, k) + with_key(r, k) =~= with_key(out, k) + with_key(
            l1,
            k,
        ) + with_key(r, k));
    }
    assert(o.to_multiset().add(l.to_multiset()).add(r.to_multiset()) =~= out.to_multiset().add(
        l1.to_multiset(),
    ).add(r.to_multiset()));
}

/// Orders a queue of entries by merging its ordered halves.
fn merge_sort<T: Listed>(entries: VecDeque<T>) -> (out: VecDeque<T>)
    ensures
        sorted_by_listing(out@),
        forall|k: (Seq<u8>, u8)| #[trigger] with_key(out@, k) == with_key(entries@, k),
        out@.to_multiset() == entries@.to_multiset(),
    decreases entries@.len(),
{
    if entries.len() <= 1 {
        return entries;
    }
    let ghost all = entries@;
    let mut left = entries;
    let mid = left.len() / 2;
    let right = left.split_off(mid);
    proof {
        assert(all =~= left@ + right@);
    }
    let left = merge_sort(left);
    let right = merge_sort(right);
    let out = merge(left, right);
    proof {
        broadcast use Seq::filter_distributes_over_add, lemma_multiset_commutative;

        assert(all.to_multiset() =~= left@.to_multiset().add(right@.to_multiset()));
    }
    out
}

/// Orders listing entries by label, then tier, keeping the relative order
/// of entries with equal keys.
pub fn sort_listing<T: Listed>(entries: &mut Vec<T>)
    ensures
        sorted_by_listing(final(entries)@),
        forall|k: (Seq<u8>, u8)| #[trigger]
            with_key(final(entries)@, k) == with_key(old(entries)@, k),
        final(entries)@.to_multiset() == old(entries)@.to_multiset(),
{
    let ghost orig = entries@;
    let mut queue: VecDeque<T> = VecDeque::new();
    while entries.len() > 0
        invariant
            entries@.len() <= orig.len(),
            entries@ == orig.take(entries@.len() as int),
            queue@ == orig.skip(entries@.len() as int),
        decreases entries@.len(),
    {
        let ghost n = entries@.len() as int;
        let x = entries.pop().unwrap();
        queue.push_front(x);
        assert(queue@ =~= orig.skip(n - 1));
        assert(entries@ =~= orig.take(n - 1));
    }
    assert(queue@ =~= orig);
    let mut sorted = merge_sort(queue);
    let ghost s = sorted@;
    while sorted.len() > 0
        invariant
            entries@ + sorted@ == s,
        decreases sorted@.len(),
    {
        let x = sorted.pop_front().unwrap();
        entries.push(x);
    }
    assert(entries@ =~= s);
}

} // verus!
