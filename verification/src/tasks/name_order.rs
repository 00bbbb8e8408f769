//! Ordering lists by text keys: the order of `str` (character by character, by code), and a
//! stable insertion sort by precomputed keys.

use vstd::prelude::*;
use crate::text::views;

verus! {

/// `a` sorts before `b`: at the first place where they differ `a` has the smaller
/// character, or `a` is a proper prefix of `b`.
pub open spec fn text_lt(a: Seq<char>, b: Seq<char>) -> bool
    decreases a.len(),
{
    if b.len() == 0 {
        false
    } else if a.len() == 0 {
        true
    } else if a[0] != b[0] {
        a[0] < b[0]
    } else {
        text_lt(a.drop_first(), b.drop_first())
    }
}

/// No text sorts before itself.
pub proof fn lemma_text_lt_irreflexive(a: Seq<char>)
    ensures
        !text_lt(a, a),
    decreases a.len(),
{
    if a.len() > 0 {
        lemma_text_lt_irreflexive(a.drop_first());
    }
}

/// Sorting before is transitive.
pub proof fn lemma_text_lt_transitive(a: Seq<char>, b: Seq<char>, c: Seq<char>)
    requires
        text_lt(a, b),
        text_lt(b, c),
    ensures
        text_lt(a, c),
    decreases a.len(),
{
    if a.len() > 0 && b.len() > 0 && c.len() > 0 && a[0] == b[0] && b[0] == c[0] {
        lemma_text_lt_transitive(a.drop_first(), b.drop_first(), c.drop_first());
    }
}

/// Of two different texts, one sorts before the other, and not both ways.
pub proof fn lemma_text_lt_total(a: Seq<char>, b: Seq<char>)
    ensures
        a != b ==> text_lt(a, b) || text_lt(b, a),
        !(text_lt(a, b) && text_lt(b, a)),
    decreases a.len(),
{
    if a.len() > 0 && b.len() > 0 {
        if a[0] == b[0] {
            lemma_text_lt_total(a.drop_first(), b.drop_first());
            if a.drop_first() == b.drop_first() {
                assert(a =~= seq![a[0]] + a.drop_first());
                assert(b =~= seq![b[0]] + b.drop_first());
            }
        }
    } else if a.len() == 0 && b.len() == 0 {
        assert(a =~= b);
    }
}

/// `order` lists the places of `keys` from the smallest key to the largest, equal keys in
/// their places' order: each place once.
pub open spec fn stable_order(keys: Seq<Seq<char>>, order: Seq<int>) -> bool {
    &&& order.len() == keys.len()
    &&& forall|j: int| 0 <= j < order.len() ==> 0 <= #[trigger] order[j] < keys.len()
    &&& forall|a: int, b: int| 0 <= a < b < order.len() ==> #[trigger] order[a] != #[trigger] order[b]
    &&& forall|a: int, b: int| 0 <= a < b < order.len() ==> #[trigger] comes_before(keys, order[a], order[b])
}

/// Place `x` comes before place `y`: its key is smaller, or the keys are equal and it is the
/// earlier place.
pub open spec fn comes_before(keys: Seq<Seq<char>>, x: int, y: int) -> bool {
    text_lt(keys[x], keys[y]) || (keys[x] == keys[y] && x < y)
}

/// Whether `a` sorts before `b` (see `text_lt`).
pub fn text_less(a: &Vec<char>, b: &Vec<char>) -> (r: bool)
    ensures
        r == text_lt(a@, b@),
{
    let mut k: usize = 0;
    assert(a@.subrange(0, a@.len() as int) =~= a@);
    assert(b@.subrange(0, b@.len() as int) =~= b@);
    while k < a.len() && k < b.len() && a[k] == b[k]
        invariant
            k <= a@.len(),
            k <= b@.len(),
            text_lt(a@, b@) == text_lt(a@.subrange(k as int, a@.len() as int), b@.subrange(k as int, b@.len() as int)),
        decreases a@.len() - k,
    {
        let ghost sa = a@.subrange(k as int, a@.len() as int);
        let ghost sb = b@.subrange(k as int, b@.len() as int);
        assert(sa.drop_first() =~= a@.subrange(k + 1, a@.len() as int));
        assert(sb.drop_first() =~= b@.subrange(k + 1, b@.len() as int));
        k += 1;
    }
    if k >= b.len() {
        false
    } else if k >= a.len() {
        true
    } else {
        a[k] < b[k]
    }
}

/// The keys of the places, ordered as in `stable_order`, hold for the first `i` places.
spec fn prefix_sorted(keys: Seq<Seq<char>>, idx: Seq<int>, i: int) -> bool {
    &&& forall|j: int| 0 <= j < i ==> 0 <= #[trigger] idx[j] < i
    &&& forall|j: int| i <= j < idx.len() ==> #[trigger] idx[j] == j
    &&& forall|a: int, b: int| 0 <= a < b < i ==> #[trigger] idx[a] != #[trigger] idx[b]
    &&& forall|a: int, b: int| 0 <= a < b < i ==> #[trigger] comes_before(keys, idx[a], idx[b])
}

/// Sorts `items` by `keys`, the key of `items[j]` being `keys[j]`, keeping items with equal
/// keys in their order.
pub fn stable_sort_by_keys<T>(items: Vec<T>, keys: Vec<Vec<char>>) -> (r: Vec<T>)
    requires
        items@.len() == keys@.len(),
    ensures
        exists|order: Seq<int>| #[trigger] stable_order(views(keys@), order) && r@.len() == items@.len()
            && forall|j: int| 0 <= j < r@.len() ==> r@[j] == items@[order[j]],
{
    let ghost ks = views(keys@);
    let ghost original = items@;
    let n = items.len();
    let mut v = items;
    let mut kv = keys;
    let ghost mut idx: Seq<int> = Seq::new(n as nat, |j: int| j);
    let mut i: usize = 0;
    while i < n
        invariant
            n == original.len(),
            n == ks.len(),
            i <= n,
            v@.len() == n,
            kv@.len() == n,
            idx.len() == n,
            forall|j: int| 0 <= j < n ==> #[trigger] v@[j] == original[idx[j]],
            forall|j: int| 0 <= j < n ==> #[trigger] kv@[j]@ == ks[idx[j]],
            prefix_sorted(ks, idx, i as int),
        decreases n - i,
    {
        let ghost key = ks[i as int];
        assert(idx[i as int] == i);
        let mut p = i;
        while p > 0 && text_less(&kv[i], &kv[p - 1])
            invariant
                p <= i < n,
                kv@.len() == n,
                idx.len() == n,
                forall|j: int| 0 <= j < n ==> #[trigger] kv@[j]@ == ks[idx[j]],
                idx[i as int] == i,
                key == ks[i as int],
                forall|q: int| p <= q < i ==> text_lt(key, #[trigger] ks[idx[q]]),
            decreases p,
        {
            p -= 1;
        }
        proof {
            assert forall|q: int| 0 <= q < p implies !text_lt(key, #[trigger] ks[idx[q]]) by {
                if text_lt(key, ks[idx[q]]) {
                    let last = p - 1;
                    assert(!text_lt(key, ks[idx[last]]));
                    if q < last {
                        assert(comes_before(ks, idx[q], idx[last]));
                        if text_lt(ks[idx[q]], ks[idx[last]]) {
                            lemma_text_lt_transitive(key, ks[idx[q]], ks[idx[last]]);
                        }
                    }
                }
            }
        }
        let item = v.remove(i);
        v.insert(p, item);
        let key_chars = kv.remove(i);
        kv.insert(p, key_chars);
        let ghost before = idx;
        proof {
            idx = before.remove(i as int).insert(p as int, i as int);
            assert forall|j: int| 0 <= j < n implies #[trigger] v@[j] == original[idx[j]] by {
                if j < p {
                } else if j == p {
                } else if j <= i {
                    assert(idx[j] == before[j - 1]);
                } else {
                    assert(idx[j] == before[j]);
                }
            }
            assert forall|j: int| 0 <= j < n implies #[trigger] kv@[j]@ == ks[idx[j]] by {
                if j < p {
                } else if j == p {
                } else if j <= i {
                    assert(idx[j] == before[j - 1]);
                } else {
                    assert(idx[j] == before[j]);
                }
            }
            assert forall|j: int| 0 <= j < i + 1 implies 0 <= #[trigger] idx[j] < i + 1 by {
                if j < p {
                } else if j == p {
                } else {
                    assert(idx[j] == before[j - 1]);
                }
            }
            assert forall|j: int| i + 1 <= j < idx.len() implies #[trigger] idx[j] == j by {
                assert(idx[j] == before[j]);
            }
            assert forall|a: int, b: int| 0 <= a < b < i + 1 implies #[trigger] idx[a] != #[trigger] idx[b] by {
                let oa = if a < p { a } else if a == p { -1 } else { a - 1 };
                let ob = if b < p { b } else if b == p { -1 } else { b - 1 };
                if a != p && b != p {
                    assert(idx[a] == before[oa] && idx[b] == before[ob]);
                    assert(before[oa] != before[ob]);
                } else if a == p {
                    assert(idx[b] == before[ob] && before[ob] < i);
                } else {
                    assert(idx[a] == before[oa] && before[oa] < i);
                }
            }
            assert forall|a: int, b: int| 0 <= a < b < i + 1 implies #[trigger] comes_before(ks, idx[a], idx[b]) by {
                let oa = if a < p { a } else if a == p { -1 } else { a - 1 };
                let ob = if b < p { b } else if b == p { -1 } else { b - 1 };
                if a != p && b != p {
                    assert(idx[a] == before[oa] && idx[b] == before[ob]);
                    assert(comes_before(ks, before[oa], before[ob]));
                } else if a == p {
                    assert(idx[a] == i && idx[b] == before[ob]);
                    assert(text_lt(key, ks[before[ob]]));
                } else {
                    assert(idx[b] == i && idx[a] == before[oa]);
                    assert(!text_lt(key, ks[before[oa]]));
                    lemma_text_lt_total(key, ks[before[oa]]);
                    assert(before[oa] < i);
                }
            }
        }
        i += 1;
    }
    proof {
        assert(stable_order(ks, idx));
    }
    v
}

} // verus!
