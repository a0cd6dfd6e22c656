//! A least-recently-used cache as a sequence of entries, the most recently used one first.

use vstd::prelude::*;

verus! {

/// The value of `k`, where it is present.
pub open spec fn lru_lookup<K, V>(entries: Seq<(K, V)>, k: K) -> Option<V>
    decreases entries.len(),
{
    if entries.len() == 0 {
        None
    } else if entries[0].0 == k {
        Some(entries[0].1)
    } else {
        lru_lookup(entries.skip(1), k)
    }
}

/// The entries with another key than `k`, in order.
pub open spec fn lru_without<K, V>(entries: Seq<(K, V)>, k: K) -> Seq<(K, V)>
    decreases entries.len(),
{
    if entries.len() == 0 {
        entries
    } else if entries[0].0 == k {
        lru_without(entries.skip(1), k)
    } else {
        seq![entries[0]] + lru_without(entries.skip(1), k)
    }
}

/// The cache of `cap` entries after `k` is given `v`: that entry stands in front, and the last
/// one leaves where there is no room for it.
pub open spec fn lru_put<K, V>(entries: Seq<(K, V)>, cap: nat, k: K, v: V) -> Seq<(K, V)> {
    let rest = lru_without(entries, k);
    seq![(k, v)] + (if rest.len() < cap {
        rest
    } else {
        rest.drop_last()
    })
}

/// The cache after `k` is looked up: where it is present, its entry stands in front.
pub open spec fn lru_touch<K, V>(entries: Seq<(K, V)>, k: K) -> Seq<(K, V)> {
    match lru_lookup(entries, k) {
        Some(v) => seq![(k, v)] + lru_without(entries, k),
        None => entries,
    }
}

/// A cache with no key twice and no more than `cap` entries.
pub open spec fn lru_wf<K, V>(entries: Seq<(K, V)>, cap: nat) -> bool {
    &&& entries.len() <= cap
    &&& forall|i: int, j: int|
        0 <= i < j < entries.len() ==> (#[trigger] entries[i]).0 != (#[trigger] entries[j]).0
}

/// Taking a key out leaves each other key with its value, and of that key nothing.
pub proof fn lemma_lru_without<K, V>(entries: Seq<(K, V)>, k: K)
    ensures
        lru_without(entries, k).len() <= entries.len(),
        lru_lookup(entries, k) is Some ==> lru_without(entries, k).len() < entries.len(),
        lru_lookup(lru_without(entries, k), k) is None,
        forall|j: K| j != k ==> #[trigger] lru_lookup(lru_without(entries, k), j) == lru_lookup(
            entries,
            j,
        ),
        forall|i: int|
            0 <= i < lru_without(entries, k).len() ==> (#[trigger] lru_without(entries, k)[i]).0
                != k,
        forall|i: int|
            0 <= i < lru_without(entries, k).len() ==> entries.contains(
                #[trigger] lru_without(entries, k)[i],
            ),
    decreases entries.len(),
{
    if entries.len() > 0 {
        let t = entries.skip(1);
        lemma_lru_without(t, k);
        let w = lru_without(t, k);
        let r = lru_without(entries, k);
        assert forall|j: K| j != k implies #[trigger] lru_lookup(r, j) == lru_lookup(
            entries,
            j,
        ) by {
            assert(lru_lookup(w, j) == lru_lookup(t, j));
            if entries[0].0 != k {
                assert(r.skip(1) =~= w);
            }
        }
        if entries[0].0 != k {
            assert(r.skip(1) =~= w);
        }
        assert forall|i: int| 0 <= i < r.len() implies (#[trigger] r[i]).0 != k
            && entries.contains(r[i]) by {
            if entries[0].0 == k {
                assert(t.contains(w[i]));
                let q = choose|q: int| 0 <= q < t.len() && t[q] == w[i];
                assert(entries[q + 1] == r[i]);
            } else if i == 0 {
                assert(entries[0] == r[0]);
            } else {
                assert(r[i] == w[i - 1]);
                assert(t.contains(w[i - 1]));
                let q = choose|q: int| 0 <= q < t.len() && t[q] == w[i - 1];
                assert(entries[q + 1] == r[i]);
            }
        }
    }
}

/// Taking a key out of a cache without repeated keys leaves no key twice.
proof fn lemma_without_distinct<K, V>(entries: Seq<(K, V)>, k: K, cap: nat)
    requires
        lru_wf(entries, cap),
    ensures
        lru_wf(lru_without(entries, k), cap),
    decreases entries.len(),
{
    lemma_lru_without(entries, k);
    if entries.len() > 0 {
        let t = entries.skip(1);
        assert forall|i: int, j: int| 0 <= i < j < t.len() implies (#[trigger] t[i]).0 != (
        #[trigger] t[j]).0 by {
            assert(entries[i + 1].0 != entries[j + 1].0);
        }
        lemma_without_distinct(t, k, cap);
        lemma_lru_without(t, k);
        if entries[0].0 != k {
            let w = lru_without(t, k);
            let r = lru_without(entries, k);
            assert forall|i: int, j: int| 0 <= i < j < r.len() implies (#[trigger] r[i]).0 != (
            #[trigger] r[j]).0 by {
                if i > 0 {
                    assert(w[i - 1].0 != w[j - 1].0);
                } else {
                    assert(t.contains(w[j - 1]));
                    let q = choose|q: int| 0 <= q < t.len() && t[q] == w[j - 1];
                    assert(entries[0].0 != entries[q + 1].0);
                }
            }
        }
    }
}

/// Taking out a key that is absent changes nothing.
pub proof fn lemma_without_absent<K, V>(entries: Seq<(K, V)>, k: K)
    requires
        lru_lookup(entries, k) is None,
    ensures
        lru_without(entries, k) == entries,
    decreases entries.len(),
{
    if entries.len() > 0 {
        lemma_without_absent(entries.skip(1), k);
        assert(seq![entries[0]] + entries.skip(1) =~= entries);
    }
}

/// A key that stands in a cache is found.
pub proof fn lemma_standing_is_found<K, V>(entries: Seq<(K, V)>, p: int)
    requires
        0 <= p < entries.len(),
    ensures
        lru_lookup(entries, entries[p].0) is Some,
    decreases entries.len(),
{
    if p > 0 && entries[0].0 != entries[p].0 {
        assert(entries.skip(1)[p - 1] == entries[p]);
        lemma_standing_is_found(entries.skip(1), p - 1);
    }
}

/// A key that is found stands in the cache.
pub proof fn lemma_found_stands<K, V>(entries: Seq<(K, V)>, k: K) -> (p: int)
    requires
        lru_lookup(entries, k) is Some,
    ensures
        0 <= p < entries.len(),
        entries[p] == (k, lru_lookup(entries, k)->0),
    decreases entries.len(),
{
    if entries[0].0 == k {
        0
    } else {
        let q = lemma_found_stands(entries.skip(1), k);
        assert(entries.skip(1)[q] == entries[q + 1]);
        q + 1
    }
}

/// Putting a key that is absent makes the cache one longer, unless it is full, and brings in no
/// other key.
pub proof fn lemma_put_adds_one<K, V>(entries: Seq<(K, V)>, cap: nat, k: K, v: V)
    requires
        lru_wf(entries, cap),
        cap > 0,
    ensures
        lru_lookup(entries, k) is None ==> lru_put(entries, cap, k, v).len() == (if entries.len()
            < cap {
            entries.len() + 1
        } else {
            cap
        }),
        forall|j: K|
            j != k && lru_lookup(entries, j) is None ==> #[trigger] lru_lookup(
                lru_put(entries, cap, k, v),
                j,
            ) is None,
{
    lemma_lru_without(entries, k);
    if lru_lookup(entries, k) is None {
        lemma_without_absent(entries, k);
    }
    let r = lru_put(entries, cap, k, v);
    assert forall|j: K| j != k && lru_lookup(entries, j) is None implies #[trigger] lru_lookup(
        r,
        j,
    ) is None by {
        if lru_lookup(r, j) is Some {
            let p = lemma_found_stands(r, j);
            let rest = lru_without(entries, k);
            assert(r[p] == rest[p - 1]);
            assert(entries.contains(rest[p - 1]));
            let q = choose|q: int| 0 <= q < entries.len() && entries[q] == rest[p - 1];
            lemma_standing_is_found(entries, q);
        }
    }
}

/// Taking a key out keeps each other entry, with no entry in front of it that was not there.
pub proof fn lemma_without_keeps<K, V>(entries: Seq<(K, V)>, k: K, p: int) -> (q: int)
    requires
        0 <= p < entries.len(),
        entries[p].0 != k,
    ensures
        0 <= q <= p,
        q < lru_without(entries, k).len(),
        lru_without(entries, k)[q] == entries[p],
        forall|i: int|
            0 <= i < q ==> exists|j: int|
                0 <= j < p && #[trigger] entries[j] == #[trigger] lru_without(entries, k)[i],
    decreases entries.len(),
{
    let w = lru_without(entries, k);
    if p == 0 {
        0
    } else {
        let t = entries.skip(1);
        assert(t[p - 1] == entries[p]);
        let r = lemma_without_keeps(t, k, p - 1);
        let u = lru_without(t, k);
        let q = if entries[0].0 == k {
            r
        } else {
            r + 1
        };
        assert forall|i: int| 0 <= i < q implies exists|j: int|
            0 <= j < p && #[trigger] entries[j] == #[trigger] w[i] by {
            if entries[0].0 == k {
                let j = choose|j: int| 0 <= j < p - 1 && #[trigger] t[j] == #[trigger] u[i];
                assert(entries[j + 1] == w[i]);
            } else if i == 0 {
                assert(entries[0] == w[0]);
            } else {
                assert(w[i] == u[i - 1]);
                let j = choose|j: int| 0 <= j < p - 1 && #[trigger] t[j] == #[trigger] u[i - 1];
                assert(entries[j + 1] == w[i]);
            }
        }
        q
    }
}

/// Whether the entry of a key stands in a cache, with only certain other keys in front of it.
pub open spec fn stands_behind<K, V>(entries: Seq<(K, V)>, k: K, v: V, others: Set<K>) -> bool {
    exists|p: int|
        0 <= p < entries.len() && #[trigger] entries[p] == (k, v) && forall|i: int|
            0 <= i < p ==> others.contains((#[trigger] entries[i]).0)
}

/// The entry that was used last stands in front.
pub proof fn lemma_front_stands<K, V>(entries: Seq<(K, V)>, k: K, v: V, others: Set<K>)
    requires
        entries.len() > 0,
        entries[0] == (k, v),
    ensures
        stands_behind(entries, k, v, others),
{
}

/// An entry with only certain keys in front of it is found.
pub proof fn lemma_behind_is_found<K, V>(
    entries: Seq<(K, V)>,
    cap: nat,
    k: K,
    v: V,
    others: Set<K>,
)
    requires
        lru_wf(entries, cap),
        stands_behind(entries, k, v, others),
    ensures
        lru_lookup(entries, k) == Some(v),
{
    let p = choose|p: int|
        0 <= p < entries.len() && #[trigger] entries[p] == (k, v) && forall|i: int|
            0 <= i < p ==> others.contains((#[trigger] entries[i]).0);
    lemma_standing_is_found(entries, p);
    let q = lemma_found_stands(entries, k);
    if q < p {
        assert(entries[q].0 != entries[p].0);
    } else if p < q {
        assert(entries[p].0 != entries[q].0);
    }
}

/// Looking up another key leaves an entry with only the same keys, and that one, in front.
pub proof fn lemma_touch_keeps_behind<K, V>(
    entries: Seq<(K, V)>,
    k: K,
    v: V,
    other: K,
    others: Set<K>,
)
    requires
        stands_behind(entries, k, v, others),
        other != k,
        others.contains(other),
    ensures
        stands_behind(lru_touch(entries, other), k, v, others),
{
    let p = choose|p: int|
        0 <= p < entries.len() && #[trigger] entries[p] == (k, v) && forall|i: int|
            0 <= i < p ==> others.contains((#[trigger] entries[i]).0);
    if lru_lookup(entries, other) is Some {
        let q = lemma_without_keeps(entries, other, p);
        let w = lru_without(entries, other);
        let r = lru_touch(entries, other);
        assert(r[q + 1] == (k, v));
        assert forall|i: int| 0 <= i < q + 1 implies others.contains((#[trigger] r[i]).0) by {
            if i > 0 {
                assert(r[i] == w[i - 1]);
                let j = choose|j: int| 0 <= j < p && #[trigger] entries[j] == #[trigger] w[i - 1];
                assert(others.contains(entries[j].0));
            }
        }
    }
}

/// Distinct keys of a set, none of which is a certain one of it, are fewer than the set holds.
proof fn lemma_fewer_than_set<K, V>(front: Seq<(K, V)>, k: K, others: Set<K>)
    requires
        others.finite(),
        others.contains(k),
        forall|i: int|
            0 <= i < front.len() ==> others.contains((#[trigger] front[i]).0) && front[i].0 != k,
        forall|i: int, j: int|
            0 <= i < j < front.len() ==> (#[trigger] front[i]).0 != (#[trigger] front[j]).0,
    ensures
        front.len() < others.len(),
    decreases front.len(),
{
    if front.len() == 0 {
        if others.len() == 0 {
            assert(others =~= Set::empty());
        }
    } else {
        let t = front.drop_last();
        let x = front.last().0;
        assert(front[front.len() - 1].0 == x);
        let rest = others.remove(x);
        assert forall|i: int| 0 <= i < t.len() implies rest.contains((#[trigger] t[i]).0)
            && t[i].0 != k by {
            assert(t[i] == front[i]);
            assert(front[i].0 != front[front.len() - 1].0);
        }
        assert forall|i: int, j: int| 0 <= i < j < t.len() implies (#[trigger] t[i]).0 != (
        #[trigger] t[j]).0 by {
            assert(front[i].0 != front[j].0);
        }
        lemma_fewer_than_set(t, k, rest);
    }
}

/// Putting another key that is absent leaves an entry in place, with only the same keys and
/// that one in front, where there are fewer of these than entries.
pub proof fn lemma_put_keeps_behind<K, V>(
    entries: Seq<(K, V)>,
    cap: nat,
    k: K,
    v: V,
    other: K,
    value: V,
    others: Set<K>,
)
    requires
        lru_wf(entries, cap),
        stands_behind(entries, k, v, others),
        lru_lookup(entries, other) is None,
        other != k,
        others.contains(other),
        others.finite(),
        others.len() < cap,
    ensures
        stands_behind(lru_put(entries, cap, other, value), k, v, others),
{
    let p = choose|p: int|
        0 <= p < entries.len() && #[trigger] entries[p] == (k, v) && forall|i: int|
            0 <= i < p ==> others.contains((#[trigger] entries[i]).0);
    lemma_without_absent(entries, other);
    let front = entries.take(p);
    assert forall|i: int| 0 <= i < front.len() implies others.contains((#[trigger] front[i]).0)
        && front[i].0 != other by {
        assert(front[i] == entries[i]);
        lemma_standing_is_found(entries, i);
    }
    assert forall|i: int, j: int| 0 <= i < j < front.len() implies (#[trigger] front[i]).0 != (
    #[trigger] front[j]).0 by {
        assert(entries[i].0 != entries[j].0);
    }
    lemma_fewer_than_set(front, other, others);
    let r = lru_put(entries, cap, other, value);
    assert(r[p + 1] == entries[p]);
    assert forall|i: int| 0 <= i < p + 1 implies others.contains((#[trigger] r[i]).0) by {
        if i > 0 {
            assert(r[i] == entries[i - 1]);
        }
    }
}

/// What was put is found again; a full cache loses at most its last entry to it.
pub proof fn law_lru_put<K, V>(entries: Seq<(K, V)>, cap: nat, k: K, v: V)
    requires
        lru_wf(entries, cap),
        cap > 0,
    ensures
        lru_wf(lru_put(entries, cap, k, v), cap),
        lru_lookup(lru_put(entries, cap, k, v), k) == Some(v),
        lru_lookup(entries, k) is Some || entries.len() < cap ==> forall|j: K|
            j != k ==> #[trigger] lru_lookup(lru_put(entries, cap, k, v), j) == lru_lookup(
                entries,
                j,
            ),
{
    lemma_lru_without(entries, k);
    lemma_without_distinct(entries, k, cap);
    let rest = lru_without(entries, k);
    let kept = if rest.len() < cap {
        rest
    } else {
        rest.drop_last()
    };
    let r = lru_put(entries, cap, k, v);
    assert(r.skip(1) =~= kept);
    if lru_lookup(entries, k) is Some || entries.len() < cap {
        assert forall|j: K| j != k implies #[trigger] lru_lookup(r, j) == lru_lookup(
            entries,
            j,
        ) by {
            assert(lru_lookup(rest, j) == lru_lookup(entries, j));
        }
    }
    assert forall|i: int, j: int| 0 <= i < j < r.len() implies (#[trigger] r[i]).0 != (
    #[trigger] r[j]).0 by {
        if i > 0 {
            assert(rest[i - 1].0 != rest[j - 1].0);
        } else {
            assert(rest[j - 1].0 != k);
        }
    }
}

/// Looking a key up leaves every key with its value.
pub proof fn law_lru_touch<K, V>(entries: Seq<(K, V)>, cap: nat, k: K)
    requires
        lru_wf(entries, cap),
    ensures
        lru_wf(lru_touch(entries, k), cap),
        forall|j: K| #[trigger] lru_lookup(lru_touch(entries, k), j) == lru_lookup(entries, j),
{
    if let Some(v) = lru_lookup(entries, k) {
        lemma_lru_without(entries, k);
        lemma_without_distinct(entries, k, cap);
        let rest = lru_without(entries, k);
        let r = lru_touch(entries, k);
        assert(r.skip(1) =~= rest);
        assert forall|j: K| #[trigger] lru_lookup(r, j) == lru_lookup(entries, j) by {
            if j != k {
                assert(lru_lookup(rest, j) == lru_lookup(entries, j));
            }
        }
        assert forall|i: int, j: int| 0 <= i < j < r.len() implies (#[trigger] r[i]).0 != (
        #[trigger] r[j]).0 by {
            if i > 0 {
                assert(rest[i - 1].0 != rest[j - 1].0);
            } else {
                assert(rest[j - 1].0 != k);
            }
        }
    }
}

} // verus!
