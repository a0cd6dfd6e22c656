//! The order of texts by their code points, and sorted lists without repetition.

use crate::text::{chars_of, code_point, same, views};
use vstd::prelude::*;

verus! {

/// Whether `a` comes before `b` when texts are compared character by character.
///
/// UTF-8 keeps the order of code points, so this is the order of the encoded bytes too.
pub open spec fn before(a: Seq<char>, b: Seq<char>) -> bool
    decreases a.len(),
{
    if b.len() == 0 {
        false
    } else if a.len() == 0 {
        true
    } else if a[0] == b[0] {
        before(a.skip(1), b.skip(1))
    } else {
        (a[0] as int) < (b[0] as int)
    }
}

/// The list with each text before every later one; no text occurs twice in it.
pub open spec fn strictly_sorted(s: Seq<Seq<char>>) -> bool {
    forall|i: int, j: int| 0 <= i < j < s.len() ==> before(#[trigger] s[i], #[trigger] s[j])
}

/// `x` put in front of the first entry that is equal to it or comes after it, unless equal.
pub open spec fn insert_in_order(s: Seq<Seq<char>>, x: Seq<char>) -> Seq<Seq<char>>
    decreases s.len(),
{
    if s.len() == 0 {
        seq![x]
    } else if s[0] == x {
        s
    } else if before(x, s[0]) {
        seq![x] + s
    } else {
        seq![s[0]] + insert_in_order(s.skip(1), x)
    }
}

/// The order is transitive.
pub proof fn lemma_before_transitive(a: Seq<char>, b: Seq<char>, c: Seq<char>)
    requires
        before(a, b),
        before(b, c),
    ensures
        before(a, c),
    decreases a.len(),
{
    if a.len() > 0 && a[0] == b[0] && b[0] == c[0] {
        lemma_before_transitive(a.skip(1), b.skip(1), c.skip(1));
    }
}

/// No text comes before itself.
pub proof fn lemma_before_irreflexive(a: Seq<char>)
    ensures
        !before(a, a),
    decreases a.len(),
{
    if a.len() > 0 {
        lemma_before_irreflexive(a.skip(1));
    }
}

/// Of two different texts one comes before the other.
pub proof fn lemma_before_total(a: Seq<char>, b: Seq<char>)
    requires
        a != b,
    ensures
        before(a, b) || before(b, a),
    decreases a.len(),
{
    if a.len() > 0 && b.len() > 0 && a[0] == b[0] {
        if a.skip(1) == b.skip(1) {
            assert(a =~= seq![a[0]] + a.skip(1));
            assert(b =~= seq![b[0]] + b.skip(1));
        }
        lemma_before_total(a.skip(1), b.skip(1));
    } else if a.len() == 0 && b.len() == 0 {
        assert(a =~= b);
    }
}

/// Inserting in order keeps a sorted list sorted and adds just that text.
pub proof fn lemma_insert_in_order(s: Seq<Seq<char>>, x: Seq<char>)
    requires
        strictly_sorted(s),
    ensures
        strictly_sorted(insert_in_order(s, x)),
        forall|y: Seq<char>| #[trigger]
            insert_in_order(s, x).contains(y) <==> s.contains(y) || y == x,
        insert_in_order(s, x).len() <= s.len() + 1,
    decreases s.len(),
{
    let r = insert_in_order(s, x);
    if s.len() == 0 {
        assert(r[0] == x);
    } else if s[0] == x {
        assert(s.contains(x));
    } else if before(x, s[0]) {
        assert forall|i: int, j: int| 0 <= i < j < r.len() implies before(
            #[trigger] r[i],
            #[trigger] r[j],
        ) by {
            if i == 0 && j > 1 {
                assert(before(s[0], s[j - 1]));
                lemma_before_transitive(x, s[0], s[j - 1]);
            }
        }
        assert forall|y: Seq<char>| #[trigger] r.contains(y) <==> s.contains(y) || y == x by {
            if y == x {
                assert(r[0] == y);
            } else if s.contains(y) {
                let i = choose|i: int| 0 <= i < s.len() && s[i] == y;
                assert(r[i + 1] == y);
            } else if r.contains(y) {
                let i = choose|i: int| 0 <= i < r.len() && r[i] == y;
                assert(s[i - 1] == y);
            }
        }
    } else {
        let t = s.skip(1);
        assert forall|i: int, j: int| 0 <= i < j < t.len() implies before(
            #[trigger] t[i],
            #[trigger] t[j],
        ) by {
            assert(before(s[i + 1], s[j + 1]));
        }
        lemma_insert_in_order(t, x);
        let q = insert_in_order(t, x);
        lemma_before_total(s[0], x);
        assert forall|i: int, j: int| 0 <= i < j < r.len() implies before(
            #[trigger] r[i],
            #[trigger] r[j],
        ) by {
            if i > 0 {
                assert(before(q[i - 1], q[j - 1]));
            } else {
                assert(q.contains(q[j - 1]));
                if q[j - 1] != x {
                    let k = choose|k: int| 0 <= k < t.len() && t[k] == q[j - 1];
                    assert(before(s[0], s[k + 1]));
                }
            }
        }
        assert forall|y: Seq<char>| #[trigger] r.contains(y) <==> s.contains(y) || y == x by {
            if r.contains(y) {
                let i = choose|i: int| 0 <= i < r.len() && r[i] == y;
                if i == 0 {
                    assert(s[0] == y);
                } else {
                    assert(q[i - 1] == y);
                    assert(q.contains(y));
                    if y != x {
                        let k = choose|k: int| 0 <= k < t.len() && t[k] == y;
                        assert(s[k + 1] == y);
                    }
                }
            }
            if s.contains(y) || y == x {
                if s[0] == y {
                    assert(r[0] == y);
                } else {
                    if s.contains(y) {
                        let k = choose|k: int| 0 <= k < s.len() && s[k] == y;
                        assert(t[k - 1] == y);
                    }
                    assert(q.contains(y));
                    let k = choose|k: int| 0 <= k < q.len() && q[k] == y;
                    assert(r[k + 1] == y);
                }
            }
        }
    }
}

/// A text that comes after all others is inserted at the end.
pub proof fn lemma_insert_last(s: Seq<Seq<char>>, x: Seq<char>)
    requires
        strictly_sorted(s.push(x)),
    ensures
        insert_in_order(s, x) == s.push(x),
    decreases s.len(),
{
    if s.len() == 0 {
        assert(seq![x] =~= s.push(x));
    } else {
        let all = s.push(x);
        assert(before(all[0], all[s.len() as int]));
        lemma_before_irreflexive(x);
        if before(x, s[0]) {
            lemma_before_transitive(x, s[0], x);
        }
        let t = s.skip(1);
        assert forall|i: int, j: int| 0 <= i < j < t.push(x).len() implies before(
            #[trigger] t.push(x)[i],
            #[trigger] t.push(x)[j],
        ) by {
            assert(t.push(x)[i] == all[i + 1]);
            assert(t.push(x)[j] == all[j + 1]);
            assert(before(all[i + 1], all[j + 1]));
        }
        lemma_insert_last(t, x);
        assert(seq![s[0]] + t.push(x) =~= all);
    }
}

/// A sorted list is determined by the texts in it.
pub proof fn lemma_sorted_unique(a: Seq<Seq<char>>, b: Seq<Seq<char>>)
    requires
        strictly_sorted(a),
        strictly_sorted(b),
        forall|y: Seq<char>| #[trigger] a.contains(y) <==> b.contains(y),
    ensures
        a == b,
    decreases a.len(),
{
    if a.len() == 0 {
        if b.len() > 0 {
            assert(b.contains(b[0]));
            assert(a.contains(b[0]));
        }
        assert(a =~= b);
    } else {
        assert(a.contains(a[0]));
        assert(b.contains(a[0]));
        let i = choose|i: int| 0 <= i < b.len() && b[i] == a[0];
        assert(b.contains(b[0]));
        assert(a.contains(b[0]));
        let j = choose|j: int| 0 <= j < a.len() && a[j] == b[0];
        if i > 0 {
            assert(before(b[0], b[i]));
            if j > 0 {
                assert(before(a[0], a[j]));
                lemma_before_transitive(a[0], b[0], a[0]);
                lemma_before_irreflexive(a[0]);
            } else {
                lemma_before_irreflexive(a[0]);
            }
        }
        assert(a[0] == b[0]);
        let s = a.skip(1);
        let t = b.skip(1);
        assert forall|p: int, q: int| 0 <= p < q < s.len() implies before(
            #[trigger] s[p],
            #[trigger] s[q],
        ) by {
            assert(before(a[p + 1], a[q + 1]));
        }
        assert forall|p: int, q: int| 0 <= p < q < t.len() implies before(
            #[trigger] t[p],
            #[trigger] t[q],
        ) by {
            assert(before(b[p + 1], b[q + 1]));
        }
        assert forall|y: Seq<char>| #[trigger] s.contains(y) <==> t.contains(y) by {
            lemma_before_irreflexive(a[0]);
            if s.contains(y) {
                let k = choose|k: int| 0 <= k < s.len() && s[k] == y;
                assert(before(a[0], a[k + 1]));
                assert(a.contains(y));
                let m = choose|m: int| 0 <= m < b.len() && b[m] == y;
                assert(t[m - 1] == y);
            }
            if t.contains(y) {
                let k = choose|k: int| 0 <= k < t.len() && t[k] == y;
                assert(before(b[0], b[k + 1]));
                assert(b.contains(y));
                assert(a.contains(y));
                let m = choose|m: int| 0 <= m < a.len() && a[m] == y;
                assert(s[m - 1] == y);
            }
        }
        lemma_sorted_unique(s, t);
        assert(a =~= seq![a[0]] + s);
        assert(b =~= seq![b[0]] + t);
    }
}

/// Whether `a` comes before `b`.
pub fn comes_before(a: &str, b: &str) -> (r: bool)
    ensures
        r == before(a@, b@),
{
    let x = chars_of(a);
    let y = chars_of(b);
    let mut i: usize = 0;
    assert(a@.skip(0) =~= a@);
    assert(b@.skip(0) =~= b@);
    while i < x.len() && i < y.len() && x[i] == y[i]
        invariant
            i <= x.len(),
            i <= y.len(),
            x@ == a@,
            y@ == b@,
            before(a@, b@) == before(a@.skip(i as int), b@.skip(i as int)),
        decreases x.len() - i,
    {
        assert(a@.skip(i as int).skip(1) =~= a@.skip(i + 1));
        assert(b@.skip(i as int).skip(1) =~= b@.skip(i + 1));
        i = i + 1;
    }
    if i == y.len() {
        false
    } else if i == x.len() {
        true
    } else {
        code_point(x[i]) < code_point(y[i])
    }
}

/// Puts `x` into a list at its place in the order, unless it is there already.
pub fn insert_sorted(v: &mut Vec<String>, x: &str)
    ensures
        views(final(v)@) == insert_in_order(views(old(v)@), x@),
{
    let mut i: usize = 0;
    let ghost s = views(v@);
    assert(s.skip(0) =~= s);
    assert(s.take(0) + insert_in_order(s, x@) =~= insert_in_order(s, x@));
    while i < v.len()
        invariant
            i <= v.len(),
            *v == *old(v),
            s == views(v@),
            insert_in_order(s, x@) == s.take(i as int) + insert_in_order(s.skip(i as int), x@),
        decreases v.len() - i,
    {
        let ghost t = s.skip(i as int);
        assert(t[0] == v@[i as int]@);
        if same(v[i].as_str(), x) {
            assert(s.take(i as int) + t =~= s);
            return ;
        }
        if comes_before(x, v[i].as_str()) {
            let ghost w = v@;
            v.insert(i, x.to_owned());
            proof {
                assert(views(v@) =~= s.take(i as int) + (seq![x@] + t));
            }
            return ;
        }
        proof {
            assert(t.skip(1) =~= s.skip(i + 1));
            assert(s.take(i as int) + (seq![t[0]] + insert_in_order(t.skip(1), x@)) =~= s.take(
                i + 1,
            ) + insert_in_order(s.skip(i + 1), x@));
        }
        i = i + 1;
    }
    v.push(x.to_owned());
    proof {
        assert(s.skip(i as int) =~= Seq::<Seq<char>>::empty());
        assert(s.take(i as int) =~= s);
        assert(views(v@) =~= s + seq![x@]);
    }
}

} // verus!
