//! What becomes of accesses in a window.

use crate::common::event::ObservationEvent;
use crate::common::userspace::{AccessView, DenialView};
use crate::lru_model::lru_lookup;
use crate::normalizer::{
    class_of, effective_hook, object_path, patterns_of, perms_of, target_in, with_observation,
};
use crate::outside::sea_hash;
use crate::window::{
    after_input, after_time, batch_of, denied_all, empty_window, enter, law_meeting_keeps_order,
    lemma_slot, meet, meet_all, next_window, pattern_hash, pattern_key, slot, window_wf,
    with_denial, Window,
};
use vstd::prelude::*;

verus! {

/// Whether two entries are about the same types, class and permission.
pub open spec fn alike(a: AccessView, b: AccessView) -> bool {
    &&& a.scontext_type == b.scontext_type
    &&& a.tcontext_type == b.tcontext_type
    &&& a.tclass == b.tclass
    &&& a.perm == b.perm
}

/// Whether no two entries are about the same types, class and permission.
pub open spec fn none_alike(batch: Seq<AccessView>) -> bool {
    forall|i: int, j: int| 0 <= i < j < batch.len() ==> !alike(#[trigger] batch[i], #[trigger] batch[j])
}

/// How many accesses are about the same types, class and permission as an entry.
pub open spec fn hits(fresh: Seq<AccessView>, a: AccessView) -> nat
    decreases fresh.len(),
{
    if fresh.len() == 0 {
        0
    } else {
        hits(fresh.drop_last(), a) + (if alike(fresh.last(), a) {
            1nat
        } else {
            0
        })
    }
}

/// Whether an entry is what another one became after `n` more accesses like it, the last of them
/// at the time `last`, where that is known.
pub open spec fn grown(a: AccessView, b: AccessView, n: nat, last: Option<u64>) -> bool {
    &&& b.scontext == a.scontext
    &&& b.scontext_type == a.scontext_type
    &&& b.tcontext == a.tcontext
    &&& b.tcontext_type == a.tcontext_type
    &&& b.tclass == a.tclass
    &&& b.perm == a.perm
    &&& b.hook_id == a.hook_id
    &&& b.first_seen_ns == a.first_seen_ns
    &&& b.is_new == a.is_new
    &&& a.count + n <= u64::MAX ==> b.count == a.count + n
    &&& a.count + n > u64::MAX ==> b.count == u64::MAX
    &&& b.last_seen_ns == (if n > 0 && last is Some {
        last->0
    } else {
        a.last_seen_ns
    })
}

/// Entries with the same key are alike, and the other way round.
proof fn lemma_alike(a: AccessView, b: AccessView)
    ensures
        alike(a, b) <==> pattern_key(a) == pattern_key(b),
{
}

proof fn lemma_hits_found(fresh: Seq<AccessView>, a: AccessView, i: int)
    requires
        0 <= i < fresh.len(),
        alike(fresh[i], a),
    ensures
        hits(fresh, a) > 0,
    decreases fresh.len(),
{
    if i < fresh.len() - 1 {
        lemma_hits_found(fresh.drop_last(), a, i);
    }
}

/// Whether an entry of a batch is about the same types, class and permission as an access.
pub open spec fn has_like(batch: Seq<AccessView>, a: AccessView) -> bool {
    exists|j: int| 0 <= j < batch.len() && alike(a, #[trigger] batch[j])
}

/// Whether an entry is what one of the accesses became, which all that are like it count in.
pub open spec fn came_from(fresh: Seq<AccessView>, b: AccessView, last: Option<u64>) -> bool {
    exists|i: int|
        0 <= i < fresh.len() && grown(
            AccessView { is_new: b.is_new, ..#[trigger] fresh[i] },
            b,
            hits(fresh, fresh[i]),
            last,
        )
}

/// What one more access does to a batch: an entry that is like it counts it, all others stay, and
/// where there is none it gets one of its own.
proof fn lemma_one_more(mid: Seq<AccessView>, x: AccessView, last: Option<u64>)
    requires
        none_alike(mid),
        x.count == 0,
    ensures
        none_alike(enter(mid, x, last)),
        has_like(enter(mid, x, last), x),
        mid.len() <= enter(mid, x, last).len() <= mid.len() + 1,
        forall|j: int|
            0 <= j < mid.len() ==> grown(
                mid[j],
                #[trigger] enter(mid, x, last)[j],
                if alike(x, mid[j]) {
                    1nat
                } else {
                    0
                },
                last,
            ),
        enter(mid, x, last).len() > mid.len() ==> !has_like(mid, x) && grown(
            x,
            enter(mid, x, last)[mid.len() as int],
            1,
            last,
        ),
{
    let after = enter(mid, x, last);
    let k = pattern_key(x);
    lemma_slot(mid, k);
    let p = slot(mid, k) as int;
    assert forall|j: int| 0 <= j < mid.len() implies (alike(x, #[trigger] mid[j]) <==> j == p) by {
        lemma_alike(x, mid[j]);
        if j < p {
            assert(pattern_key(mid[j]) != k);
        } else if j > p {
            assert(!alike(mid[p], mid[j]));
            lemma_alike(mid[p], mid[j]);
        }
    }
    assert forall|i: int, j: int| 0 <= i < j < after.len() implies !alike(
        #[trigger] after[i],
        #[trigger] after[j],
    ) by {
        if j < mid.len() {
            assert(!alike(mid[i], mid[j]));
        } else {
            assert(!alike(x, mid[i]));
        }
    }
    assert(alike(x, after[p]));
}

/// What becomes of a batch when accesses come in, one after the other.
///
/// Every entry stays at its place and keeps its two types, class and permission, its contexts,
/// hook, first time and mark; it counts the accesses that are like it in these four fields, and no
/// others. An access that is like no entry gets one of its own. No two entries are alike.
pub proof fn law_accesses_are_gathered(w: Window, fresh: Seq<AccessView>, last: Option<u64>)
    requires
        none_alike(w.batch),
        forall|i: int| 0 <= i < fresh.len() ==> (#[trigger] fresh[i]).count == 0,
    ensures
        none_alike(meet_all(w, fresh, last).batch),
        meet_all(w, fresh, last).batch.len() >= w.batch.len(),
        forall|j: int|
            0 <= j < w.batch.len() ==> grown(
                w.batch[j],
                #[trigger] meet_all(w, fresh, last).batch[j],
                hits(fresh, w.batch[j]),
                last,
            ),
        forall|i: int|
            0 <= i < fresh.len() ==> has_like(meet_all(w, fresh, last).batch, #[trigger] fresh[i]),
        forall|j: int|
            w.batch.len() <= j < meet_all(w, fresh, last).batch.len() ==> came_from(
                fresh,
                #[trigger] meet_all(w, fresh, last).batch[j],
                last,
            ),
    decreases fresh.len(),
{
    if fresh.len() > 0 {
        let t = fresh.drop_last();
        let x = fresh.last();
        assert forall|i: int| 0 <= i < t.len() implies (#[trigger] t[i]).count == 0 by {
            assert(t[i] == fresh[i]);
        }
        law_accesses_are_gathered(w, t, last);
        let before = meet_all(w, t, last);
        let mid = before.batch;
        let after = meet_all(w, fresh, last).batch;
        let is_new = lru_lookup(before.seen, pattern_hash(pattern_key(x))) is None;
        let y = AccessView { is_new, ..x };
        assert(fresh[fresh.len() - 1] == x);
        lemma_one_more(mid, y, last);
        assert(after == enter(mid, y, last));
        assert forall|j: int| 0 <= j < w.batch.len() implies grown(
            w.batch[j],
            #[trigger] after[j],
            hits(fresh, w.batch[j]),
            last,
        ) by {
            assert(grown(w.batch[j], mid[j], hits(t, w.batch[j]), last));
        }
        assert forall|i: int| 0 <= i < fresh.len() implies has_like(after, #[trigger] fresh[i]) by {
            if i < t.len() {
                assert(has_like(mid, t[i]));
                let j = choose|j: int| 0 <= j < mid.len() && alike(t[i], #[trigger] mid[j]);
                assert(alike(fresh[i], after[j]));
            } else {
                let j = choose|j: int| 0 <= j < after.len() && alike(y, #[trigger] after[j]);
                assert(alike(fresh[i], after[j]));
            }
        }
        assert forall|j: int| w.batch.len() <= j < after.len() implies came_from(
            fresh,
            #[trigger] after[j],
            last,
        ) by {
            if j < mid.len() {
                assert(came_from(t, mid[j], last));
                let i = choose|i: int|
                    0 <= i < t.len() && grown(
                        AccessView { is_new: mid[j].is_new, ..#[trigger] t[i] },
                        mid[j],
                        hits(t, t[i]),
                        last,
                    );
                assert(t[i] == fresh[i]);
                assert(after[j].is_new == mid[j].is_new);
                assert(grown(
                    AccessView { is_new: after[j].is_new, ..fresh[i] },
                    after[j],
                    hits(fresh, fresh[i]),
                    last,
                ));
            } else {
                let i = fresh.len() - 1;
                if hits(t, x) > 0 {
                    lemma_hit_is_there(t, x);
                    let q = choose|q: int| 0 <= q < t.len() && alike(#[trigger] t[q], x);
                    assert(has_like(mid, t[q]));
                    let m = choose|m: int| 0 <= m < mid.len() && alike(t[q], #[trigger] mid[m]);
                    assert(alike(y, mid[m]));
                }
                assert(grown(
                    AccessView { is_new: after[j].is_new, ..fresh[i] },
                    after[j],
                    hits(fresh, fresh[i]),
                    last,
                ));
            }
        }
    }
}

proof fn lemma_hit_is_there(fresh: Seq<AccessView>, a: AccessView)
    requires
        hits(fresh, a) > 0,
    ensures
        exists|q: int| 0 <= q < fresh.len() && alike(#[trigger] fresh[q], a),
    decreases fresh.len(),
{
    if alike(fresh.last(), a) {
        assert(alike(fresh[fresh.len() - 1], a));
    } else {
        let t = fresh.drop_last();
        lemma_hit_is_there(t, a);
        let q = choose|q: int| 0 <= q < t.len() && alike(#[trigger] t[q], a);
        assert(fresh[q] == t[q]);
    }
}

/// Accesses that come in one after the other lead to the same as when they come in one by one.
pub proof fn law_accesses_come_one_by_one(
    w: Window,
    fresh: Seq<AccessView>,
    a: AccessView,
    last: Option<u64>,
)
    ensures
        meet_all(w, Seq::empty(), last) == w,
        meet_all(w, fresh.push(a), last) == meet_all(meet_all(w, fresh, last), seq![a], last),
{
    let mid = meet_all(w, fresh, last);
    assert(fresh.push(a).drop_last() =~= fresh);
    assert(seq![a].drop_last() =~= Seq::<AccessView>::empty());
    assert(meet_all(mid, Seq::empty(), last) == mid);
}

/// An access that is like no entry gets one at the end, which is marked as new just when the hash of
/// its two types, class and permission is not among the remembered ones.
pub proof fn law_new_by_the_remembered(w: Window, a: AccessView, last: Option<u64>)
    requires
        window_wf(w),
        forall|j: int| 0 <= j < w.batch.len() ==> !alike(a, #[trigger] w.batch[j]),
    ensures
        ({
            let h = sea_hash(a.scontext_type, a.tcontext_type, a.tclass, a.perm);
            let after = meet_all(w, seq![a], last);
            &&& after.batch.len() == w.batch.len() + 1
            &&& after.batch.last().is_new <==> lru_lookup(w.seen, h) is None
        }),
{
    let h = pattern_hash(pattern_key(a));
    assert(seq![a].drop_last() =~= Seq::<AccessView>::empty());
    assert(meet_all(w, Seq::empty(), last) == w);
    assert(meet_all(w, seq![a], last) == meet(w, a, last, h));
    lemma_slot(w.batch, pattern_key(a));
    let p = slot(w.batch, pattern_key(a)) as int;
    if p < w.batch.len() {
        lemma_alike(a, w.batch[p]);
    }
}

/// What is remembered after an access, whether or not an entry is like it: the hash of its two types,
/// class and permission stands in front where it was not remembered, and for it the last one leaves
/// where there were ten thousand; otherwise nothing changes. The denials stay.
pub proof fn law_remembering(w: Window, a: AccessView, last: Option<u64>)
    requires
        window_wf(w),
    ensures
        ({
            let h = sea_hash(a.scontext_type, a.tcontext_type, a.tclass, a.perm);
            let after = meet_all(w, seq![a], last);
            &&& after.denials == w.denials
            &&& lru_lookup(after.seen, h) is Some
            &&& lru_lookup(w.seen, h) is Some ==> after.seen == w.seen
            &&& lru_lookup(w.seen, h) is None && w.seen.len() < 10000 ==> after.seen == seq![
                (h, 1u8),
            ] + w.seen
            &&& lru_lookup(w.seen, h) is None && w.seen.len() >= 10000 ==> after.seen == seq![
                (h, 1u8),
            ] + w.seen.drop_last()
        }),
{
    let h = pattern_hash(pattern_key(a));
    assert(seq![a].drop_last() =~= Seq::<AccessView>::empty());
    assert(meet_all(w, Seq::empty(), last) == w);
    assert(meet_all(w, seq![a], last) == meet(w, a, last, h));
    law_meeting_keeps_order(w, a, last, h);
    if lru_lookup(w.seen, h) is None {
        crate::lru_model::lemma_without_absent(w.seen, h);
    }
}

/// An access that is like an entry changes nothing of what is marked as new.
pub proof fn law_marks_stay(w: Window, a: AccessView, last: Option<u64>, j: int)
    requires
        none_alike(w.batch),
        a.count == 0,
        0 <= j < w.batch.len(),
    ensures
        meet_all(w, seq![a], last).batch[j].is_new == w.batch[j].is_new,
        alike(a, w.batch[j]) ==> meet_all(w, seq![a], last).batch.len() == w.batch.len(),
{
    law_accesses_are_gathered(w, seq![a], last);
    let after = meet_all(w, seq![a], last).batch;
    assert(grown(w.batch[j], after[j], hits(seq![a], w.batch[j]), last));
    assert(seq![a].drop_last() =~= Seq::<AccessView>::empty());
    if alike(a, w.batch[j]) && after.len() > w.batch.len() {
        let n = w.batch.len() as int;
        assert(came_from(seq![a], after[n], last));
        let i = choose|i: int|
            0 <= i < seq![a].len() && grown(
                AccessView { is_new: after[n].is_new, ..#[trigger] seq![a][i] },
                after[n],
                hits(seq![a], seq![a][i]),
                last,
            );
        assert(alike(after[j], after[n]));
    }
}

// ---- Observations and denials ----

/// What an observation brings in. Where the type of its object says that no label was found,
/// nothing; otherwise, for each of its permissions, an entry with the type of its subject, the
/// type of its object, its class and that permission. Entries that stood before keep these four
/// fields; an entry that is new to the batch also has the two contexts, the hook and the time.
pub proof fn law_observation_is_taken_in(
    w: Window,
    e: ObservationEvent,
    scontext: Seq<char>,
    scontext_type: Seq<char>,
    answer: Option<Seq<char>>,
)
    requires
        none_alike(w.batch),
    ensures
        ({
            let h = effective_hook(e.hook_id);
            let raw = e.object.raw@;
            let class = class_of(h, raw);
            let target = target_in(h, raw, class, object_path(raw), answer);
            let perms = perms_of(h, raw);
            let after = with_observation(w, e, scontext, scontext_type, answer);
            if target.1 == "unresolved_t"@ || target.1 == "unknown_t"@ || target.1 == "generic_t"@ {
                after == w
            } else {
                &&& none_alike(after.batch)
                &&& after.batch.len() >= w.batch.len()
                &&& forall|i: int|
                    0 <= i < perms.len() ==> exists|j: int|
                        0 <= j < after.batch.len() && (#[trigger] after.batch[j]).scontext_type
                            == scontext_type && after.batch[j].tcontext_type == target.1
                            && after.batch[j].tclass == class && after.batch[j].perm
                            == #[trigger] perms[i]
                &&& forall|j: int|
                    0 <= j < w.batch.len() ==> (#[trigger] after.batch[j]).scontext_type
                        == w.batch[j].scontext_type && after.batch[j].tcontext_type
                        == w.batch[j].tcontext_type && after.batch[j].tclass == w.batch[j].tclass
                        && after.batch[j].perm == w.batch[j].perm
                &&& forall|j: int|
                    w.batch.len() <= j < after.batch.len() ==> (#[trigger] after.batch[j]).scontext
                        == scontext && after.batch[j].scontext_type == scontext_type
                        && after.batch[j].tcontext == target.0 && after.batch[j].tcontext_type
                        == target.1 && after.batch[j].tclass == class && perms.contains(
                        after.batch[j].perm,
                    ) && after.batch[j].hook_id == e.hook_id && after.batch[j].first_seen_ns
                        == e.timestamp_ns && after.batch[j].last_seen_ns == e.timestamp_ns
                        && after.batch[j].count > 0
            }
        }),
{
    let h = effective_hook(e.hook_id);
    let raw = e.object.raw@;
    let class = class_of(h, raw);
    let target = target_in(h, raw, class, object_path(raw), answer);
    let perms = perms_of(h, raw);
    let fresh = patterns_of(e, scontext, scontext_type, answer);
    let last = Some(e.timestamp_ns);
    law_accesses_are_gathered(w, fresh, last);
    let after = with_observation(w, e, scontext, scontext_type, answer);
    if !(target.1 == "unresolved_t"@ || target.1 == "unknown_t"@ || target.1 == "generic_t"@) {
        assert(after == meet_all(w, fresh, last));
        assert forall|i: int| 0 <= i < perms.len() implies exists|j: int|
            0 <= j < after.batch.len() && (#[trigger] after.batch[j]).scontext_type
                == scontext_type && after.batch[j].tcontext_type == target.1
                && after.batch[j].tclass == class && after.batch[j].perm == #[trigger] perms[i] by {
            assert(has_like(after.batch, fresh[i]));
            let j = choose|j: int|
                0 <= j < after.batch.len() && alike(fresh[i], #[trigger] after.batch[j]);
            assert(after.batch[j].scontext_type == scontext_type);
        }
        assert forall|j: int| w.batch.len() <= j < after.batch.len() implies perms.contains(
            (#[trigger] after.batch[j]).perm,
        ) && after.batch[j].scontext == scontext && after.batch[j].scontext_type == scontext_type
            && after.batch[j].tcontext == target.0 && after.batch[j].tcontext_type == target.1
            && after.batch[j].tclass == class && after.batch[j].hook_id == e.hook_id
            && after.batch[j].first_seen_ns == e.timestamp_ns && after.batch[j].last_seen_ns
            == e.timestamp_ns && after.batch[j].count > 0 by {
            assert(came_from(fresh, after.batch[j], last));
            let i = choose|i: int|
                0 <= i < fresh.len() && grown(
                    AccessView { is_new: after.batch[j].is_new, ..#[trigger] fresh[i] },
                    after.batch[j],
                    hits(fresh, fresh[i]),
                    last,
                );
            lemma_hits_found(fresh, fresh[i], i);
            assert(perms[i] == after.batch[j].perm);
        }
        assert forall|j: int| 0 <= j < w.batch.len() implies (#[trigger] after.batch[j]).scontext_type
            == w.batch[j].scontext_type && after.batch[j].tcontext_type == w.batch[j].tcontext_type
            && after.batch[j].tclass == w.batch[j].tclass && after.batch[j].perm
            == w.batch[j].perm by {
            assert(grown(w.batch[j], after.batch[j], hits(fresh, w.batch[j]), last));
        }
    }
}

/// What a denial brings in: itself, and for each of its permissions an entry with its two types,
/// its class and that permission. Entries that stood before keep these four fields; an entry that
/// is new to the batch also has the two contexts of the denial.
pub proof fn law_denial_is_taken_in(w: Window, d: DenialView)
    requires
        none_alike(w.batch),
    ensures
        ({
            let after = with_denial(w, d);
            &&& after.denials == w.denials.push(d)
            &&& none_alike(after.batch)
            &&& after.batch.len() >= w.batch.len()
            &&& forall|i: int|
                0 <= i < d.perms.len() ==> exists|j: int|
                    0 <= j < after.batch.len() && (#[trigger] after.batch[j]).scontext_type
                        == d.scontext_type && after.batch[j].tcontext_type == d.tcontext_type
                        && after.batch[j].tclass == d.tclass && after.batch[j].perm
                        == #[trigger] d.perms[i]
            &&& forall|j: int|
                0 <= j < w.batch.len() ==> (#[trigger] after.batch[j]).scontext_type
                    == w.batch[j].scontext_type && after.batch[j].tcontext_type
                    == w.batch[j].tcontext_type && after.batch[j].tclass == w.batch[j].tclass
                    && after.batch[j].perm == w.batch[j].perm && after.batch[j].last_seen_ns
                    == w.batch[j].last_seen_ns
            &&& forall|j: int|
                w.batch.len() <= j < after.batch.len() ==> (#[trigger] after.batch[j]).scontext
                    == d.scontext && after.batch[j].scontext_type == d.scontext_type
                    && after.batch[j].tcontext == d.tcontext && after.batch[j].tcontext_type
                    == d.tcontext_type && after.batch[j].tclass == d.tclass && d.perms.contains(
                    after.batch[j].perm,
                ) && after.batch[j].count > 0 && after.batch[j].hook_id == 0
                    && after.batch[j].first_seen_ns == 0 && after.batch[j].last_seen_ns == 0
        }),
{
    let fresh = denied_all(d);
    let last: Option<u64> = None;
    law_accesses_are_gathered(w, fresh, last);
    let after = with_denial(w, d);
    assert(after.batch == meet_all(w, fresh, last).batch);
    assert forall|i: int| 0 <= i < d.perms.len() implies exists|j: int|
        0 <= j < after.batch.len() && (#[trigger] after.batch[j]).scontext_type == d.scontext_type
            && after.batch[j].tcontext_type == d.tcontext_type && after.batch[j].tclass == d.tclass
            && after.batch[j].perm == #[trigger] d.perms[i] by {
        assert(has_like(after.batch, fresh[i]));
        let j = choose|j: int|
            0 <= j < after.batch.len() && alike(fresh[i], #[trigger] after.batch[j]);
        assert(after.batch[j].scontext_type == d.scontext_type);
    }
    assert forall|j: int| w.batch.len() <= j < after.batch.len() implies d.perms.contains(
        (#[trigger] after.batch[j]).perm,
    ) && after.batch[j].scontext == d.scontext && after.batch[j].scontext_type == d.scontext_type
        && after.batch[j].tcontext == d.tcontext && after.batch[j].tcontext_type == d.tcontext_type
        && after.batch[j].tclass == d.tclass && after.batch[j].count > 0 && after.batch[j].hook_id
        == 0 && after.batch[j].first_seen_ns == 0 && after.batch[j].last_seen_ns == 0 by {
        assert(came_from(fresh, after.batch[j], last));
        let i = choose|i: int|
            0 <= i < fresh.len() && grown(
                AccessView { is_new: after.batch[j].is_new, ..#[trigger] fresh[i] },
                after.batch[j],
                hits(fresh, fresh[i]),
                last,
            );
        lemma_hits_found(fresh, fresh[i], i);
        assert(d.perms[i] == after.batch[j].perm);
    }
    assert forall|j: int| 0 <= j < w.batch.len() implies (#[trigger] after.batch[j]).scontext_type
        == w.batch[j].scontext_type && after.batch[j].tcontext_type == w.batch[j].tcontext_type
        && after.batch[j].tclass == w.batch[j].tclass && after.batch[j].perm == w.batch[j].perm
        && after.batch[j].last_seen_ns == w.batch[j].last_seen_ns by {
        assert(grown(w.batch[j], after.batch[j], hits(fresh, w.batch[j]), last));
    }
}

/// How often a permission stands in a list.
pub open spec fn times(perms: Seq<Seq<char>>, p: Seq<char>) -> nat
    decreases perms.len(),
{
    if perms.len() == 0 {
        0
    } else {
        times(perms.drop_last(), p) + (if perms.last() == p {
            1nat
        } else {
            0
        })
    }
}

/// A permission that stands in a list once, does so.
pub proof fn law_times(perms: Seq<Seq<char>>, p: Seq<char>)
    ensures
        times(perms, p) > 0 <==> perms.contains(p),
        perms.no_duplicates() ==> times(perms, p) <= 1,
    decreases perms.len(),
{
    if perms.len() > 0 {
        let t = perms.drop_last();
        law_times(t, p);
        if perms.contains(p) && perms.last() != p {
            let i = choose|i: int| 0 <= i < perms.len() && perms[i] == p;
            assert(t[i] == p);
        }
        if t.contains(p) {
            let i = choose|i: int| 0 <= i < t.len() && t[i] == p;
            assert(perms[i] == p);
        }
        if perms.last() == p {
            assert(perms[perms.len() - 1] == p);
        }
    }
}

/// Accesses that differ in their permission alone are like an entry as often as its permission
/// stands among theirs, where they have its two types and class, and never otherwise.
proof fn lemma_hits_are_times(fresh: Seq<AccessView>, perms: Seq<Seq<char>>, x: AccessView, a: AccessView)
    requires
        fresh.len() == perms.len(),
        forall|i: int|
            0 <= i < fresh.len() ==> (#[trigger] fresh[i]).scontext_type == x.scontext_type
                && fresh[i].tcontext_type == x.tcontext_type && fresh[i].tclass == x.tclass
                && fresh[i].perm == perms[i],
    ensures
        hits(fresh, a) == (if x.scontext_type == a.scontext_type && x.tcontext_type
            == a.tcontext_type && x.tclass == a.tclass {
            times(perms, a.perm)
        } else {
            0
        }),
    decreases fresh.len(),
{
    if fresh.len() > 0 {
        let t = fresh.drop_last();
        let q = perms.drop_last();
        assert forall|i: int| 0 <= i < t.len() implies (#[trigger] t[i]).scontext_type
            == x.scontext_type && t[i].tcontext_type == x.tcontext_type && t[i].tclass == x.tclass
            && t[i].perm == q[i] by {
            assert(t[i] == fresh[i]);
        }
        lemma_hits_are_times(t, q, x, a);
        assert(fresh[fresh.len() - 1] == fresh.last());
    }
}

/// How an observation counts. An entry counts it as often as its permission stands among those of
/// the observation, where it has the two types and class of the observation, and otherwise stays
/// as it is; an entry that is new to the batch has counted no more than that.
pub proof fn law_observation_counts_where_it_belongs(
    w: Window,
    e: ObservationEvent,
    scontext: Seq<char>,
    scontext_type: Seq<char>,
    answer: Option<Seq<char>>,
    j: int,
)
    requires
        none_alike(w.batch),
        0 <= j < with_observation(w, e, scontext, scontext_type, answer).batch.len(),
    ensures
        ({
            let h = effective_hook(e.hook_id);
            let class = class_of(h, e.object.raw@);
            let target = target_in(h, e.object.raw@, class, object_path(e.object.raw@), answer);
            let perms = perms_of(h, e.object.raw@);
            let b = with_observation(w, e, scontext, scontext_type, answer).batch[j];
            let found = target.1 != "unresolved_t"@ && target.1 != "unknown_t"@ && target.1
                != "generic_t"@;
            &&& j < w.batch.len() && found && w.batch[j].scontext_type == scontext_type
                && w.batch[j].tcontext_type == target.1 && w.batch[j].tclass == class ==> grown(
                w.batch[j],
                b,
                times(perms, w.batch[j].perm),
                Some(e.timestamp_ns),
            )
            &&& j < w.batch.len() && !(found && w.batch[j].scontext_type == scontext_type
                && w.batch[j].tcontext_type == target.1 && w.batch[j].tclass == class) ==> b
                == w.batch[j]
            &&& j >= w.batch.len() && times(perms, b.perm) <= u64::MAX ==> b.count == times(
                perms,
                b.perm,
            )
        }),
{
    let h = effective_hook(e.hook_id);
    let class = class_of(h, e.object.raw@);
    let target = target_in(h, e.object.raw@, class, object_path(e.object.raw@), answer);
    let perms = perms_of(h, e.object.raw@);
    let found = target.1 != "unresolved_t"@ && target.1 != "unknown_t"@ && target.1 != "generic_t"@;
    if found {
        let last = Some(e.timestamp_ns);
        let fresh = patterns_of(e, scontext, scontext_type, answer);
        law_accesses_are_gathered(w, fresh, last);
        let after = meet_all(w, fresh, last).batch;
        if perms.len() == 0 {
            assert(meet_all(w, fresh, last) == w);
            assert(grown(w.batch[j], after[j], hits(fresh, w.batch[j]), last));
            assert(times(perms, w.batch[j].perm) == 0);
        } else {
            if j < w.batch.len() {
                assert(grown(w.batch[j], after[j], hits(fresh, w.batch[j]), last));
                lemma_hits_are_times(fresh, perms, fresh[0], w.batch[j]);
                if hits(fresh, w.batch[j]) == 0 {
                    assert(after[j] =~= w.batch[j]);
                }
            } else {
                assert(came_from(fresh, after[j], last));
                let i = choose|i: int|
                    0 <= i < fresh.len() && grown(
                        AccessView { is_new: after[j].is_new, ..#[trigger] fresh[i] },
                        after[j],
                        hits(fresh, fresh[i]),
                        last,
                    );
                lemma_hits_are_times(fresh, perms, fresh[0], fresh[i]);
            }
        }
    }
}

/// How a denial counts. An entry counts it as often as its permission stands among those of the
/// denial, where it has the two types and class of the denial, and otherwise stays as it is; an
/// entry that is new to the batch has counted no more than that.
pub proof fn law_denial_counts_where_it_belongs(w: Window, d: DenialView, j: int)
    requires
        none_alike(w.batch),
        0 <= j < with_denial(w, d).batch.len(),
    ensures
        ({
            let b = with_denial(w, d).batch[j];
            &&& j < w.batch.len() && w.batch[j].scontext_type == d.scontext_type
                && w.batch[j].tcontext_type == d.tcontext_type && w.batch[j].tclass == d.tclass
                ==> grown(w.batch[j], b, times(d.perms, w.batch[j].perm), None)
            &&& j < w.batch.len() && !(w.batch[j].scontext_type == d.scontext_type
                && w.batch[j].tcontext_type == d.tcontext_type && w.batch[j].tclass == d.tclass)
                ==> b == w.batch[j]
            &&& j >= w.batch.len() && times(d.perms, b.perm) <= u64::MAX ==> b.count == times(
                d.perms,
                b.perm,
            )
        }),
{
    let last: Option<u64> = None;
    let fresh = denied_all(d);
    law_accesses_are_gathered(w, fresh, last);
    let after = meet_all(w, fresh, last).batch;
    if d.perms.len() == 0 {
        assert(grown(w.batch[j], after[j], hits(fresh, w.batch[j]), last));
        assert(after[j] =~= w.batch[j]);
        assert(times(d.perms, w.batch[j].perm) == 0);
    } else {
        if j < w.batch.len() {
            assert(grown(w.batch[j], after[j], hits(fresh, w.batch[j]), last));
            lemma_hits_are_times(fresh, d.perms, fresh[0], w.batch[j]);
            if hits(fresh, w.batch[j]) == 0 {
                assert(after[j] =~= w.batch[j]);
            }
        } else {
            assert(came_from(fresh, after[j], last));
            let i = choose|i: int|
                0 <= i < fresh.len() && grown(
                    AccessView { is_new: after[j].is_new, ..#[trigger] fresh[i] },
                    after[j],
                    hits(fresh, fresh[i]),
                    last,
                );
            lemma_hits_are_times(fresh, d.perms, fresh[0], fresh[i]);
        }
    }
}

/// An observation whose object has a label is one access after the other, for each permission one,
/// in their order; a denial is so too.
pub proof fn law_inputs_are_accesses(
    w: Window,
    e: ObservationEvent,
    scontext: Seq<char>,
    scontext_type: Seq<char>,
    answer: Option<Seq<char>>,
    d: DenialView,
)
    ensures
        ({
            let h = effective_hook(e.hook_id);
            let class = class_of(h, e.object.raw@);
            let target = target_in(h, e.object.raw@, class, object_path(e.object.raw@), answer);
            let perms = perms_of(h, e.object.raw@);
            target.1 != "unresolved_t"@ && target.1 != "unknown_t"@ && target.1 != "generic_t"@
                ==> with_observation(w, e, scontext, scontext_type, answer) == meet_all(
                w,
                Seq::new(
                    perms.len(),
                    |i: int|
                        AccessView {
                            scontext,
                            scontext_type,
                            tcontext: target.0,
                            tcontext_type: target.1,
                            tclass: class,
                            perm: perms[i],
                            hook_id: e.hook_id,
                            count: 0,
                            first_seen_ns: e.timestamp_ns,
                            last_seen_ns: e.timestamp_ns,
                            is_new: false,
                        },
                ),
                Some(e.timestamp_ns),
            )
        }),
        with_denial(w, d) == (Window {
            denials: w.denials.push(d),
            ..meet_all(
                w,
                Seq::new(
                    d.perms.len(),
                    |i: int|
                        AccessView {
                            scontext: d.scontext,
                            scontext_type: d.scontext_type,
                            tcontext: d.tcontext,
                            tcontext_type: d.tcontext_type,
                            tclass: d.tclass,
                            perm: d.perms[i],
                            hook_id: 0,
                            count: 0,
                            first_seen_ns: 0,
                            last_seen_ns: 0,
                            is_new: false,
                        },
                ),
                None,
            )
        }),
{
    let h = effective_hook(e.hook_id);
    let class = class_of(h, e.object.raw@);
    let target = target_in(h, e.object.raw@, class, object_path(e.object.raw@), answer);
    let perms = perms_of(h, e.object.raw@);
    assert(patterns_of(e, scontext, scontext_type, answer) =~= Seq::new(
        perms.len(),
        |i: int|
            AccessView {
                scontext,
                scontext_type,
                tcontext: target.0,
                tcontext_type: target.1,
                tclass: class,
                perm: perms[i],
                hook_id: e.hook_id,
                count: 0,
                first_seen_ns: e.timestamp_ns,
                last_seen_ns: e.timestamp_ns,
                is_new: false,
            },
    ));
    assert(denied_all(d) =~= Seq::new(
        d.perms.len(),
        |i: int|
            AccessView {
                scontext: d.scontext,
                scontext_type: d.scontext_type,
                tcontext: d.tcontext,
                tcontext_type: d.tcontext_type,
                tclass: d.tclass,
                perm: d.perms[i],
                hook_id: 0,
                count: 0,
                first_seen_ns: 0,
                last_seen_ns: 0,
                is_new: false,
            },
    ));
}

// ---- Handing on ----

/// A window is handed on as soon as it has sixty-four entries, or when its time is over and it has
/// any. What is handed on is all its entries and denials; what follows is empty, but for what is
/// remembered.
pub proof fn law_windows_are_handed_on(w: Window)
    ensures
        after_input(w).0 is Some <==> w.batch.len() >= 64,
        after_time(w).0 is Some <==> w.batch.len() > 0,
        after_input(w).0 matches Some(b) ==> b.events == w.batch && b.denials == w.denials && (
        b.has_denials <==> w.denials.len() > 0) && after_input(w).1.batch.len() == 0
            && after_input(w).1.denials.len() == 0,
        after_time(w).0 matches Some(b) ==> b.events == w.batch && b.denials == w.denials && (
        b.has_denials <==> w.denials.len() > 0) && after_time(w).1.batch.len() == 0 && after_time(
            w,
        ).1.denials.len() == 0,
        after_input(w).0 is None ==> after_input(w).1 == w,
        after_time(w).0 is None ==> after_time(w).1 == w,
        after_input(w).1.seen == w.seen,
        after_time(w).1.seen == w.seen,
        batch_of(w).events == w.batch,
        batch_of(w).denials == w.denials,
        batch_of(w).has_denials <==> w.denials.len() > 0,
        next_window(w).batch.len() == 0,
        next_window(w).denials.len() == 0,
        next_window(w).seen == w.seen,
        empty_window().batch.len() == 0,
        empty_window().denials.len() == 0,
        empty_window().seen.len() == 0,
{
}

} // verus!
