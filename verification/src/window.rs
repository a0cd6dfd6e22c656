//! The access patterns of a window, each of them counted in one place.

use crate::common::userspace::{AccessView, BatchView, DenialView};
use crate::lru_model::{
    law_lru_put, lemma_put_adds_one, lemma_standing_is_found, lemma_without_absent, lru_lookup,
    lru_put, lru_wf,
};
use crate::normalizer::{is_sentinel, BATCH_MAX, SEEN_MAX};
use crate::outside::sea_hash;
use vstd::prelude::*;

verus! {

/// What tells access patterns apart: both types, the class and the permission.
pub open spec fn pattern_key(a: AccessView) -> (Seq<char>, Seq<char>, Seq<char>, Seq<char>) {
    (a.scontext_type, a.tcontext_type, a.tclass, a.perm)
}

/// Where the pattern with key `k` stands in a batch; its length where there is none.
pub open spec fn slot(
    batch: Seq<AccessView>,
    k: (Seq<char>, Seq<char>, Seq<char>, Seq<char>),
) -> nat
    decreases batch.len(),
{
    if batch.len() == 0 || pattern_key(batch[0]) == k {
        0
    } else {
        1 + slot(batch.skip(1), k)
    }
}

/// A pattern after it was met once more; `last` is the time of that, where there is one.
pub open spec fn met_again(a: AccessView, last: Option<u64>) -> AccessView {
    AccessView {
        count: if a.count < u64::MAX {
            (a.count + 1) as u64
        } else {
            a.count
        },
        last_seen_ns: match last {
            Some(t) => t,
            None => a.last_seen_ns,
        },
        ..a
    }
}

/// A batch after a pattern was met: where it stands there already, it is counted; otherwise
/// `fresh` is added, which has not been counted yet.
pub open spec fn enter(
    batch: Seq<AccessView>,
    fresh: AccessView,
    last: Option<u64>,
) -> Seq<AccessView> {
    let i = slot(batch, pattern_key(fresh));
    if i < batch.len() {
        batch.update(i as int, met_again(batch[i as int], last))
    } else {
        batch.push(met_again(fresh, last))
    }
}

/// Whether no pattern stands in a batch twice.
pub open spec fn distinct(batch: Seq<AccessView>) -> bool {
    forall|i: int, j: int|
        0 <= i < j < batch.len() ==> pattern_key(#[trigger] batch[i]) != pattern_key(
            #[trigger] batch[j],
        )
}

/// What is known of an observation: both ends of the access, its class, hook and time.
pub struct Sighting {
    pub scontext: Seq<char>,
    pub scontext_type: Seq<char>,
    pub tcontext: Seq<char>,
    pub tcontext_type: Seq<char>,
    pub tclass: Seq<char>,
    pub hook_id: u32,
    pub at: u64,
}

/// The pattern of a sighting with one of its permissions, neither counted nor judged yet.
pub open spec fn sighted(o: Sighting, perm: Seq<char>) -> AccessView {
    AccessView {
        scontext: o.scontext,
        scontext_type: o.scontext_type,
        tcontext: o.tcontext,
        tcontext_type: o.tcontext_type,
        tclass: o.tclass,
        perm,
        hook_id: o.hook_id,
        count: 0,
        first_seen_ns: o.at,
        last_seen_ns: o.at,
        is_new: false,
    }
}

/// The patterns of a sighting with several permissions.
pub open spec fn sighted_all(o: Sighting, perms: Seq<Seq<char>>) -> Seq<AccessView> {
    Seq::new(perms.len(), |i: int| sighted(o, perms[i]))
}

/// The pattern of a denial with one of its permissions, neither counted nor judged yet.
pub open spec fn denied(d: DenialView, perm: Seq<char>) -> AccessView {
    AccessView {
        scontext: d.scontext,
        scontext_type: d.scontext_type,
        tcontext: d.tcontext,
        tcontext_type: d.tcontext_type,
        tclass: d.tclass,
        perm,
        hook_id: 0,
        count: 0,
        first_seen_ns: 0,
        last_seen_ns: 0,
        is_new: false,
    }
}

/// The patterns of a denial.
pub open spec fn denied_all(d: DenialView) -> Seq<AccessView> {
    Seq::new(d.perms.len(), |i: int| denied(d, d.perms[i]))
}

/// The state of a normalizer.
#[verifier::ext_equal]
pub struct Window {
    /// The patterns of this window, in the order in which they were first met.
    pub batch: Seq<AccessView>,
    /// The hashes of patterns that were met in this window or before, the latest first.
    pub seen: Seq<(u64, u8)>,
    /// The denials of this window, in order.
    pub denials: Seq<DenialView>,
}

/// The window in which nothing was met, before which nothing was met.
pub open spec fn empty_window() -> Window {
    Window { batch: Seq::empty(), seen: Seq::empty(), denials: Seq::empty() }
}

/// No pattern stands twice, and no more hashes are kept than there is room for.
pub open spec fn window_wf(w: Window) -> bool {
    distinct(w.batch) && lru_wf(w.seen, SEEN_MAX as nat)
}

/// The hash by which a pattern is remembered.
pub open spec fn pattern_hash(k: (Seq<char>, Seq<char>, Seq<char>, Seq<char>)) -> u64 {
    sea_hash(k.0, k.1, k.2, k.3)
}

/// Whether a pattern is remembered.
pub open spec fn knows(w: Window, k: (Seq<char>, Seq<char>, Seq<char>, Seq<char>)) -> bool {
    lru_lookup(w.seen, pattern_hash(k)) is Some
}

/// A window after a pattern was met that has the hash `h`: it is new where that hash is not
/// remembered, and remembered from then on.
pub open spec fn meet(w: Window, a: AccessView, last: Option<u64>, h: u64) -> Window {
    let is_new = lru_lookup(w.seen, h) is None;
    Window {
        batch: enter(w.batch, AccessView { is_new, ..a }, last),
        seen: if is_new {
            lru_put(w.seen, SEEN_MAX as nat, h, 1u8)
        } else {
            w.seen
        },
        denials: w.denials,
    }
}

/// A window after several patterns were met, one after the other.
pub open spec fn meet_all(w: Window, fresh: Seq<AccessView>, last: Option<u64>) -> Window
    decreases fresh.len(),
{
    if fresh.len() == 0 {
        w
    } else {
        meet(
            meet_all(w, fresh.drop_last(), last),
            fresh.last(),
            last,
            pattern_hash(pattern_key(fresh.last())),
        )
    }
}

/// A window after a sighting with several permissions, each of which makes a pattern.
pub open spec fn note_all(w: Window, o: Sighting, perms: Seq<Seq<char>>) -> Window {
    meet_all(w, sighted_all(o, perms), Some(o.at))
}

/// A window after a denial, each permission of which makes a pattern.
pub open spec fn with_denial(w: Window, d: DenialView) -> Window {
    Window { denials: w.denials.push(d), ..meet_all(w, denied_all(d), None) }
}

/// The window that follows when the patterns of this one are handed on.
pub open spec fn next_window(w: Window) -> Window {
    Window { batch: Seq::empty(), seen: w.seen, denials: Seq::empty() }
}

/// What a window hands on.
pub open spec fn batch_of(w: Window) -> BatchView {
    BatchView { events: w.batch, has_denials: w.denials.len() > 0, denials: w.denials }
}

/// What is handed on after something was taken in, and the window then: a full batch is handed
/// on at once.
pub open spec fn after_input(w: Window) -> (Option<BatchView>, Window) {
    if w.batch.len() >= BATCH_MAX {
        (Some(batch_of(w)), next_window(w))
    } else {
        (None, w)
    }
}

/// What is handed on when the time of a window is over, and the window then.
pub open spec fn after_time(w: Window) -> (Option<BatchView>, Window) {
    if w.batch.len() > 0 {
        (Some(batch_of(w)), next_window(w))
    } else {
        (None, w)
    }
}

// ---- Lemmas ----

/// The slot of a pattern is the first place where it stands.
pub proof fn lemma_slot(
    batch: Seq<AccessView>,
    k: (Seq<char>, Seq<char>, Seq<char>, Seq<char>),
)
    ensures
        slot(batch, k) <= batch.len(),
        forall|j: int| 0 <= j < slot(batch, k) ==> pattern_key(#[trigger] batch[j]) != k,
        slot(batch, k) < batch.len() ==> pattern_key(batch[slot(batch, k) as int]) == k,
    decreases batch.len(),
{
    if batch.len() != 0 && pattern_key(batch[0]) != k {
        let t = batch.skip(1);
        lemma_slot(t, k);
        assert forall|j: int| 0 <= j < slot(batch, k) implies pattern_key(#[trigger] batch[j])
            != k by {
            if j > 0 {
                assert(t[j - 1] == batch[j]);
            }
        }
        if slot(batch, k) < batch.len() {
            assert(t[slot(t, k) as int] == batch[slot(batch, k) as int]);
        }
    }
}

/// A place before which the pattern does not stand, and at which it does or the batch ends, is
/// its slot.
pub proof fn lemma_slot_is(
    batch: Seq<AccessView>,
    k: (Seq<char>, Seq<char>, Seq<char>, Seq<char>),
    i: int,
)
    requires
        0 <= i <= batch.len(),
        forall|j: int| 0 <= j < i ==> pattern_key(#[trigger] batch[j]) != k,
        i < batch.len() ==> pattern_key(batch[i]) == k,
    ensures
        slot(batch, k) == i,
{
    lemma_slot(batch, k);
    let r = slot(batch, k) as int;
    if r < i {
        assert(pattern_key(batch[r]) != k);
    } else if i < r {
        assert(pattern_key(batch[i]) != k);
    }
}

/// Meeting a pattern leaves every pattern in one place only.
pub proof fn lemma_enter(batch: Seq<AccessView>, fresh: AccessView, last: Option<u64>)
    requires
        distinct(batch),
    ensures
        distinct(enter(batch, fresh, last)),
        batch.len() <= enter(batch, fresh, last).len() <= batch.len() + 1,
        enter(batch, fresh, last).len() > 0,
{
    let k = pattern_key(fresh);
    lemma_slot(batch, k);
    let after = enter(batch, fresh, last);
    assert forall|i: int, j: int| 0 <= i < j < after.len() implies pattern_key(
        #[trigger] after[i],
    ) != pattern_key(#[trigger] after[j]) by {
        if j < batch.len() {
            assert(pattern_key(batch[i]) != pattern_key(batch[j]));
        } else {
            assert(pattern_key(batch[i]) != k);
        }
    }
}

// ---- Laws ----

/// Meeting a pattern keeps every pattern in one place and the remembered hashes within their
/// bound; of these there are never fewer than before.
pub proof fn law_meeting_keeps_order(w: Window, a: AccessView, last: Option<u64>, h: u64)
    requires
        window_wf(w),
    ensures
        window_wf(meet(w, a, last, h)),
        meet(w, a, last, h).seen.len() >= w.seen.len(),
        lru_lookup(meet(w, a, last, h).seen, h) is Some,
{
    let is_new = lru_lookup(w.seen, h) is None;
    lemma_enter(w.batch, AccessView { is_new, ..a }, last);
    if is_new {
        law_lru_put(w.seen, SEEN_MAX as nat, h, 1u8);
        lemma_put_adds_one(w.seen, SEEN_MAX as nat, h, 1u8);
    }
}

/// Meeting patterns keeps every pattern in one place and the remembered hashes within their
/// bound; of these there are never fewer than before.
pub proof fn law_meetings_keep_order(w: Window, fresh: Seq<AccessView>, last: Option<u64>)
    requires
        window_wf(w),
    ensures
        window_wf(meet_all(w, fresh, last)),
        meet_all(w, fresh, last).seen.len() >= w.seen.len(),
        meet_all(w, fresh, last).denials == w.denials,
    decreases fresh.len(),
{
    if fresh.len() > 0 {
        law_meetings_keep_order(w, fresh.drop_last(), last);
        law_meeting_keeps_order(
            meet_all(w, fresh.drop_last(), last),
            fresh.last(),
            last,
            pattern_hash(pattern_key(fresh.last())),
        );
    }
}

/// How often the patterns of a batch were met, taken together.
pub open spec fn total(batch: Seq<AccessView>) -> nat
    decreases batch.len(),
{
    if batch.len() == 0 {
        0
    } else {
        total(batch.drop_last()) + batch.last().count as nat
    }
}

/// Whether every pattern can be met `n` times more before its count is at its end.
pub open spec fn has_room(batch: Seq<AccessView>, n: nat) -> bool {
    forall|i: int| 0 <= i < batch.len() ==> (#[trigger] batch[i]).count + n <= u64::MAX
}

proof fn lemma_total_update(batch: Seq<AccessView>, i: int, a: AccessView)
    requires
        0 <= i < batch.len(),
    ensures
        total(batch.update(i, a)) == total(batch) - batch[i].count + a.count,
    decreases batch.len(),
{
    let after = batch.update(i, a);
    if i == batch.len() - 1 {
        assert(after.drop_last() =~= batch.drop_last());
    } else {
        lemma_total_update(batch.drop_last(), i, a);
        assert(after.drop_last() =~= batch.drop_last().update(i, a));
    }
}

/// Meeting a pattern counts exactly once.
pub proof fn law_each_meeting_counts_once(
    batch: Seq<AccessView>,
    fresh: AccessView,
    last: Option<u64>,
    n: nat,
)
    requires
        has_room(batch, n + 1),
        n < u64::MAX,
        fresh.count == 0,
    ensures
        total(enter(batch, fresh, last)) == total(batch) + 1,
        has_room(enter(batch, fresh, last), n),
{
    let k = pattern_key(fresh);
    lemma_slot(batch, k);
    let i = slot(batch, k) as int;
    let after = enter(batch, fresh, last);
    if i < batch.len() {
        assert(batch[i].count + 1 <= u64::MAX);
        lemma_total_update(batch, i, met_again(batch[i], last));
    } else {
        assert(after.drop_last() =~= batch);
    }
    assert forall|j: int| 0 <= j < after.len() implies (#[trigger] after[j]).count + n
        <= u64::MAX by {
        if j < batch.len() {
            assert(batch[j].count + n + 1 <= u64::MAX);
        }
    }
}

/// No meeting is lost: each of them counts once among the patterns of the window.
pub proof fn law_meetings_are_counted(
    w: Window,
    fresh: Seq<AccessView>,
    last: Option<u64>,
    n: nat,
)
    requires
        has_room(w.batch, n + fresh.len()),
        n + fresh.len() <= u64::MAX,
        forall|i: int| 0 <= i < fresh.len() ==> (#[trigger] fresh[i]).count == 0,
    ensures
        total(meet_all(w, fresh, last).batch) == total(w.batch) + fresh.len(),
        has_room(meet_all(w, fresh, last).batch, n),
    decreases fresh.len(),
{
    if fresh.len() > 0 {
        let t = fresh.drop_last();
        assert forall|i: int| 0 <= i < t.len() implies (#[trigger] t[i]).count == 0 by {
            assert(t[i] == fresh[i]);
        }
        law_meetings_are_counted(w, t, last, n + 1);
        let before = meet_all(w, t, last);
        let is_new = lru_lookup(before.seen, pattern_hash(pattern_key(fresh.last()))) is None;
        law_each_meeting_counts_once(
            before.batch,
            AccessView { is_new, ..fresh.last() },
            last,
            n,
        );
    }
}

/// No permission of a sighting or of a denial is lost: each of them counts once.
pub proof fn law_permissions_are_counted(
    w: Window,
    o: Sighting,
    perms: Seq<Seq<char>>,
    d: DenialView,
)
    requires
        has_room(w.batch, perms.len()),
        has_room(w.batch, d.perms.len()),
        perms.len() <= u64::MAX,
        d.perms.len() <= u64::MAX,
    ensures
        total(note_all(w, o, perms).batch) == total(w.batch) + perms.len(),
        total(with_denial(w, d).batch) == total(w.batch) + d.perms.len(),
{
    law_meetings_are_counted(w, sighted_all(o, perms), Some(o.at), 0);
    law_meetings_are_counted(w, denied_all(d), None, 0);
}

/// A pattern that was met is remembered from then on, also when the window is over: met again
/// in the next one, it is not new. This holds of sightings and of denials.
pub proof fn law_met_is_known(
    w: Window,
    a: AccessView,
    last: Option<u64>,
    later: AccessView,
    at_last: Option<u64>,
    h: u64,
)
    requires
        window_wf(w),
    ensures
        lru_lookup(meet(w, a, last, h).seen, h) is Some,
        meet(next_window(meet(w, a, last, h)), later, at_last, h).batch == seq![
            met_again(AccessView { is_new: false, ..later }, at_last),
        ],
{
    law_meeting_keeps_order(w, a, last, h);
}

/// The window that one meeting after another leads to.
pub open spec fn meet_each(w: Window, meetings: Seq<(AccessView, Option<u64>, u64)>) -> Window
    decreases meetings.len(),
{
    if meetings.len() == 0 {
        w
    } else {
        let (a, last, h) = meetings[0];
        meet_each(meet(w, a, last, h), meetings.skip(1))
    }
}

/// A hash that has stood among the remembered ones for `p` others stays there while no more
/// than the rest of the room is needed for further ones.
pub proof fn law_known_until_room_is_needed(
    w: Window,
    meetings: Seq<(AccessView, Option<u64>, u64)>,
    h: u64,
    p: int,
)
    requires
        window_wf(w),
        0 <= p < w.seen.len(),
        w.seen[p].0 == h,
        p + meetings.len() < SEEN_MAX,
    ensures
        lru_lookup(meet_each(w, meetings).seen, h) is Some,
    decreases meetings.len(),
{
    if meetings.len() == 0 {
        lemma_standing_is_found(w.seen, p);
    } else {
        let (a, last, g) = meetings[0];
        let after = meet(w, a, last, g);
        law_meeting_keeps_order(w, a, last, g);
        if lru_lookup(w.seen, g) is None {
            lemma_without_absent(w.seen, g);
            assert(after.seen[p + 1] == w.seen[p]);
            law_known_until_room_is_needed(after, meetings.skip(1), h, p + 1);
        } else {
            law_known_until_room_is_needed(after, meetings.skip(1), h, p);
        }
    }
}

/// While there is room for more hashes, meeting a pattern forgets none.
pub proof fn law_nothing_is_forgotten_early(
    w: Window,
    a: AccessView,
    last: Option<u64>,
    h: u64,
)
    requires
        window_wf(w),
        meet(w, a, last, h).seen.len() < SEEN_MAX,
    ensures
        forall|g: u64|
            lru_lookup(w.seen, g) is Some ==> #[trigger] lru_lookup(
                meet(w, a, last, h).seen,
                g,
            ) is Some,
{
    law_meeting_keeps_order(w, a, last, h);
    if lru_lookup(w.seen, h) is None {
        law_lru_put(w.seen, SEEN_MAX as nat, h, 1u8);
    }
}

/// While there is room for more hashes, patterns that were met are remembered, and so is every
/// pattern that was remembered before.
pub proof fn law_meetings_are_remembered(
    w: Window,
    fresh: Seq<AccessView>,
    last: Option<u64>,
)
    requires
        window_wf(w),
        meet_all(w, fresh, last).seen.len() < SEEN_MAX,
    ensures
        forall|i: int|
            0 <= i < fresh.len() ==> knows(
                meet_all(w, fresh, last),
                pattern_key(#[trigger] fresh[i]),
            ),
        forall|g: u64|
            lru_lookup(w.seen, g) is Some ==> #[trigger] lru_lookup(
                meet_all(w, fresh, last).seen,
                g,
            ) is Some,
    decreases fresh.len(),
{
    if fresh.len() > 0 {
        let t = fresh.drop_last();
        let before = meet_all(w, t, last);
        let after = meet_all(w, fresh, last);
        let h = pattern_hash(pattern_key(fresh.last()));
        law_meetings_keep_order(w, t, last);
        law_meeting_keeps_order(before, fresh.last(), last, h);
        law_meetings_are_remembered(w, t, last);
        law_nothing_is_forgotten_early(before, fresh.last(), last, h);
        assert forall|i: int| 0 <= i < fresh.len() implies knows(
            after,
            pattern_key(#[trigger] fresh[i]),
        ) by {
            if i < t.len() {
                assert(knows(before, pattern_key(t[i])));
                assert(lru_lookup(after.seen, pattern_hash(pattern_key(t[i]))) is Some);
            }
        }
        assert forall|g: u64| lru_lookup(w.seen, g) is Some implies #[trigger] lru_lookup(
            after.seen,
            g,
        ) is Some by {
            assert(lru_lookup(before.seen, g) is Some);
        }
    }
}

/// Whether a pattern is old news: it is remembered, and not marked as new in the batch.
pub open spec fn is_old(w: Window, k: (Seq<char>, Seq<char>, Seq<char>, Seq<char>)) -> bool {
    knows(w, k) && none_new(w.batch, k)
}

/// Whether a batch does not mark a pattern as new.
pub open spec fn none_new(
    batch: Seq<AccessView>,
    k: (Seq<char>, Seq<char>, Seq<char>, Seq<char>),
) -> bool {
    forall|i: int|
        0 <= i < batch.len() && pattern_key(#[trigger] batch[i]) == k ==> !batch[i].is_new
}

/// While there is room for more hashes, what is old news stays so, whatever is met.
pub proof fn law_old_stays_old(
    w: Window,
    fresh: Seq<AccessView>,
    last: Option<u64>,
    k: (Seq<char>, Seq<char>, Seq<char>, Seq<char>),
)
    requires
        window_wf(w),
        is_old(w, k),
        meet_all(w, fresh, last).seen.len() < SEEN_MAX,
    ensures
        is_old(meet_all(w, fresh, last), k),
    decreases fresh.len(),
{
    if fresh.len() > 0 {
        let t = fresh.drop_last();
        let before = meet_all(w, t, last);
        let after = meet_all(w, fresh, last);
        let a = fresh.last();
        let h = pattern_hash(pattern_key(a));
        law_meetings_keep_order(w, t, last);
        law_meeting_keeps_order(before, a, last, h);
        law_old_stays_old(w, t, last, k);
        law_nothing_is_forgotten_early(before, a, last, h);
        assert(lru_lookup(after.seen, pattern_hash(k)) is Some);
        lemma_slot(before.batch, pattern_key(a));
        assert forall|i: int|
            0 <= i < after.batch.len() && pattern_key(#[trigger] after.batch[i])
                == k implies !after.batch[i].is_new by {
            if i < before.batch.len() {
                assert(pattern_key(before.batch[i]) == k);
            }
        }
    }
}

/// Whether a pattern stands in a batch and is marked as new there.
pub open spec fn stands_new(
    batch: Seq<AccessView>,
    k: (Seq<char>, Seq<char>, Seq<char>, Seq<char>),
) -> bool {
    exists|i: int|
        0 <= i < batch.len() && pattern_key(#[trigger] batch[i]) == k && batch[i].is_new
}

/// A pattern that is neither remembered nor in the batch is marked as new when it is met, where
/// no other pattern that is met just before it has the same hash.
pub proof fn law_unknown_is_new(
    w: Window,
    fresh: Seq<AccessView>,
    last: Option<u64>,
    i: int,
)
    requires
        window_wf(w),
        0 <= i < fresh.len(),
        !knows(w, pattern_key(fresh[i])),
        forall|j: int|
            0 <= j < w.batch.len() ==> pattern_key(#[trigger] w.batch[j]) != pattern_key(fresh[i]),
        forall|j: int|
            0 <= j < i ==> pattern_key(#[trigger] fresh[j]) == pattern_key(fresh[i])
                || pattern_hash(pattern_key(fresh[j])) != pattern_hash(pattern_key(fresh[i])),
    ensures
        stands_new(meet_all(w, fresh, last).batch, pattern_key(fresh[i])),
    decreases fresh.len(),
{
    let k = pattern_key(fresh[i]);
    let t = fresh.drop_last();
    let before = meet_all(w, t, last);
    let after = meet_all(w, fresh, last);
    let a = fresh.last();
    lemma_slot(before.batch, pattern_key(a));
    law_meetings_keep_order(w, t, last);
    assert forall|j: int| 0 <= j < t.len() implies #[trigger] t[j] == fresh[j] by {}
    if i == t.len() && (forall|j: int| 0 <= j < i ==> pattern_key(#[trigger] t[j]) != k) {
        lemma_still_unknown(w, t, last, k);
        let p = slot(before.batch, k) as int;
        assert(pattern_key(after.batch[p]) == k && after.batch[p].is_new);
    } else {
        let first = if i < t.len() {
            i
        } else {
            choose|j: int| 0 <= j < i && pattern_key(#[trigger] t[j]) == k
        };
        law_unknown_is_new(w, t, last, first);
        let p = choose|p: int|
            0 <= p < before.batch.len() && pattern_key(#[trigger] before.batch[p]) == k
                && before.batch[p].is_new;
        assert(pattern_key(after.batch[p]) == k && after.batch[p].is_new);
    }
}

/// What has another hash than all that is met stays unknown, and out of the batch.
proof fn lemma_still_unknown(
    w: Window,
    fresh: Seq<AccessView>,
    last: Option<u64>,
    k: (Seq<char>, Seq<char>, Seq<char>, Seq<char>),
)
    requires
        window_wf(w),
        !knows(w, k),
        forall|j: int| 0 <= j < w.batch.len() ==> pattern_key(#[trigger] w.batch[j]) != k,
        forall|j: int|
            0 <= j < fresh.len() ==> pattern_hash(pattern_key(#[trigger] fresh[j]))
                != pattern_hash(k),
    ensures
        !knows(meet_all(w, fresh, last), k),
        forall|j: int|
            0 <= j < meet_all(w, fresh, last).batch.len() ==> pattern_key(
                #[trigger] meet_all(w, fresh, last).batch[j],
            ) != k,
    decreases fresh.len(),
{
    if fresh.len() > 0 {
        let t = fresh.drop_last();
        let before = meet_all(w, t, last);
        let after = meet_all(w, fresh, last);
        let a = fresh.last();
        let h = pattern_hash(pattern_key(a));
        assert forall|j: int| 0 <= j < t.len() implies pattern_hash(pattern_key(#[trigger] t[j]))
            != pattern_hash(k) by {
            assert(t[j] == fresh[j]);
        }
        lemma_still_unknown(w, t, last, k);
        law_meetings_keep_order(w, t, last);
        assert(fresh[t.len() as int] == a);
        lemma_put_adds_one(before.seen, SEEN_MAX as nat, h, 1u8);
        lemma_slot(before.batch, pattern_key(a));
        assert forall|j: int| 0 <= j < after.batch.len() implies pattern_key(
            #[trigger] after.batch[j],
        ) != k by {
            if j < before.batch.len() {
                assert(pattern_key(before.batch[j]) != k);
            }
        }
    }
}

/// Whether no pattern of a batch has a type that says that its label could not be found.
pub open spec fn all_resolved(batch: Seq<AccessView>) -> bool {
    forall|i: int| 0 <= i < batch.len() ==> !is_sentinel((#[trigger] batch[i]).tcontext_type)
}

/// Meetings with objects whose label was found bring in no object whose label was not.
pub proof fn law_meetings_are_resolved(w: Window, fresh: Seq<AccessView>, last: Option<u64>)
    requires
        all_resolved(w.batch),
        all_resolved(fresh),
    ensures
        all_resolved(meet_all(w, fresh, last).batch),
    decreases fresh.len(),
{
    if fresh.len() > 0 {
        let t = fresh.drop_last();
        assert forall|i: int| 0 <= i < t.len() implies !is_sentinel(
            (#[trigger] t[i]).tcontext_type,
        ) by {
            assert(t[i] == fresh[i]);
        }
        law_meetings_are_resolved(w, t, last);
        let before = meet_all(w, t, last);
        let after = meet_all(w, fresh, last).batch;
        assert(!is_sentinel(fresh[t.len() as int].tcontext_type));
        lemma_slot(before.batch, pattern_key(fresh.last()));
        assert forall|i: int| 0 <= i < after.len() implies !is_sentinel(
            (#[trigger] after[i]).tcontext_type,
        ) by {
            if i < before.batch.len() {
                assert(!is_sentinel(before.batch[i].tcontext_type));
            }
        }
    }
}

/// What is handed on is never empty, is all that was met, with the denials among it, and leaves
/// an empty window without denials; after any input a window is not full.
pub proof fn law_handing_on(w: Window)
    ensures
        after_input(w).1.batch.len() < BATCH_MAX,
        after_input(w).0 matches Some(b) ==> b == batch_of(w) && b.events.len() >= BATCH_MAX
            && after_input(w).1 == next_window(w),
        after_input(w).0 is None ==> after_input(w).1 == w,
        after_time(w).1.batch.len() == 0,
        after_time(w).0 matches Some(b) ==> b == batch_of(w) && b.events.len() > 0
            && after_time(w).1 == next_window(w),
        after_time(w).0 is None ==> after_time(w).1 == w,
{
}

} // verus!
