//! What is asked, answered, installed and remembered.

use crate::common::userspace::{AccessView, BatchView, LlmTask, ResponseView, RuleView};
use crate::double::{
    is_nan, lemma_magnitude_by_bits, lemma_magnitude_increases, less, magnitude, magnitude_bits,
};
use crate::llm::{
    denied_types, failure_text, is_success, law_known_types, next, no_rules, reported, request_of,
    reviewed, said, types_in, Command, Failure, Occurrence, Outcome, Progress, Standing,
};
use crate::lru_model::{
    law_lru_put, law_lru_touch, lemma_found_stands, lru_lookup, lru_put, lru_touch, lru_wf,
    lru_without,
};
use crate::number::decimal;
use crate::resolver::{context_of, resolved};
use crate::selinux::{
    after_attempt, policy_error_text, reports, succeeded, to_remove, CommandResult, PolicyError,
};
use crate::state_machine::{enforced, initial, step, Event, Phase, State};
use crate::store::{committed, counted_seconds, module_name_of, rolled_back, Module, StoreError};
use crate::validator::{first_refusal, refusal_text, Refusal};
use vstd::prelude::*;

verus! {

// ---- Confidence ----

/// Doubles are compared by their bits: what is no number is less than nothing; of numbers without a
/// sign the one with the smaller bits is less, of numbers with a sign the one with the larger bits;
/// and a number with a sign is less than one without, unless both are zero.
pub proof fn law_less(a: u64, b: u64)
    ensures
        ({
            let x = a % 0x8000_0000_0000_0000;
            let y = b % 0x8000_0000_0000_0000;
            let top: u64 = 0x7ff0_0000_0000_0000;
            if x > top || y > top {
                !less(a, b)
            } else if a < 0x8000_0000_0000_0000 {
                less(a, b) <==> b < 0x8000_0000_0000_0000 && a < b
            } else if b < 0x8000_0000_0000_0000 {
                less(a, b) <==> x > 0 || b > 0
            } else {
                less(a, b) <==> y < x
            }
        }),
{
    let x = magnitude_bits(a);
    let y = magnitude_bits(b);
    lemma_nan(a);
    lemma_nan(b);
    if x < y {
        lemma_magnitude_increases(a, b);
    } else if y < x {
        lemma_magnitude_increases(b, a);
    }
    lemma_magnitude_by_bits(a, b);
    lemma_magnitude_by_bits(b, a);
    assert(magnitude(0) == 0);
    lemma_magnitude_by_bits(a, 0);
    lemma_magnitude_by_bits(b, 0);
}

proof fn lemma_nan(a: u64)
    ensures
        is_nan(a) <==> a % 0x8000_0000_0000_0000 > 0x7ff0_0000_0000_0000,
{
    let x = a % 0x8000_0000_0000_0000;
    assert(x < 0x8000_0000_0000_0000);
    assert(x > 0x7ff0_0000_0000_0000 <==> x / 0x10_0000_0000_0000 == 2047 && x
        % 0x10_0000_0000_0000 != 0) by (bit_vector)
        requires
            x < 0x8000_0000_0000_0000,
    ;
}

// ---- Requests and answers ----

/// What is asked about a batch: nothing where it is empty; a refinement, with the denials of the
/// batch and the rules approved so far, where a denial came in it; and a new policy otherwise. The
/// domain is the type of the first subject, and all access patterns are named.
pub proof fn law_request(b: BatchView, approved: Seq<RuleView>)
    ensures
        b.events.len() == 0 <==> request_of(b, approved) is None,
        request_of(b, approved) matches Some(r) ==> {
            &&& r.task == LlmTask::RefinePolicy <==> b.has_denials
            &&& r.task == LlmTask::GenerateMinimalPolicy <==> !b.has_denials
            &&& r.workload_domain == b.events[0].scontext_type
            &&& r.workload_type is None
            &&& r.observed_window_s == 60
            &&& r.normalized_events == b.events
            &&& b.has_denials ==> r.drift_denials == b.denials && r.current_rules == approved
            &&& !b.has_denials ==> r.drift_denials.len() == 0 && r.current_rules.len() == 0
        },
{
}

/// What an answer must name: types that some access pattern of the batch has, as subject or as
/// object; and what it must not: seven types.
pub proof fn law_types_of_an_answer(events: Seq<AccessView>, t: Seq<char>)
    ensures
        types_in(events).contains(t) <==> exists|i: int|
            0 <= i < events.len() && ((#[trigger] events[i]).scontext_type == t
                || events[i].tcontext_type == t),
        denied_types().contains(t) <==> t == "kernel_t"@ || t == "init_t"@ || t == "unconfined_t"@
            || t == "unlabeled_t"@ || t == "unknown_t"@ || t == "unresolved_t"@ || t == "generic_t"@,
{
    law_known_types(events, t);
}

/// What is done with an answer: held back where its confidence is less than seven tenths; refused
/// for the first rule that may not be installed; otherwise installed, where it has rules.
pub proof fn law_review(answer: ResponseView, events: Seq<AccessView>)
    ensures
        ({
            let why = first_refusal(answer.allow_rules, types_in(events), denied_types());
            let done = reviewed(answer, events);
            if less(answer.confidence_bits, 0x3fe6_6666_6666_6666) {
                done is LowConfidence
            } else if why is Some {
                done == Outcome::Refused(why->0)
            } else if answer.allow_rules.len() == 0 {
                done is NothingToInstall
            } else {
                done is Install
            }
        }),
{
}

/// What the loop does. A batch asks, whatever the loop was waiting for. An answer to what was asked
/// is reviewed, and its rules are installed, held back, refused or none; an answer to nothing, and
/// no answer, do nothing. When rules were being installed, they are approved where that worked, and
/// the module is removed where it did not; otherwise nothing is done.
pub proof fn law_loop(p: Progress, o: Occurrence)
    ensures
        ({
            let (command, after) = next(p, o);
            match o {
                Occurrence::Batch(b) => {
                    &&& after.approved == p.approved
                    &&& b.events.len() == 0 ==> command is Wait && after.stage is Idle
                    &&& b.events.len() > 0 ==> after.stage == Standing::Asked(b.events)
                    &&& b.events.len() > 0 && b.has_denials ==> command == Command::Refine(
                        request_of(b, p.approved)->0,
                    )
                    &&& b.events.len() > 0 && !b.has_denials ==> command == Command::Generate(
                        request_of(b, p.approved)->0,
                    )
                },
                Occurrence::Answer(a) => {
                    &&& after.approved == p.approved
                    &&& match (a, p.stage) {
                        (Some(x), Standing::Asked(events)) => match reviewed(x, events) {
                            Outcome::LowConfidence => command is HoldBack && after.stage is Idle,
                            Outcome::Refused(why) => command == Command::Refuse(why) && after.stage
                                is Idle,
                            Outcome::NothingToInstall => command is Wait && after.stage is Idle,
                            Outcome::Install => command == Command::Install(x.allow_rules)
                                && after.stage == Standing::Installing(x.allow_rules),
                        },
                        _ => command is Wait && after.stage is Idle,
                    }
                },
                Occurrence::Installed(module, success) => {
                    &&& after.stage is Idle
                    &&& p.stage is Installing && !success ==> command == Command::Remove(module)
                        && after.approved == p.approved
                    &&& !(p.stage is Installing) ==> command is Wait && after.approved == p.approved
                    &&& success ==> command is Wait
                },
            }
        }),
        reported(o) == (match o {
            Occurrence::Answer(Some(x)) => x.alerts,
            _ => Seq::empty(),
        }),
{
}

/// What the service replied: the words of the model where the status is one of success and they are
/// at their place, and otherwise the failure with its reason.
pub proof fn law_reply(
    status: u16,
    text: Seq<char>,
    found: Result<Option<Seq<char>>, Seq<char>>,
)
    ensures
        is_success(status) <==> status / 100 == 2,
        said(status, text, found) == (if status / 100 != 2 {
            Err::<Seq<char>, Failure>(
                Failure::Api("HTTP "@ + decimal(status as nat) + ": "@ + text),
            )
        } else {
            match found {
                Ok(Some(words)) => Ok(words),
                Ok(None) => Err(Failure::Serialization("missing choices[0].message.content"@)),
                Err(why) => Err(Failure::Serialization(why)),
            }
        }),
{
}

/// The answer of a generator that makes no rules.
pub proof fn law_no_rules()
    ensures
        no_rules().allow_rules.len() == 0,
        no_rules().alerts.len() == 0,
        no_rules().confidence_bits == 0x3ff0_0000_0000_0000,
        no_rules().summary == Some("no-op generator — no LLM backend configured"@),
{
}

// ---- Words ----

/// The words of refusals and failures hold what they are about.
pub proof fn law_words(s: Seq<char>, t: Seq<char>, e: Refusal)
    ensures
        refusal_text(Refusal::WildcardSource(s)) == "wildcard in source_type: "@ + s,
        refusal_text(Refusal::WildcardTarget(s)) == "wildcard in target_type: "@ + s,
        refusal_text(Refusal::WildcardClass) == "wildcard in tclass"@,
        refusal_text(Refusal::WildcardPerm(s)) == "wildcard in perm: "@ + s,
        refusal_text(Refusal::UnconfinedTarget) == "target_type must not be unconfined_t"@,
        refusal_text(Refusal::UnknownType(s)) == "unknown SELinux type: "@ + s,
        refusal_text(Refusal::DeniedSource(s)) == "source_type "@ + s + " is in deny list"@,
        refusal_text(Refusal::DeniedTarget(s)) == "target_type "@ + s + " is in deny list"@,
        refusal_text(Refusal::EmptyPerms) == "perms list is empty"@,
        refusal_text(Refusal::UnknownClass(s)) == "unknown SELinux class: "@ + s,
        refusal_text(Refusal::UnknownPerm { class: s, perm: t }) == "unknown perm '"@ + t
            + "' for class '"@ + s + "'"@,
        failure_text(Failure::Http(s)) == "HTTP error: "@ + s,
        failure_text(Failure::Api(s)) == "API error: "@ + s,
        failure_text(Failure::Serialization(s)) == "serialization error: "@ + s,
        failure_text(Failure::Validation(e)) == "validation error: "@ + refusal_text(e),
{
}

/// The words of what goes wrong with an installation.
pub proof fn law_words_of_installing(text: String)
    ensures
        policy_error_text(PolicyError::EmptyRules) == "empty rule set"@,
        policy_error_text(PolicyError::Io(text)) == "I/O error: "@ + text@,
        policy_error_text(PolicyError::InstallFailed(text)) == "semodule install failed: "@ + text@,
        policy_error_text(PolicyError::Timeout) == "semodule timed out"@,
        policy_error_text(PolicyError::Store(StoreError::InsufficientHistory)) == "store error: "@
            + "insufficient history for rollback"@,
{
}

// ---- Versions ----

/// A history after one more installation: that module last, and before it as many of the ones
/// before, the latest of them, as there is room for.
pub proof fn law_history(h: Seq<Module>, max: nat, m: Module, j: int)
    ensures
        ({
            let after = committed(h, max, m);
            &&& max == 0 ==> after.len() == 0
            &&& h.len() < max ==> after == h.push(m)
            &&& 0 < max <= h.len() ==> after.len() == max && after.last() == m
            &&& 0 < max <= h.len() && 0 <= j < max - 1 ==> after[j] == h[h.len() - max + 1 + j]
        }),
{
}

/// Going back takes out the module installed last, and only where another one is left.
pub proof fn law_going_back(h: Seq<Module>, m: Module)
    ensures
        h.len() < 2 ==> rolled_back(h) is None,
        h.len() >= 1 ==> rolled_back(h.push(m)) == Some((m, h)),
{
    assert(h.push(m).drop_last() =~= h);
}

/// What an installation leaves: the module in the history where the command ended with success, and
/// the history as it was otherwise.
pub proof fn law_installing(
    h: Seq<Module>,
    max: nat,
    m: Module,
    stderr: Vec<u8>,
    reason: String,
    name: Seq<char>,
)
    ensures
        succeeded(Some(CommandResult::Exited { success: true, stderr })),
        !succeeded(Some(CommandResult::Exited { success: false, stderr })),
        !succeeded(Some(CommandResult::Failed(reason))),
        !succeeded(None),
        after_attempt(h, max, m, true) == committed(h, max, m),
        after_attempt(h, max, m, false) == h,
        to_remove(h, name) is None <==> exists|i: int|
            0 <= i < h.len() && (#[trigger] h[i]).version == name,
        to_remove(h, name) matches Some(x) ==> x == name,
{
}

/// What is reported of a command: nothing amiss where it ended with success, what it wrote where it
/// ended without, and the reason where it could not be run.
pub proof fn law_reports(c: CommandResult, r: Result<(), PolicyError>)
    requires
        reports(c, r),
    ensures
        match (c, r) {
            (CommandResult::Exited { success, stderr }, Ok(_)) => success,
            (CommandResult::Exited { success, stderr }, Err(PolicyError::InstallFailed(text))) => {
                !success && text@ == crate::outside::utf8_lossy(stderr@)
            },
            (CommandResult::Failed(reason), Err(PolicyError::Io(text))) => text == reason,
            _ => false,
        },
{
}

/// The name of a module is `autolsm_` and the seconds since the epoch, none before it.
pub proof fn law_module_name(n: u64)
    ensures
        module_name_of(counted_seconds(Some(n))) == "autolsm_"@ + decimal(n as nat),
        module_name_of(counted_seconds(None)) == "autolsm_"@ + decimal(0),
{
}

// ---- States ----

/// What a state machine does. It begins to learn with nothing removed. To learn again keeps what
/// was removed and adds to it, and is refused under enforcement. To enforce sets the version, and
/// clears the flag where learning ends.
pub proof fn law_steps(p: Phase, removed: bool, version: Seq<char>)
    ensures
        initial().enforced is None && !initial().dontaudit_disabled,
        p.enforced is Some ==> step(p, Event::EnterLearning(removed)) == p,
        p.enforced is None ==> step(p, Event::EnterLearning(removed)).enforced is None && (step(
            p,
            Event::EnterLearning(removed),
        ).dontaudit_disabled <==> removed || p.dontaudit_disabled),
        step(p, Event::Enforce(version)).enforced == Some(version),
        p.enforced is None ==> !step(p, Event::Enforce(version)).dontaudit_disabled,
        p.enforced is Some ==> step(p, Event::Enforce(version)).dontaudit_disabled
            == p.dontaudit_disabled,
{
}

/// What a state enforces: nothing while learning, and its version otherwise.
pub proof fn law_enforced(s: State)
    ensures
        s is Learning ==> enforced(s) is None,
        s matches State::Enforcing { version, .. } ==> enforced(s) == Some(version@),
{
}

// ---- What is remembered ----

/// A key is found just where an entry has it, with the value of that entry.
pub proof fn law_lookup<K, V>(entries: Seq<(K, V)>, cap: nat, k: K, v: V)
    requires
        lru_wf(entries, cap),
    ensures
        lru_lookup(entries, k) == Some(v) <==> entries.contains((k, v)),
        lru_lookup(entries, k) is None <==> forall|i: int|
            0 <= i < entries.len() ==> (#[trigger] entries[i]).0 != k,
{
    if lru_lookup(entries, k) is Some {
        lemma_found_stands(entries, k);
    }
    assert forall|i: int| 0 <= i < entries.len() implies lru_lookup(
        entries,
        (#[trigger] entries[i]).0,
    ) == Some(entries[i].1) by {
        lemma_value_is_found(entries, cap, i);
    }
    if entries.contains((k, v)) {
        let i = choose|i: int| 0 <= i < entries.len() && entries[i] == (k, v);
        assert(lru_lookup(entries, entries[i].0) == Some(entries[i].1));
    }
}

proof fn lemma_value_is_found<K, V>(entries: Seq<(K, V)>, cap: nat, i: int)
    requires
        lru_wf(entries, cap),
        0 <= i < entries.len(),
    ensures
        lru_lookup(entries, entries[i].0) == Some(entries[i].1),
    decreases entries.len(),
{
    if i > 0 {
        let t = entries.skip(1);
        assert forall|a: int, b: int| 0 <= a < b < t.len() implies (#[trigger] t[a]).0 != (
        #[trigger] t[b]).0 by {
            assert(entries[a + 1].0 != entries[b + 1].0);
        }
        assert(entries[0].0 != entries[i].0);
        lemma_value_is_found(t, cap, i - 1);
    }
}

/// What is put or looked up stands in front; where a key was absent and there is no room, the last
/// entry leaves.
pub proof fn law_front<K, V>(entries: Seq<(K, V)>, cap: nat, k: K, v: V)
    requires
        lru_wf(entries, cap),
        cap > 0,
    ensures
        lru_put(entries, cap, k, v)[0] == (k, v),
        lru_lookup(entries, k) is None && entries.len() < cap ==> lru_put(entries, cap, k, v) == seq![
            (k, v),
        ] + entries,
        lru_lookup(entries, k) is None && entries.len() == cap ==> lru_put(entries, cap, k, v)
            == seq![(k, v)] + entries.drop_last(),
        lru_lookup(entries, k) is None ==> lru_touch(entries, k) == entries,
        lru_lookup(entries, k) matches Some(x) ==> lru_touch(entries, k)[0] == (k, x),
{
    if lru_lookup(entries, k) is None {
        crate::lru_model::lemma_without_absent(entries, k);
    }
}

/// A key that is put again or looked up leaves its place, and all others stay in their order.
pub proof fn law_place_in_front<K, V>(a: Seq<(K, V)>, k: K, v: V, b: Seq<(K, V)>, cap: nat, new: V)
    requires
        lru_wf(a + seq![(k, v)] + b, cap),
    ensures
        lru_touch(a + seq![(k, v)] + b, k) == seq![(k, v)] + (a + b),
        lru_put(a + seq![(k, v)] + b, cap, k, new) == seq![(k, new)] + (a + b),
{
    let all = a + seq![(k, v)] + b;
    let n = a.len() as int;
    assert(all[n] == (k, v));
    lemma_value_is_found(all, cap, n);
    assert forall|i: int| 0 <= i < a.len() implies (#[trigger] a[i]).0 != k by {
        assert(all[i] == a[i]);
        assert(all[i].0 != all[n].0);
    }
    assert forall|i: int| 0 <= i < b.len() implies (#[trigger] b[i]).0 != k by {
        assert(all[n + 1 + i] == b[i]);
        assert(all[n].0 != all[n + 1 + i].0);
    }
    lemma_none_of_that_key(a, k);
    lemma_none_of_that_key(b, k);
    lemma_without_both(a + seq![(k, v)], b, k);
    lemma_without_both(a, seq![(k, v)], k);
    assert(seq![(k, v)].skip(1) =~= Seq::<(K, V)>::empty());
    assert(lru_without(Seq::<(K, V)>::empty(), k) =~= Seq::<(K, V)>::empty());
    assert(lru_without(seq![(k, v)], k) =~= Seq::<(K, V)>::empty());
    assert(lru_without(all, k) =~= a + b);
}

proof fn lemma_none_of_that_key<K, V>(s: Seq<(K, V)>, k: K)
    requires
        forall|i: int| 0 <= i < s.len() ==> (#[trigger] s[i]).0 != k,
    ensures
        lru_without(s, k) == s,
    decreases s.len(),
{
    if s.len() > 0 {
        let t = s.skip(1);
        assert forall|i: int| 0 <= i < t.len() implies (#[trigger] t[i]).0 != k by {
            assert(t[i] == s[i + 1]);
        }
        lemma_none_of_that_key(t, k);
        assert(seq![s[0]] + t =~= s);
    }
}

proof fn lemma_without_both<K, V>(a: Seq<(K, V)>, b: Seq<(K, V)>, k: K)
    ensures
        lru_without(a + b, k) == lru_without(a, k) + lru_without(b, k),
    decreases a.len(),
{
    if a.len() == 0 {
        assert(a + b =~= b);
        assert(lru_without(a, k) + lru_without(b, k) =~= lru_without(b, k));
    } else {
        assert((a + b).skip(1) =~= a.skip(1) + b);
        lemma_without_both(a.skip(1), b, k);
        assert(seq![a[0]] + (lru_without(a.skip(1), k) + lru_without(b, k)) =~= (seq![a[0]]
            + lru_without(a.skip(1), k)) + lru_without(b, k));
    }
}

/// The context of a process: the remembered one where there is one, and otherwise the one in its
/// attribute file; it is remembered from then on, and the others still are, but for one where there
/// was no room.
pub proof fn law_resolving(
    entries: Seq<(u32, (Seq<char>, Seq<char>))>,
    tgid: u32,
    attr: Option<Seq<char>>,
    other: u32,
)
    requires
        lru_wf(entries, 1000),
    ensures
        ({
            let (found, after) = resolved(entries, tgid, attr);
            &&& lru_lookup(entries, tgid) matches Some(v) ==> found == v
            &&& lru_lookup(entries, tgid) is None ==> found == context_of(attr)
            &&& lru_lookup(after, tgid) == Some(found)
            &&& after.len() > 0 && after[0] == (tgid, found)
            &&& lru_lookup(entries, tgid) is Some ==> after == lru_touch(entries, tgid)
            &&& lru_lookup(entries, tgid) is None ==> after == lru_put(entries, 1000, tgid, found)
            &&& other != tgid && (entries.len() < 1000 || lru_lookup(entries, tgid) is Some)
                ==> lru_lookup(after, other) == lru_lookup(entries, other)
        }),
{
    law_lru_touch(entries, 1000, tgid);
    law_lru_put(entries, 1000, tgid, context_of(attr));
    law_front(entries, 1000, tgid, context_of(attr));
}

} // verus!
