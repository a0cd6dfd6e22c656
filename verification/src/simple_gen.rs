//! A policy generator that allows just what was observed.

use crate::common::userspace::{
    access_views, alert_views, rule_views, AccessView, AllowRule, LlmAlert, LlmRequest,
    LlmResponse, NormalizedAccess, ResponseView, RuleView,
};
use crate::grouping::{
    add_grant, allowed_by, granted, group_views, groups_of, is_about, law_groups_grant_the_same,
    AccessGroup, Grant, Group,
};
use crate::llm::{occurs, LlmError, PolicyGenerator, FULL_CONFIDENCE};
use crate::normalizer::{is_sentinel, is_sentinel_type};
use crate::number::{decimal, to_decimal};
use crate::selinux::{cil_of, groups_in, is_merged, law_merged_rules_stay, statements};
use crate::text::{copy_all, join, same};
use vstd::prelude::*;

verus! {

/// Whether both ends of an access are known well enough for a rule.
pub open spec fn is_usable(e: AccessView) -> bool {
    e.scontext_type != "unknown_t"@ && !is_sentinel(e.tcontext_type)
}

/// What an access pattern needs.
pub open spec fn need_of(e: AccessView) -> Grant {
    Grant { source: e.scontext_type, target: e.tcontext_type, class: e.tclass, perm: e.perm }
}

/// What the usable access patterns of a batch need, in order.
pub open spec fn needs(events: Seq<AccessView>) -> Seq<Grant>
    decreases events.len(),
{
    if events.len() == 0 {
        Seq::empty()
    } else {
        let before = needs(events.drop_last());
        if is_usable(events.last()) {
            before.push(need_of(events.last()))
        } else {
            before
        }
    }
}

/// The rule that grants the permissions of a group.
pub open spec fn rule_for(g: Group) -> RuleView {
    RuleView {
        source_type: g.source,
        target_type: g.target,
        tclass: g.class,
        perms: g.perms,
        rationale: "observed from "@ + g.source,
    }
}

/// The rules for what a batch needs: one for each pair of types and class.
pub open spec fn rules_for(events: Seq<AccessView>) -> Seq<RuleView> {
    let groups = groups_of(needs(events));
    Seq::new(groups.len(), |i: int| rule_for(groups[i]))
}

/// The answer to a request about a batch.
pub open spec fn simple_answer(events: Seq<AccessView>) -> ResponseView {
    ResponseView {
        allow_rules: rules_for(events),
        alerts: Seq::empty(),
        confidence_bits: FULL_CONFIDENCE,
        summary: Some(
            "SimplePolicyGenerator: "@ + decimal(rules_for(events).len()) + " rules from "@
                + decimal(events.len()) + " events (no LLM)"@,
        ),
    }
}

/// What is needed is what some usable access pattern needs.
pub proof fn lemma_needs(events: Seq<AccessView>, x: Grant)
    ensures
        needs(events).contains(x) <==> exists|i: int|
            0 <= i < events.len() && is_usable(#[trigger] events[i]) && need_of(events[i]) == x,
    decreases events.len(),
{
    if events.len() > 0 {
        let t = events.drop_last();
        lemma_needs(t, x);
        let n = needs(events);
        if n.contains(x) {
            let i = choose|i: int| 0 <= i < n.len() && n[i] == x;
            if i < needs(t).len() {
                assert(needs(t)[i] == x);
                let j = choose|j: int|
                    0 <= j < t.len() && is_usable(#[trigger] t[j]) && need_of(t[j]) == x;
                assert(events[j] == t[j]);
            } else {
                assert(events[events.len() - 1] == events.last());
            }
        }
        if exists|i: int|
            0 <= i < events.len() && is_usable(#[trigger] events[i]) && need_of(events[i]) == x {
            let i = choose|i: int|
                0 <= i < events.len() && is_usable(#[trigger] events[i]) && need_of(events[i]) == x;
            if i < t.len() {
                assert(t[i] == events[i]);
                let j = choose|j: int| 0 <= j < needs(t).len() && needs(t)[j] == x;
                assert(n[j] == x);
            } else {
                assert(n[n.len() - 1] == x);
            }
        }
    }
}

/// The rules grant a permission just when it was observed between types that are known: nothing
/// that was observed is missing, and nothing else is allowed.
pub proof fn law_allows_just_what_was_observed(events: Seq<AccessView>, x: Grant)
    ensures
        allowed_by(rules_for(events), x) <==> exists|i: int|
            0 <= i < events.len() && is_usable(#[trigger] events[i]) && need_of(events[i]) == x,
{
    let groups = groups_of(needs(events));
    let rules = rules_for(events);
    law_groups_grant_the_same(needs(events));
    lemma_needs(events, x);
    assert(granted(groups, x) <==> needs(events).contains(x));
    if allowed_by(rules, x) {
        let i = choose|i: int|
            0 <= i < rules.len() && (#[trigger] rules[i]).source_type == x.source
                && rules[i].target_type == x.target && rules[i].tclass == x.class
                && rules[i].perms.contains(x.perm);
        assert(is_about(groups[i], x) && groups[i].perms.contains(x.perm));
    }
    if granted(groups, x) {
        let i = choose|i: int|
            0 <= i < groups.len() && is_about(#[trigger] groups[i], x) && groups[i].perms.contains(
                x.perm,
            );
        assert(rules[i] == rule_for(groups[i]));
    }
}

/// No two rules are about the same types and class; each grants something, in ascending order;
/// and each is about types that occur in the batch and are known.
pub proof fn law_rules_are_merged(events: Seq<AccessView>, i: int)
    requires
        0 <= i < rules_for(events).len(),
    ensures
        rules_for(events)[i].perms.len() > 0,
        crate::order::strictly_sorted(rules_for(events)[i].perms),
        occurs(events, rules_for(events)[i].source_type),
        occurs(events, rules_for(events)[i].target_type),
        rules_for(events)[i].source_type != "unknown_t"@,
        !is_sentinel(rules_for(events)[i].target_type),
        forall|j: int|
            0 <= j < rules_for(events).len() && j != i ==> {
                ||| (#[trigger] rules_for(events)[j]).source_type != rules_for(
                    events,
                )[i].source_type
                ||| rules_for(events)[j].target_type != rules_for(events)[i].target_type
                ||| rules_for(events)[j].tclass != rules_for(events)[i].tclass
            },
{
    let groups = groups_of(needs(events));
    let rules = rules_for(events);
    law_groups_grant_the_same(needs(events));
    assert(crate::order::strictly_sorted(groups[i].perms) && groups[i].perms.len() > 0);
    let x = Grant {
        source: groups[i].source,
        target: groups[i].target,
        class: groups[i].class,
        perm: groups[i].perms[0],
    };
    assert(is_about(groups[i], x) && groups[i].perms.contains(x.perm));
    assert(granted(groups, x));
    lemma_needs(events, x);
    let k = choose|k: int|
        0 <= k < events.len() && is_usable(#[trigger] events[k]) && need_of(events[k]) == x;
    assert(events[k].scontext_type == x.source && events[k].tcontext_type == x.target);
    assert forall|j: int| 0 <= j < rules.len() && j != i implies {
        ||| (#[trigger] rules[j]).source_type != rules[i].source_type
        ||| rules[j].target_type != rules[i].target_type
        ||| rules[j].tclass != rules[i].tclass
    } by {
        let (a, b) = if i < j {
            (i, j)
        } else {
            (j, i)
        };
        assert(groups[a].source != groups[b].source || groups[a].target != groups[b].target
            || groups[a].class != groups[b].class);
    }
}

/// The rules become one statement each in the module that is made of them.
pub proof fn law_rules_are_statements(events: Seq<AccessView>)
    ensures
        is_merged(rules_for(events)),
        cil_of(rules_for(events)) == statements(groups_of(needs(events))),
{
    let groups = groups_of(needs(events));
    let rules = rules_for(events);
    law_groups_grant_the_same(needs(events));
    assert forall|i: int, j: int| 0 <= i < j < rules.len() implies {
        ||| (#[trigger] rules[i]).source_type != (#[trigger] rules[j]).source_type
        ||| rules[i].target_type != rules[j].target_type
        ||| rules[i].tclass != rules[j].tclass
    } by {
        assert(groups[i].source != groups[j].source || groups[i].target != groups[j].target
            || groups[i].class != groups[j].class);
    }
    assert forall|i: int| 0 <= i < rules.len() implies crate::order::strictly_sorted(
        (#[trigger] rules[i]).perms,
    ) && rules[i].perms.len() > 0 by {
        assert(crate::order::strictly_sorted(groups[i].perms));
    }
    law_merged_rules_stay(rules);
    assert(groups_in(rules) =~= groups);
}

/// A generator that allows just what was observed, without a language model.
///
/// Accesses between types that are not known well enough are left out. Whether an access is
/// legitimate it cannot tell.
pub struct SimplePolicyGenerator;

/// What the usable access patterns of a batch need, gathered.
fn gather(events: &Vec<NormalizedAccess>) -> (groups: Vec<AccessGroup>)
    ensures
        group_views(groups@) == groups_of(needs(access_views(events@))),
{
    let ghost all = access_views(events@);
    let mut groups: Vec<AccessGroup> = Vec::new();
    let mut i: usize = 0;
    assert(group_views(groups@) =~= groups_of(needs(all.take(0))));
    while i < events.len()
        invariant
            i <= events@.len(),
            all == access_views(events@),
            group_views(groups@) == groups_of(needs(all.take(i as int))),
        decreases events@.len() - i,
    {
        let e = &events[i];
        proof {
            let n = needs(all.take(i as int));
            assert(all.take(i + 1).drop_last() =~= all.take(i as int));
            assert(all.take(i + 1).last() == e@);
            assert(n.push(need_of(e@)).drop_last() =~= n);
        }
        if !same(e.scontext_type.as_str(), "unknown_t") && !is_sentinel_type(
            e.tcontext_type.as_str(),
        ) {
            add_grant(
                &mut groups,
                e.scontext_type.as_str(),
                e.tcontext_type.as_str(),
                e.tclass.as_str(),
                e.perm.as_str(),
            );
        }
        i = i + 1;
    }
    assert(all.take(i as int) =~= all);
    groups
}

impl PolicyGenerator for SimplePolicyGenerator {
    fn generate(&self, req: &LlmRequest) -> (r: Result<LlmResponse, LlmError>)
        ensures
            r matches Ok(x) && x@ == simple_answer(req@.normalized_events),
    {
        let ghost all = access_views(req.normalized_events@);
        let groups = gather(&req.normalized_events);
        let mut rules: Vec<AllowRule> = Vec::new();
        let mut i: usize = 0;
        while i < groups.len()
            invariant
                i <= groups@.len(),
                group_views(groups@) == groups_of(needs(all)),
                rules@.len() == i,
                forall|j: int| 0 <= j < i ==> (#[trigger] rules@[j])@ == rules_for(all)[j],
            decreases groups@.len() - i,
        {
            let g = &groups[i];
            assert(groups_of(needs(all))[i as int] == g@);
            let rule = AllowRule {
                source_type: g.source_type.clone(),
                target_type: g.target_type.clone(),
                tclass: g.tclass.clone(),
                perms: copy_all(&g.perms),
                rationale: join("observed from ", g.source_type.as_str()),
            };
            assert(rule@ =~= rules_for(all)[i as int]);
            rules.push(rule);
            i = i + 1;
        }
        assert(group_views(groups@).len() == groups@.len());
        assert(rule_views(rules@) =~= rules_for(all));
        let rule_count = to_decimal(rules.len() as u64);
        let event_count = to_decimal(req.normalized_events.len() as u64);
        let mut summary = join("SimplePolicyGenerator: ", rule_count.as_str());
        summary.append(" rules from ");
        summary.append(event_count.as_str());
        summary.append(" events (no LLM)");
        let alerts: Vec<LlmAlert> = Vec::new();
        assert(alert_views(alerts@) =~= Seq::empty());
        Ok(
            LlmResponse {
                allow_rules: rules,
                alerts,
                confidence_bits: FULL_CONFIDENCE,
                summary: Some(summary),
            },
        )
    }

    fn refine(&self, req: &LlmRequest) -> (r: Result<LlmResponse, LlmError>)
        ensures
            r matches Ok(x) && x@ == simple_answer(req@.normalized_events),
    {
        self.generate(req)
    }
}

} // verus!
