//! What rules are made of accesses, what they grant, and how they are written.

use crate::approval::{law_added_rules_grant_the_same, with_rule, with_rules};
use crate::common::userspace::{AccessView, RuleView};
use crate::grouping::{allowed_by, granted, groups_of, groups_wf, is_about, Grant, Group};
use crate::number::decimal;
use crate::order::{before, strictly_sorted};
use crate::selinux::{
    bracketed_all, cil_of, grants_of, group_of, groups_in, is_merged, law_merged_rules_stay,
    law_module_allows_what_rules_grant, rule_grants, statement, statements,
};
use crate::simple_gen::{
    law_allows_just_what_was_observed, law_rules_are_merged, need_of, rules_for, simple_answer,
};
use crate::text::joined;
use vstd::prelude::*;

verus! {

/// Whether some rule has these types, this class and this permission.
pub open spec fn some_rule_has(
    rules: Seq<RuleView>,
    source: Seq<char>,
    target: Seq<char>,
    class: Seq<char>,
    perm: Seq<char>,
) -> bool {
    exists|i: int|
        0 <= i < rules.len() && (#[trigger] rules[i]).source_type == source && rules[i].target_type
            == target && rules[i].tclass == class && rules[i].perms.contains(perm)
}

proof fn lemma_some_rule(
    rules: Seq<RuleView>,
    source: Seq<char>,
    target: Seq<char>,
    class: Seq<char>,
    perm: Seq<char>,
)
    ensures
        some_rule_has(rules, source, target, class, perm) <==> allowed_by(
            rules,
            Grant { source, target, class, perm },
        ),
{
    let x = Grant { source, target, class, perm };
    if allowed_by(rules, x) {
        let i = choose|i: int|
            0 <= i < rules.len() && (#[trigger] rules[i]).source_type == x.source
                && rules[i].target_type == x.target && rules[i].tclass == x.class
                && rules[i].perms.contains(x.perm);
        assert(rules[i].source_type == source);
    }
    if some_rule_has(rules, source, target, class, perm) {
        let i = choose|i: int|
            0 <= i < rules.len() && (#[trigger] rules[i]).source_type == source
                && rules[i].target_type == target && rules[i].tclass == class
                && rules[i].perms.contains(perm);
        assert(rules[i].source_type == x.source);
    }
}

// ---- Rules out of accesses ----

/// Every access whose subject is not of the type `unknown_t` and whose object is of none of the
/// types `unknown_t`, `generic_t` and `unresolved_t` is granted by some rule, whatever else is
/// known of it; any other one is left out.
pub proof fn law_every_access_is_granted(events: Seq<AccessView>, i: int)
    requires
        0 <= i < events.len(),
        events[i].scontext_type != "unknown_t"@,
        events[i].tcontext_type != "unknown_t"@,
        events[i].tcontext_type != "generic_t"@,
        events[i].tcontext_type != "unresolved_t"@,
    ensures
        some_rule_has(
            simple_answer(events).allow_rules,
            events[i].scontext_type,
            events[i].tcontext_type,
            events[i].tclass,
            events[i].perm,
        ),
{
    let e = events[i];
    let x = Grant {
        source: e.scontext_type,
        target: e.tcontext_type,
        class: e.tclass,
        perm: e.perm,
    };
    law_allows_just_what_was_observed(events, x);
    assert(need_of(events[i]) == x);
    lemma_some_rule(rules_for(events), x.source, x.target, x.class, x.perm);
}

/// A permission that some rule grants is that of an access between the same two types, of the same
/// class; the subject is not of the type `unknown_t`, and the object of none of the types
/// `unknown_t`, `generic_t` and `unresolved_t`.
pub proof fn law_nothing_else_is_granted(events: Seq<AccessView>, i: int, p: int)
    requires
        0 <= i < simple_answer(events).allow_rules.len(),
        0 <= p < simple_answer(events).allow_rules[i].perms.len(),
    ensures
        ({
            let r = simple_answer(events).allow_rules[i];
            &&& r.source_type != "unknown_t"@ && r.target_type != "unknown_t"@ && r.target_type
                != "generic_t"@ && r.target_type != "unresolved_t"@
            &&& exists|k: int|
                0 <= k < events.len() && (#[trigger] events[k]).scontext_type == r.source_type
                    && events[k].tcontext_type == r.target_type && events[k].tclass == r.tclass
                    && events[k].perm == r.perms[p]
        }),
{
    let r = rules_for(events)[i];
    let x = Grant {
        source: r.source_type,
        target: r.target_type,
        class: r.tclass,
        perm: r.perms[p],
    };
    assert(r.perms.contains(r.perms[p]));
    assert(allowed_by(rules_for(events), x));
    law_allows_just_what_was_observed(events, x);
    let k = choose|k: int|
        0 <= k < events.len() && crate::simple_gen::is_usable(#[trigger] events[k]) && need_of(
            events[k],
        ) == x;
    assert(events[k].scontext_type == r.source_type);
}

/// There is one rule for each two types and class; its permissions are in ascending order, each of
/// them once, and it has at least one.
pub proof fn law_one_rule_for_each(events: Seq<AccessView>, i: int)
    requires
        0 <= i < simple_answer(events).allow_rules.len(),
    ensures
        ({
            let rules = simple_answer(events).allow_rules;
            let a = rules[i];
            &&& forall|j: int|
                0 <= j < rules.len() && j != i ==> a.source_type != (#[trigger] rules[j]).source_type
                    || a.target_type != rules[j].target_type || a.tclass != rules[j].tclass
            &&& forall|p: int, q: int|
                0 <= p < q < a.perms.len() ==> before(#[trigger] a.perms[p], #[trigger] a.perms[q])
            &&& a.perms.len() > 0
        }),
{
    law_rules_are_merged(events, i);
    assert(strictly_sorted(rules_for(events)[i].perms));
}

/// What an answer without a language model says besides its rules.
pub proof fn law_words_of_the_answer(events: Seq<AccessView>)
    ensures
        ({
            let x = simple_answer(events);
            &&& x.alerts.len() == 0
            &&& x.confidence_bits == 0x3ff0_0000_0000_0000
            &&& x.summary == Some(
                "SimplePolicyGenerator: "@ + decimal(x.allow_rules.len()) + " rules from "@ + decimal(
                    events.len(),
                ) + " events (no LLM)"@,
            )
            &&& forall|i: int|
                0 <= i < x.allow_rules.len() ==> (#[trigger] x.allow_rules[i]).rationale
                    == "observed from "@ + x.allow_rules[i].source_type
        }),
{
}

// ---- Modules ----

/// A rule whose permissions are in ascending order is written as one line: `allow`, its types, its
/// class and, in parentheses, each of its permissions in parentheses, with a space between them.
pub proof fn law_one_rule_is_one_line(r: RuleView, perms: Seq<Seq<char>>)
    requires
        r.perms.len() > 0,
        forall|p: int, q: int|
            0 <= p < q < r.perms.len() ==> before(#[trigger] r.perms[p], #[trigger] r.perms[q]),
        perms.len() == r.perms.len(),
        forall|p: int| 0 <= p < perms.len() ==> #[trigger] perms[p] == "("@ + r.perms[p] + ")"@,
    ensures
        cil_of(seq![r]) == "(allow "@ + r.source_type + " "@ + r.target_type + " ("@ + r.tclass
            + " ("@ + joined(perms, " "@) + ")))\n"@,
{
    let rules = seq![r];
    assert(strictly_sorted(r.perms));
    assert(is_merged(rules));
    law_merged_rules_stay(rules);
    let groups = groups_in(rules);
    assert(groups.drop_last() =~= Seq::<Group>::empty());
    assert(groups.last() == group_of(r));
    assert(statements(groups.drop_last()) =~= Seq::<char>::empty());
    assert(perms =~= bracketed_all(r.perms));
    assert(statements(groups) =~= statement(group_of(r)));
}

/// Rules of which no two are about the same types and class are written one after the other.
pub proof fn law_rules_are_written_in_order(rules: Seq<RuleView>, r: RuleView)
    requires
        forall|i: int, j: int|
            0 <= i < j <= rules.len() ==> {
                ||| (#[trigger] rules.push(r)[i]).source_type != (#[trigger] rules.push(
                    r,
                )[j]).source_type
                ||| rules.push(r)[i].target_type != rules.push(r)[j].target_type
                ||| rules.push(r)[i].tclass != rules.push(r)[j].tclass
            },
        forall|i: int|
            0 <= i <= rules.len() ==> strictly_sorted((#[trigger] rules.push(r)[i]).perms)
                && rules.push(r)[i].perms.len() > 0,
    ensures
        cil_of(rules.push(r)) == cil_of(rules) + cil_of(seq![r]),
        cil_of(Seq::empty()) == Seq::<char>::empty(),
{
    let all = rules.push(r);
    assert(is_merged(all));
    assert forall|i: int, j: int| 0 <= i < j < rules.len() implies {
        ||| (#[trigger] rules[i]).source_type != (#[trigger] rules[j]).source_type
        ||| rules[i].target_type != rules[j].target_type
        ||| rules[i].tclass != rules[j].tclass
    } by {
        assert(all[i] == rules[i] && all[j] == rules[j]);
    }
    assert forall|i: int| 0 <= i < rules.len() implies strictly_sorted((#[trigger] rules[i]).perms)
        && rules[i].perms.len() > 0 by {
        assert(all[i] == rules[i]);
    }
    assert(is_merged(rules));
    assert(all[rules.len() as int] == r);
    assert(is_merged(seq![r]));
    law_merged_rules_stay(all);
    law_merged_rules_stay(rules);
    law_merged_rules_stay(seq![r]);
    assert(groups_in(all).drop_last() =~= groups_in(rules));
    assert(groups_in(all).last() == group_of(r));
    let one = groups_in(seq![r]);
    assert(one.drop_last() =~= Seq::<Group>::empty());
    assert(statements(one.drop_last()) =~= Seq::<char>::empty());
    assert(statements(one) =~= statement(group_of(r)));
    assert(cil_of(all) =~= cil_of(rules) + cil_of(seq![r]));
    assert(rule_grants(Seq::<RuleView>::empty()) =~= Seq::<Grant>::empty());
}

/// The lines of a module grant just what some rule grants: rules for the same types and class are
/// written as one line, with each of their permissions once, in ascending order.
pub proof fn law_lines_grant_what_rules_grant(
    rules: Seq<RuleView>,
    source: Seq<char>,
    target: Seq<char>,
    class: Seq<char>,
    perm: Seq<char>,
)
    ensures
        ({
            let lines = groups_of(rule_grants(rules));
            &&& cil_of(rules) == statements(lines)
            &&& some_rule_has(rules, source, target, class, perm) <==> exists|i: int|
                0 <= i < lines.len() && (#[trigger] lines[i]).source == source && lines[i].target
                    == target && lines[i].class == class && lines[i].perms.contains(perm)
            &&& forall|i: int, j: int|
                0 <= i < j < lines.len() ==> (#[trigger] lines[i]).source != (
                #[trigger] lines[j]).source || lines[i].target != lines[j].target || lines[i].class
                    != lines[j].class
            &&& forall|i: int, p: int, q: int|
                0 <= i < lines.len() && 0 <= p < q < lines[i].perms.len() ==> before(
                    #[trigger] lines[i].perms[p],
                    #[trigger] lines[i].perms[q],
                )
        }),
{
    let x = Grant { source, target, class, perm };
    let lines = groups_of(rule_grants(rules));
    law_module_allows_what_rules_grant(rules, x);
    lemma_some_rule(rules, source, target, class, perm);
    assert(groups_wf(lines));
    if granted(lines, x) {
        let i = choose|i: int|
            0 <= i < lines.len() && is_about(#[trigger] lines[i], x) && lines[i].perms.contains(
                x.perm,
            );
        assert(lines[i].source == source);
    }
    if exists|i: int|
        0 <= i < lines.len() && (#[trigger] lines[i]).source == source && lines[i].target == target
            && lines[i].class == class && lines[i].perms.contains(perm) {
        let i = choose|i: int|
            0 <= i < lines.len() && (#[trigger] lines[i]).source == source && lines[i].target
                == target && lines[i].class == class && lines[i].perms.contains(perm);
        assert(is_about(lines[i], x));
    }
    assert forall|i: int, p: int, q: int|
        0 <= i < lines.len() && 0 <= p < q < lines[i].perms.len() implies before(
        #[trigger] lines[i].perms[p],
        #[trigger] lines[i].perms[q],
    ) by {
        assert(strictly_sorted(lines[i].perms));
    }
}

/// A line of a module, and several of them.
pub proof fn law_lines(lines: Seq<Group>, g: Group, perms: Seq<Seq<char>>)
    requires
        perms.len() == g.perms.len(),
        forall|p: int| 0 <= p < perms.len() ==> #[trigger] perms[p] == "("@ + g.perms[p] + ")"@,
    ensures
        statements(Seq::empty()) == Seq::<char>::empty(),
        statements(lines.push(g)) == statements(lines) + ("(allow "@ + g.source + " "@ + g.target
            + " ("@ + g.class + " ("@ + joined(perms, " "@) + ")))\n"@),
{
    assert(perms =~= bracketed_all(g.perms));
    assert(lines.push(g).drop_last() =~= lines);
}

// ---- Approved rules ----

/// Rules that are added grant what some rule of theirs or of the ones before grants, and no more.
/// The ones before stay in front; a rule that grants something more is added as it is, and one that
/// does not is left out.
pub proof fn law_approved_rules(
    rules: Seq<RuleView>,
    r: RuleView,
    source: Seq<char>,
    target: Seq<char>,
    class: Seq<char>,
    perm: Seq<char>,
)
    ensures
        ({
            let after = with_rules(rules, seq![r]);
            &&& some_rule_has(after, source, target, class, perm) <==> some_rule_has(
                rules,
                source,
                target,
                class,
                perm,
            ) || source == r.source_type && target == r.target_type && class == r.tclass
                && r.perms.contains(perm)
            &&& after == rules || after == rules.push(r)
            &&& after == rules <==> forall|p: int|
                0 <= p < r.perms.len() ==> some_rule_has(
                    rules,
                    r.source_type,
                    r.target_type,
                    r.tclass,
                    #[trigger] r.perms[p],
                )
        }),
{
    let one = seq![r];
    let after = with_rules(rules, one);
    let x = Grant { source, target, class, perm };
    assert(one.drop_last() =~= Seq::<RuleView>::empty());
    assert(with_rules(rules, Seq::empty()) == rules);
    assert(after == with_rule(rules, r));
    law_added_rules_grant_the_same(rules, one, x);
    lemma_some_rule(after, source, target, class, perm);
    lemma_some_rule(rules, source, target, class, perm);
    lemma_some_rule(one, source, target, class, perm);
    assert(one[0] == r);
    if forall|p: int|
        0 <= p < r.perms.len() ==> some_rule_has(
            rules,
            r.source_type,
            r.target_type,
            r.tclass,
            #[trigger] r.perms[p],
        ) {
        assert forall|p: int| 0 <= p < r.perms.len() implies allowed_by(
            rules,
            #[trigger] grants_of(r)[p],
        ) by {
            lemma_some_rule(rules, r.source_type, r.target_type, r.tclass, r.perms[p]);
            assert(some_rule_has(rules, r.source_type, r.target_type, r.tclass, r.perms[p]));
        }
    }
    if after == rules {
        assert forall|p: int| 0 <= p < r.perms.len() implies some_rule_has(
            rules,
            r.source_type,
            r.target_type,
            r.tclass,
            #[trigger] r.perms[p],
        ) by {
            let y = Grant {
                source: r.source_type,
                target: r.target_type,
                class: r.tclass,
                perm: r.perms[p],
            };
            law_added_rules_grant_the_same(rules, one, y);
            assert(r.perms.contains(r.perms[p]));
            lemma_some_rule(one, y.source, y.target, y.class, y.perm);
            lemma_some_rule(rules, y.source, y.target, y.class, y.perm);
            assert(allowed_by(one, y));
        }
    }
}

/// Several rules are added one after the other.
pub proof fn law_rules_are_added_in_order(rules: Seq<RuleView>, more: Seq<RuleView>, r: RuleView)
    ensures
        with_rules(rules, Seq::empty()) == rules,
        with_rules(rules, more.push(r)) == with_rules(with_rules(rules, more), seq![r]),
{
    assert(more.push(r).drop_last() =~= more);
    assert(seq![r].drop_last() =~= Seq::<RuleView>::empty());
    let mid = with_rules(rules, more);
    assert(with_rules(mid, Seq::empty()) == mid);
}

} // verus!
