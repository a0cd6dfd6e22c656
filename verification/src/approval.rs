//! The rules that were installed so far, each permission of them kept once.

use crate::common::userspace::{rule_views, AllowRule, RuleView};
use crate::grouping::{allowed_by, Grant};
use crate::selinux::grants_of;
use crate::text::same;
use vstd::prelude::*;

verus! {

/// Whether all that a rule grants is granted already.
pub open spec fn is_covered(rules: Seq<RuleView>, r: RuleView) -> bool {
    forall|i: int| 0 <= i < r.perms.len() ==> allowed_by(rules, #[trigger] grants_of(r)[i])
}

/// Rules with one more, unless it grants nothing more.
pub open spec fn with_rule(rules: Seq<RuleView>, r: RuleView) -> Seq<RuleView> {
    if is_covered(rules, r) {
        rules
    } else {
        rules.push(r)
    }
}

/// Rules with some more, without those that grant nothing more.
pub open spec fn with_rules(rules: Seq<RuleView>, more: Seq<RuleView>) -> Seq<RuleView>
    decreases more.len(),
{
    if more.len() == 0 {
        rules
    } else {
        with_rule(with_rules(rules, more.drop_last()), more.last())
    }
}

/// Rules that are added grant what they and the ones before grant, and no more.
pub proof fn law_added_rules_grant_the_same(
    rules: Seq<RuleView>,
    more: Seq<RuleView>,
    x: Grant,
)
    ensures
        allowed_by(with_rules(rules, more), x) <==> allowed_by(rules, x) || allowed_by(more, x),
    decreases more.len(),
{
    if more.len() > 0 {
        let t = more.drop_last();
        let r = more.last();
        let before = with_rules(rules, t);
        let after = with_rules(rules, more);
        law_added_rules_grant_the_same(rules, t, x);
        if allowed_by(t, x) {
            let i = choose|i: int|
                0 <= i < t.len() && (#[trigger] t[i]).source_type == x.source && t[i].target_type
                    == x.target && t[i].tclass == x.class && t[i].perms.contains(x.perm);
            assert(more[i] == t[i]);
        }
        if allowed_by(more, x) {
            let i = choose|i: int|
                0 <= i < more.len() && (#[trigger] more[i]).source_type == x.source
                    && more[i].target_type == x.target && more[i].tclass == x.class
                    && more[i].perms.contains(x.perm);
            if i < t.len() {
                assert(t[i] == more[i]);
            } else if is_covered(before, r) {
                let p = choose|p: int| 0 <= p < r.perms.len() && r.perms[p] == x.perm;
                assert(grants_of(r)[p] =~= x);
                assert(allowed_by(before, grants_of(r)[p]));
            } else {
                assert(after[before.len() as int] == r);
            }
        }
        if !is_covered(before, r) {
            if allowed_by(before, x) {
                let i = choose|i: int|
                    0 <= i < before.len() && (#[trigger] before[i]).source_type == x.source
                        && before[i].target_type == x.target && before[i].tclass == x.class
                        && before[i].perms.contains(x.perm);
                assert(after[i] == before[i]);
            }
            if allowed_by(after, x) {
                let i = choose|i: int|
                    0 <= i < after.len() && (#[trigger] after[i]).source_type == x.source
                        && after[i].target_type == x.target && after[i].tclass == x.class
                        && after[i].perms.contains(x.perm);
                if i < before.len() {
                    assert(before[i] == after[i]);
                } else {
                    assert(more[more.len() - 1] == r);
                }
            }
        }
    }
}

/// Whether some rule grants a permission.
fn grants(rules: &Vec<AllowRule>, source: &str, target: &str, class: &str, perm: &str) -> (r: bool)
    ensures
        r == allowed_by(
            rule_views(rules@),
            (Grant { source: source@, target: target@, class: class@, perm: perm@ }),
        ),
{
    let ghost all = rule_views(rules@);
    let mut i: usize = 0;
    while i < rules.len()
        invariant
            i <= rules@.len(),
            all == rule_views(rules@),
            forall|j: int|
                0 <= j < i ==> !((#[trigger] all[j]).source_type == source@ && all[j].target_type
                    == target@ && all[j].tclass == class@ && all[j].perms.contains(perm@)),
        decreases rules@.len() - i,
    {
        let rule = &rules[i];
        assert(all[i as int] == rule@);
        if same(rule.source_type.as_str(), source) && same(rule.target_type.as_str(), target)
            && same(rule.tclass.as_str(), class) {
            let mut p: usize = 0;
            while p < rule.perms.len()
                invariant
                    p <= rule.perms@.len(),
                    i < rules@.len(),
                    all == rule_views(rules@),
                    all[i as int] == rule@,
                    rule@.source_type == source@,
                    rule@.target_type == target@,
                    rule@.tclass == class@,
                    forall|j: int| 0 <= j < p ==> #[trigger] rule@.perms[j] != perm@,
                decreases rule.perms@.len() - p,
            {
                assert(rule@.perms[p as int] == rule.perms@[p as int]@);
                if same(rule.perms[p].as_str(), perm) {
                    assert(all[i as int].perms.contains(perm@));
                    return true;
                }
                p = p + 1;
            }
            assert(!rule@.perms.contains(perm@));
        }
        i = i + 1;
    }
    false
}

/// Whether all that a rule grants is granted already.
fn covers(rules: &Vec<AllowRule>, rule: &AllowRule) -> (r: bool)
    ensures
        r == is_covered(rule_views(rules@), rule@),
{
    let mut i: usize = 0;
    while i < rule.perms.len()
        invariant
            i <= rule.perms@.len(),
            forall|j: int|
                0 <= j < i ==> allowed_by(rule_views(rules@), #[trigger] grants_of(rule@)[j]),
        decreases rule.perms@.len() - i,
    {
        assert(rule@.perms[i as int] == rule.perms@[i as int]@);
        if !grants(
            rules,
            rule.source_type.as_str(),
            rule.target_type.as_str(),
            rule.tclass.as_str(),
            rule.perms[i].as_str(),
        ) {
            assert(!allowed_by(rule_views(rules@), grants_of(rule@)[i as int]));
            return false;
        }
        i = i + 1;
    }
    true
}

/// Adds rules to those that were installed so far, but for what these grant already.
pub fn add_rules(rules: &mut Vec<AllowRule>, more: &Vec<AllowRule>)
    ensures
        rule_views(final(rules)@) == with_rules(rule_views(old(rules)@), rule_views(more@)),
{
    let ghost start = rule_views(rules@);
    let ghost all = rule_views(more@);
    let mut i: usize = 0;
    while i < more.len()
        invariant
            i <= more@.len(),
            all == rule_views(more@),
            rule_views(rules@) == with_rules(start, all.take(i as int)),
        decreases more@.len() - i,
    {
        proof {
            assert(all.take(i + 1).drop_last() =~= all.take(i as int));
            assert(all.take(i + 1).last() == more@[i as int]@);
        }
        if !covers(rules, &more[i]) {
            let ghost before = rules@;
            let rule = more[i].clone();
            rules.push(rule);
            assert(rule_views(rules@) =~= rule_views(before).push(rule@));
        }
        i = i + 1;
    }
    assert(all.take(i as int) =~= all);
}

} // verus!
