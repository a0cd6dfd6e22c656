//! Permissions, gathered by the types and the class that they are granted for.

use crate::common::userspace::RuleView;
use crate::order::{
    insert_in_order, insert_sorted, lemma_insert_in_order, lemma_sorted_unique, strictly_sorted,
};
use crate::text::{same, views};
use vstd::prelude::*;

verus! {

/// One permission of a subject type on objects of a type and class.
#[verifier::ext_equal]
pub struct Grant {
    pub source: Seq<char>,
    pub target: Seq<char>,
    pub class: Seq<char>,
    pub perm: Seq<char>,
}

/// All permissions of a subject type on objects of a type and class.
#[verifier::ext_equal]
pub struct Group {
    pub source: Seq<char>,
    pub target: Seq<char>,
    pub class: Seq<char>,
    /// The permissions in ascending order.
    pub perms: Seq<Seq<char>>,
}

/// Whether a group is about the types and the class of a grant.
pub open spec fn is_about(g: Group, x: Grant) -> bool {
    g.source == x.source && g.target == x.target && g.class == x.class
}

/// The place of the group for a grant; the number of groups where there is none.
pub open spec fn place(groups: Seq<Group>, x: Grant) -> nat
    decreases groups.len(),
{
    if groups.len() == 0 || is_about(groups[0], x) {
        0
    } else {
        1 + place(groups.skip(1), x)
    }
}

/// The groups after one more grant: its permission goes into the group for it, or else into a
/// new one at the end.
pub open spec fn with_grant(groups: Seq<Group>, x: Grant) -> Seq<Group> {
    let i = place(groups, x);
    if i < groups.len() {
        groups.update(
            i as int,
            Group { perms: insert_in_order(groups[i as int].perms, x.perm), ..groups[i as int] },
        )
    } else {
        groups.push(
            Group { source: x.source, target: x.target, class: x.class, perms: seq![x.perm] },
        )
    }
}

/// The groups of a list of grants, in the order in which they first occur.
pub open spec fn groups_of(grants: Seq<Grant>) -> Seq<Group>
    decreases grants.len(),
{
    if grants.len() == 0 {
        Seq::empty()
    } else {
        with_grant(groups_of(grants.drop_last()), grants.last())
    }
}

/// Whether a grant is among those of some groups.
pub open spec fn granted(groups: Seq<Group>, x: Grant) -> bool {
    exists|i: int|
        0 <= i < groups.len() && is_about(#[trigger] groups[i], x) && groups[i].perms.contains(
            x.perm,
        )
}

/// Whether rules grant a permission.
pub open spec fn allowed_by(rules: Seq<RuleView>, x: Grant) -> bool {
    exists|i: int|
        0 <= i < rules.len() && (#[trigger] rules[i]).source_type == x.source
            && rules[i].target_type == x.target && rules[i].tclass == x.class
            && rules[i].perms.contains(x.perm)
}

/// Groups of which no two are about the same types and class, and whose permissions are sorted
/// and not empty.
pub open spec fn groups_wf(groups: Seq<Group>) -> bool {
    &&& forall|i: int, j: int|
        0 <= i < j < groups.len() ==> {
            ||| (#[trigger] groups[i]).source != (#[trigger] groups[j]).source
            ||| groups[i].target != groups[j].target
            ||| groups[i].class != groups[j].class
        }
    &&& forall|i: int|
        0 <= i < groups.len() ==> strictly_sorted((#[trigger] groups[i]).perms)
            && groups[i].perms.len() > 0
}

/// The place of a grant is the first group that is about it.
pub proof fn lemma_place(groups: Seq<Group>, x: Grant)
    ensures
        place(groups, x) <= groups.len(),
        forall|j: int| 0 <= j < place(groups, x) ==> !is_about(#[trigger] groups[j], x),
        place(groups, x) < groups.len() ==> is_about(groups[place(groups, x) as int], x),
    decreases groups.len(),
{
    if groups.len() != 0 && !is_about(groups[0], x) {
        let t = groups.skip(1);
        lemma_place(t, x);
        assert forall|j: int| 0 <= j < place(groups, x) implies !is_about(
            #[trigger] groups[j],
            x,
        ) by {
            if j > 0 {
                assert(t[j - 1] == groups[j]);
            }
        }
        if place(groups, x) < groups.len() {
            assert(t[place(t, x) as int] == groups[place(groups, x) as int]);
        }
    }
}

/// A place before which no group is about the grant, and whose group is or which is the end, is
/// the place of the grant.
pub proof fn lemma_place_is(groups: Seq<Group>, x: Grant, i: int)
    requires
        0 <= i <= groups.len(),
        forall|j: int| 0 <= j < i ==> !is_about(#[trigger] groups[j], x),
        i < groups.len() ==> is_about(groups[i], x),
    ensures
        place(groups, x) == i,
{
    lemma_place(groups, x);
    let r = place(groups, x) as int;
    if r < i {
        assert(!is_about(groups[r], x));
    } else if i < r {
        assert(!is_about(groups[i], x));
    }
}

/// One more grant keeps the groups in order and adds just that grant.
proof fn lemma_with_grant(groups: Seq<Group>, x: Grant)
    requires
        groups_wf(groups),
    ensures
        groups_wf(with_grant(groups, x)),
        forall|y: Grant| #[trigger]
            granted(with_grant(groups, x), y) <==> granted(groups, y) || y == x,
{
    lemma_place(groups, x);
    let k = place(groups, x) as int;
    let after = with_grant(groups, x);
    if k < groups.len() {
        lemma_insert_in_order(groups[k].perms, x.perm);
        assert(insert_in_order(groups[k].perms, x.perm).contains(x.perm));
    } else {
        assert(seq![x.perm][0] == x.perm);
    }
    assert forall|i: int, j: int| 0 <= i < j < after.len() implies {
        ||| (#[trigger] after[i]).source != (#[trigger] after[j]).source
        ||| after[i].target != after[j].target
        ||| after[i].class != after[j].class
    } by {
        if j < groups.len() {
            assert(groups[i].source != groups[j].source || groups[i].target != groups[j].target
                || groups[i].class != groups[j].class);
        } else {
            assert(!is_about(groups[i], x));
        }
    }
    assert forall|i: int| 0 <= i < after.len() implies strictly_sorted((#[trigger] after[i]).perms)
        && after[i].perms.len() > 0 by {
        if i < groups.len() && i != k {
            assert(strictly_sorted(groups[i].perms));
        }
    }
    assert forall|y: Grant| #[trigger]
        granted(after, y) <==> granted(groups, y) || y == x by {
        if granted(after, y) {
            let i = choose|i: int|
                0 <= i < after.len() && is_about(#[trigger] after[i], y)
                    && after[i].perms.contains(y.perm);
            if i != k {
                assert(is_about(groups[i], y) && groups[i].perms.contains(y.perm));
            } else if k < groups.len() {
                assert(groups[k].perms.contains(y.perm) || y.perm == x.perm);
                if groups[k].perms.contains(y.perm) {
                    assert(is_about(groups[k], y));
                } else {
                    assert(y =~= x);
                }
            } else {
                assert(y =~= x);
            }
        }
        if granted(groups, y) {
            let i = choose|i: int|
                0 <= i < groups.len() && is_about(#[trigger] groups[i], y)
                    && groups[i].perms.contains(y.perm);
            assert(is_about(after[i], y) && after[i].perms.contains(y.perm));
        }
        if y == x {
            assert(is_about(after[k], x) && after[k].perms.contains(x.perm));
        }
    }
}

/// Gathering grants loses none and adds none: what the groups grant is what was granted. No two
/// groups are about the same types and class, and their permissions are sorted.
pub proof fn law_groups_grant_the_same(grants: Seq<Grant>)
    ensures
        groups_wf(groups_of(grants)),
        forall|y: Grant| #[trigger] granted(groups_of(grants), y) <==> grants.contains(y),
    decreases grants.len(),
{
    if grants.len() > 0 {
        let t = grants.drop_last();
        law_groups_grant_the_same(t);
        lemma_with_grant(groups_of(t), grants.last());
        assert forall|y: Grant| #[trigger]
            granted(groups_of(grants), y) <==> grants.contains(y) by {
            assert(granted(groups_of(t), y) <==> t.contains(y));
            if grants.contains(y) {
                let i = choose|i: int| 0 <= i < grants.len() && grants[i] == y;
                if i < t.len() {
                    assert(t[i] == y);
                }
            }
            if t.contains(y) {
                let i = choose|i: int| 0 <= i < t.len() && t[i] == y;
                assert(grants[i] == y);
            }
            if y == grants.last() {
                assert(grants[grants.len() - 1] == y);
            }
        }
    }
}

/// The order in which permissions are granted does not matter for what a group holds: two lists
/// of the same grants lead to the same group for the same types and class.
pub proof fn law_order_of_grants_does_not_matter(
    a: Seq<Grant>,
    b: Seq<Grant>,
    i: int,
    j: int,
)
    requires
        forall|x: Grant| #[trigger] a.contains(x) <==> b.contains(x),
        0 <= i < groups_of(a).len(),
        0 <= j < groups_of(b).len(),
        groups_of(a)[i].source == groups_of(b)[j].source,
        groups_of(a)[i].target == groups_of(b)[j].target,
        groups_of(a)[i].class == groups_of(b)[j].class,
    ensures
        groups_of(a)[i] == groups_of(b)[j],
{
    law_groups_grant_the_same(a);
    law_groups_grant_the_same(b);
    let g = groups_of(a)[i];
    let h = groups_of(b)[j];
    assert forall|p: Seq<char>| #[trigger] g.perms.contains(p) <==> h.perms.contains(p) by {
        let x = Grant { source: g.source, target: g.target, class: g.class, perm: p };
        lemma_granted_in_its_group(groups_of(a), x, i);
        lemma_granted_in_its_group(groups_of(b), x, j);
        assert(granted(groups_of(a), x) <==> a.contains(x));
        assert(granted(groups_of(b), x) <==> b.contains(x));
    }
    lemma_sorted_unique(g.perms, h.perms);
}

/// A grant is among those of the groups just when its own group holds its permission.
proof fn lemma_granted_in_its_group(groups: Seq<Group>, x: Grant, i: int)
    requires
        groups_wf(groups),
        0 <= i < groups.len(),
        is_about(groups[i], x),
    ensures
        granted(groups, x) <==> groups[i].perms.contains(x.perm),
{
    if granted(groups, x) {
        let k = choose|k: int|
            0 <= k < groups.len() && is_about(#[trigger] groups[k], x) && groups[k].perms.contains(
                x.perm,
            );
        if k < i {
            assert(groups[k].source != groups[i].source || groups[k].target != groups[i].target
                || groups[k].class != groups[i].class);
        } else if i < k {
            assert(groups[i].source != groups[k].source || groups[i].target != groups[k].target
                || groups[i].class != groups[k].class);
        }
    }
}

/// All permissions of a subject type on objects of a type and class.
pub struct AccessGroup {
    pub source_type: String,
    pub target_type: String,
    pub tclass: String,
    /// The permissions in ascending order.
    pub perms: Vec<String>,
}

impl View for AccessGroup {
    type V = Group;

    open spec fn view(&self) -> Group {
        Group {
            source: self.source_type@,
            target: self.target_type@,
            class: self.tclass@,
            perms: views(self.perms@),
        }
    }
}

/// What a list of groups says.
pub open spec fn group_views(v: Seq<AccessGroup>) -> Seq<Group> {
    Seq::new(v.len(), |i: int| v[i]@)
}

/// Adds a permission to the group that it belongs to, or to a new one.
pub fn add_grant(
    groups: &mut Vec<AccessGroup>,
    source: &str,
    target: &str,
    class: &str,
    perm: &str,
)
    ensures
        group_views(final(groups)@) == with_grant(
            group_views(old(groups)@),
            (Grant { source: source@, target: target@, class: class@, perm: perm@ }),
        ),
{
    let ghost x = Grant { source: source@, target: target@, class: class@, perm: perm@ };
    let ghost before = group_views(groups@);
    let mut i: usize = 0;
    while i < groups.len()
        invariant
            i <= groups@.len(),
            *groups == *old(groups),
            before == group_views(groups@),
            x == (Grant { source: source@, target: target@, class: class@, perm: perm@ }),
            forall|j: int| 0 <= j < i ==> !is_about(#[trigger] before[j], x),
        decreases groups@.len() - i,
    {
        assert(before[i as int] == groups@[i as int]@);
        if same(groups[i].source_type.as_str(), source) && same(
            groups[i].target_type.as_str(),
            target,
        ) && same(groups[i].tclass.as_str(), class) {
            proof {
                lemma_place_is(before, x, i as int);
            }
            let mut perms = crate::text::copy_all(&groups[i].perms);
            insert_sorted(&mut perms, perm);
            let g = AccessGroup {
                source_type: source.to_owned(),
                target_type: target.to_owned(),
                tclass: class.to_owned(),
                perms,
            };
            groups.set(i, g);
            assert(group_views(groups@) =~= before.update(i as int, g@));
            return;
        }
        i = i + 1;
    }
    proof {
        lemma_place_is(before, x, i as int);
    }
    let mut perms: Vec<String> = Vec::new();
    perms.push(perm.to_owned());
    assert(views(perms@) =~= seq![perm@]);
    let g = AccessGroup {
        source_type: source.to_owned(),
        target_type: target.to_owned(),
        tclass: class.to_owned(),
        perms,
    };
    groups.push(g);
    assert(group_views(groups@) =~= before.push(g@));
}

} // verus!
