//! Rules as policy modules, and what becomes of their installation.

use crate::common::userspace::{rule_views, AllowRule, RuleView};
use crate::grouping::{
    add_grant, allowed_by, granted, group_views, groups_of, groups_wf, is_about,
    law_groups_grant_the_same, lemma_place_is, AccessGroup, Grant, Group,
};
use crate::order::{lemma_insert_last, strictly_sorted};
use crate::outside::{text_of_bytes, utf8_lossy};
use crate::store::{
    committed, counted_seconds, module_name_of, rolled_back, Module, PolicyStore, StoreError,
};
use crate::text::{join, join_all, joined, opt_view, same, views};
use vstd::prelude::*;
use vstd::std_specs::convert::FromSpecImpl;

verus! {

// ---- Modules ----

/// What a rule grants.
pub open spec fn grants_of(r: RuleView) -> Seq<Grant> {
    Seq::new(
        r.perms.len(),
        |i: int|
            Grant {
                source: r.source_type,
                target: r.target_type,
                class: r.tclass,
                perm: r.perms[i],
            },
    )
}

/// What rules grant, in order.
pub open spec fn rule_grants(rules: Seq<RuleView>) -> Seq<Grant>
    decreases rules.len(),
{
    if rules.len() == 0 {
        Seq::empty()
    } else {
        rule_grants(rules.drop_last()) + grants_of(rules.last())
    }
}

/// A permission in parentheses.
pub open spec fn bracketed(perm: Seq<char>) -> Seq<char> {
    "("@ + perm + ")"@
}

/// The permissions of a group, each of them in parentheses.
pub open spec fn bracketed_all(perms: Seq<Seq<char>>) -> Seq<Seq<char>> {
    Seq::new(perms.len(), |i: int| bracketed(perms[i]))
}

/// The statement that allows what a group grants, on a line of its own.
pub open spec fn statement(g: Group) -> Seq<char> {
    "(allow "@ + g.source + " "@ + g.target + " ("@ + g.class + " ("@ + joined(
        bracketed_all(g.perms),
        " "@,
    ) + ")))\n"@
}

/// The statements for groups, one after the other.
pub open spec fn statements(groups: Seq<Group>) -> Seq<char>
    decreases groups.len(),
{
    if groups.len() == 0 {
        Seq::empty()
    } else {
        statements(groups.drop_last()) + statement(groups.last())
    }
}

/// The text of the module for rules: one statement for each pair of types and class.
pub open spec fn cil_of(rules: Seq<RuleView>) -> Seq<char> {
    statements(groups_of(rule_grants(rules)))
}

/// What rules grant is what some rule grants.
pub proof fn lemma_rule_grants(rules: Seq<RuleView>, x: Grant)
    ensures
        rule_grants(rules).contains(x) <==> allowed_by(rules, x),
    decreases rules.len(),
{
    if rules.len() > 0 {
        let t = rules.drop_last();
        let r = rules.last();
        lemma_rule_grants(t, x);
        let all = rule_grants(rules);
        let n = rule_grants(t).len() as int;
        if all.contains(x) {
            let i = choose|i: int| 0 <= i < all.len() && all[i] == x;
            if i < n {
                assert(rule_grants(t)[i] == x);
                let j = choose|j: int|
                    0 <= j < t.len() && (#[trigger] t[j]).source_type == x.source
                        && t[j].target_type == x.target && t[j].tclass == x.class
                        && t[j].perms.contains(x.perm);
                assert(rules[j] == t[j]);
            } else {
                assert(grants_of(r)[i - n] == x);
                assert(r.perms[i - n] == x.perm);
                assert(rules[rules.len() - 1] == r);
            }
        }
        if allowed_by(rules, x) {
            let j = choose|j: int|
                0 <= j < rules.len() && (#[trigger] rules[j]).source_type == x.source
                    && rules[j].target_type == x.target && rules[j].tclass == x.class
                    && rules[j].perms.contains(x.perm);
            if j < t.len() {
                assert(t[j] == rules[j]);
                let i = choose|i: int| 0 <= i < n && rule_grants(t)[i] == x;
                assert(all[i] == x);
            } else {
                let k = choose|k: int| 0 <= k < r.perms.len() && r.perms[k] == x.perm;
                assert(grants_of(r)[k] =~= x);
                assert(all[n + k] == x);
            }
        }
    }
}

/// The statements of a module allow just what the rules grant, and no two of them are about the
/// same types and class.
pub proof fn law_module_allows_what_rules_grant(rules: Seq<RuleView>, x: Grant)
    ensures
        granted(groups_of(rule_grants(rules)), x) <==> allowed_by(rules, x),
        groups_wf(groups_of(rule_grants(rules))),
{
    law_groups_grant_the_same(rule_grants(rules));
    lemma_rule_grants(rules, x);
    assert(granted(groups_of(rule_grants(rules)), x) <==> rule_grants(rules).contains(x));
}

/// Whether rules are merged already: no two are about the same types and class, and each
/// grants something, in ascending order.
pub open spec fn is_merged(rules: Seq<RuleView>) -> bool {
    &&& forall|i: int, j: int|
        0 <= i < j < rules.len() ==> {
            ||| (#[trigger] rules[i]).source_type != (#[trigger] rules[j]).source_type
            ||| rules[i].target_type != rules[j].target_type
            ||| rules[i].tclass != rules[j].tclass
        }
    &&& forall|i: int|
        0 <= i < rules.len() ==> strictly_sorted((#[trigger] rules[i]).perms)
            && rules[i].perms.len() > 0
}

/// What a rule grants, as a group.
pub open spec fn group_of(r: RuleView) -> Group {
    Group { source: r.source_type, target: r.target_type, class: r.tclass, perms: r.perms }
}

/// What each rule grants, as a group.
pub open spec fn groups_in(rules: Seq<RuleView>) -> Seq<Group> {
    Seq::new(rules.len(), |i: int| group_of(rules[i]))
}

/// The first permissions of one more rule go into a group of their own.
proof fn lemma_next_group(before: Seq<Grant>, r: RuleView, n: int)
    requires
        1 <= n <= r.perms.len(),
        strictly_sorted(r.perms),
        forall|i: int|
            0 <= i < groups_of(before).len() ==> !is_about(
                #[trigger] groups_of(before)[i],
                grants_of(r)[0],
            ),
    ensures
        groups_of(before + grants_of(r).take(n)) == groups_of(before).push(
            Group { perms: r.perms.take(n), ..group_of(r) },
        ),
    decreases n,
{
    let grants = before + grants_of(r).take(n);
    let x = grants_of(r)[n - 1];
    assert(grants.drop_last() =~= before + grants_of(r).take(n - 1));
    assert(grants.last() == x);
    if n == 1 {
        assert(before + grants_of(r).take(0) =~= before);
        lemma_place_is(groups_of(before), x, groups_of(before).len() as int);
        assert(r.perms.take(1) =~= seq![x.perm]);
    } else {
        lemma_next_group(before, r, n - 1);
        let groups = groups_of(before + grants_of(r).take(n - 1));
        let last = groups_of(before).len() as int;
        assert forall|j: int| 0 <= j < last implies !is_about(#[trigger] groups[j], x) by {
            assert(!is_about(groups_of(before)[j], grants_of(r)[0]));
        }
        lemma_place_is(groups, x, last);
        let some = r.perms.take(n - 1);
        assert(some.push(x.perm) =~= r.perms.take(n));
        assert(strictly_sorted(r.perms.take(n)));
        lemma_insert_last(some, x.perm);
        assert(groups_of(grants) =~= groups_of(before).push(
            Group { perms: r.perms.take(n), ..group_of(r) },
        ));
    }
}

/// Rules that are merged already become one statement each, in their order.
pub proof fn law_merged_rules_stay(rules: Seq<RuleView>)
    requires
        is_merged(rules),
    ensures
        groups_of(rule_grants(rules)) == groups_in(rules),
        cil_of(rules) == statements(groups_in(rules)),
    decreases rules.len(),
{
    if rules.len() == 0 {
        assert(groups_in(rules) =~= Seq::empty());
    } else {
        let t = rules.drop_last();
        let r = rules.last();
        assert forall|i: int, j: int| 0 <= i < j < t.len() implies {
            ||| (#[trigger] t[i]).source_type != (#[trigger] t[j]).source_type
            ||| t[i].target_type != t[j].target_type
            ||| t[i].tclass != t[j].tclass
        } by {
            assert(t[i] == rules[i] && t[j] == rules[j]);
        }
        assert forall|i: int| 0 <= i < t.len() implies strictly_sorted((#[trigger] t[i]).perms)
            && t[i].perms.len() > 0 by {
            assert(t[i] == rules[i]);
        }
        law_merged_rules_stay(t);
        let before = rule_grants(t);
        assert(rules[rules.len() - 1] == r);
        assert forall|i: int| 0 <= i < groups_of(before).len() implies !is_about(
            #[trigger] groups_of(before)[i],
            grants_of(r)[0],
        ) by {
            assert(rules[i] == t[i]);
            assert(groups_in(t)[i] == group_of(rules[i]));
        }
        lemma_next_group(before, r, r.perms.len() as int);
        assert(grants_of(r).take(r.perms.len() as int) =~= grants_of(r));
        assert(r.perms.take(r.perms.len() as int) =~= r.perms);
        assert(groups_in(rules) =~= groups_in(t).push(group_of(r)));
    }
}

// ---- Errors ----

/// What goes wrong with the installation of a module.
#[derive(Debug)]
pub enum PolicyError {
    EmptyRules,
    Io(String),
    InstallFailed(String),
    Timeout,
    Store(StoreError),
}

impl From<StoreError> for PolicyError {
    fn from(e: StoreError) -> (r: PolicyError) {
        PolicyError::Store(e)
    }
}

impl FromSpecImpl<StoreError> for PolicyError {
    open spec fn obeys_from_spec() -> bool {
        true
    }

    open spec fn from_spec(e: StoreError) -> PolicyError {
        PolicyError::Store(e)
    }
}

/// The text of an error.
pub open spec fn policy_error_text(e: PolicyError) -> Seq<char> {
    match e {
        PolicyError::EmptyRules => "empty rule set"@,
        PolicyError::Io(s) => "I/O error: "@ + s@,
        PolicyError::InstallFailed(s) => "semodule install failed: "@ + s@,
        PolicyError::Timeout => "semodule timed out"@,
        PolicyError::Store(StoreError::InsufficientHistory) => "store error: "@
            + "insufficient history for rollback"@,
    }
}

impl PolicyError {
    /// The error in words.
    pub fn message(&self) -> (r: String)
        ensures
            r@ == policy_error_text(*self),
    {
        match self {
            PolicyError::EmptyRules => "empty rule set".to_owned(),
            PolicyError::Io(s) => join("I/O error: ", s.as_str()),
            PolicyError::InstallFailed(s) => join("semodule install failed: ", s.as_str()),
            PolicyError::Timeout => "semodule timed out".to_owned(),
            PolicyError::Store(e) => {
                let text = e.message();
                join("store error: ", text.as_str())
            },
        }
    }
}

// ---- Installation ----

/// A module that is ready to be installed.
#[derive(Debug)]
pub struct Installation {
    /// The name of the module.
    pub module_name: String,
    /// The file that its text is written to.
    pub cil_path: String,
    /// Its text.
    pub cil: String,
}

/// What became of a command.
#[derive(Debug)]
pub enum CommandResult {
    /// It ended, with or without success, and wrote this to its error output.
    Exited { success: bool, stderr: Vec<u8> },
    /// It could not be run, for this reason.
    Failed(String),
}

/// The report on a command that ended.
pub fn exit_report(success: bool, stderr: String) -> (r: Result<(), PolicyError>)
    ensures
        success ==> r is Ok,
        !success ==> r == Err::<(), PolicyError>(PolicyError::InstallFailed(stderr)),
{
    if success {
        Ok(())
    } else {
        Err(PolicyError::InstallFailed(stderr))
    }
}

/// Whether a report is the one for what became of a command.
pub open spec fn reports(c: CommandResult, r: Result<(), PolicyError>) -> bool {
    match c {
        CommandResult::Exited { success: true, .. } => r is Ok,
        CommandResult::Exited { success: false, stderr } => r matches Err(
            PolicyError::InstallFailed(text),
        ) && text@ == utf8_lossy(stderr@),
        CommandResult::Failed(reason) => r == Err::<(), PolicyError>(PolicyError::Io(reason)),
    }
}

/// The report on what became of a command.
fn report(c: CommandResult) -> (r: Result<(), PolicyError>)
    ensures
        reports(c, r),
{
    match c {
        CommandResult::Exited { success, stderr } => {
            let text = text_of_bytes(stderr.as_slice());
            exit_report(success, text)
        },
        CommandResult::Failed(reason) => Err(PolicyError::Io(reason)),
    }
}

/// Whether an installation succeeded; `None` stands for one that took too long.
pub open spec fn succeeded(outcome: Option<CommandResult>) -> bool {
    outcome matches Some(CommandResult::Exited { success, .. }) && success
}

/// The modules that were installed after an attempt to install one more.
pub open spec fn after_attempt(
    history: Seq<Module>,
    bound: nat,
    m: Module,
    success: bool,
) -> Seq<Module> {
    if success {
        committed(history, bound, m)
    } else {
        history
    }
}

/// An installation that fails leaves all versions as they were: the one that was active before
/// stays active, and is what going back would take out next. One that succeeds is active.
pub proof fn law_failed_install_keeps_versions(history: Seq<Module>, bound: nat, m: Module)
    ensures
        after_attempt(history, bound, m, false) == history,
        rolled_back(after_attempt(history, bound, m, false)) == rolled_back(history),
        bound > 0 ==> after_attempt(history, bound, m, true).last() == m,
{
}

/// Whether a module of that name is among those that were installed.
pub open spec fn is_kept(history: Seq<Module>, name: Seq<char>) -> bool {
    exists|i: int| 0 <= i < history.len() && (#[trigger] history[i]).version == name
}

/// The module to remove after the installation of one of that name failed.
pub open spec fn to_remove(history: Seq<Module>, name: Seq<char>) -> Option<Seq<char>> {
    if is_kept(history, name) {
        None
    } else {
        Some(name)
    }
}

/// After an installation failed, no module that was installed before is removed: neither from
/// the history nor, whatever its name, from the system.
pub proof fn law_failed_install_spares_versions(
    history: Seq<Module>,
    bound: nat,
    m: Module,
    i: int,
)
    requires
        0 <= i < history.len(),
    ensures
        after_attempt(history, bound, m, false)[i] == history[i],
        to_remove(after_attempt(history, bound, m, false), m.version) != Some(history[i].version),
{
}

/// What turns rules into modules, installs them and goes back to the ones before.
pub struct PolicyLoader {
    tmp_dir: String,
    store: PolicyStore,
}

impl PolicyLoader {
    /// The directory that modules are written to.
    pub closed spec fn dir(&self) -> Seq<char> {
        self.tmp_dir@
    }

    /// The modules that were installed, the oldest one first.
    pub closed spec fn history(&self) -> Seq<Module> {
        self.store.history()
    }

    /// How many of them are kept.
    pub closed spec fn bound(&self) -> nat {
        self.store.bound()
    }

    /// A loader that writes modules to a directory and records them in a store.
    pub fn new(tmp_dir: &str, store: PolicyStore) -> (r: Self)
        ensures
            r.dir() == tmp_dir@,
            r.history() == store.history(),
            r.bound() == store.bound(),
    {
        PolicyLoader { tmp_dir: tmp_dir.to_owned(), store }
    }

    /// The modules that were installed.
    pub fn store(&self) -> (r: &PolicyStore)
        ensures
            r.history() == self.history(),
            r.bound() == self.bound(),
    {
        &self.store
    }

    /// Whether a module of that name was installed and is still kept.
    fn holds(&self, module: &str) -> (r: bool)
        ensures
            r == is_kept(self.history(), module@),
    {
        let names = self.store.versions();
        let mut i: usize = 0;
        while i < names.len()
            invariant
                i <= names@.len(),
                names@.len() == self.store.history().len(),
                forall|j: int|
                    0 <= j < names@.len() ==> (#[trigger] names@[j])@
                        == self.store.history()[j].version,
                forall|j: int|
                    0 <= j < i ==> (#[trigger] self.store.history()[j]).version != module@,
            decreases names@.len() - i,
        {
            if same(names[i].as_str(), module) {
                assert(self.store.history()[i as int].version == module@);
                return true;
            }
            assert(names@[i as int]@ == self.store.history()[i as int].version);
            i = i + 1;
        }
        false
    }

    /// The module to remove after its installation failed. Two modules of one second share a
    /// name; where one of that name was installed and is still kept, nothing is removed.
    pub fn left_over(&self, module: &str) -> (r: Option<String>)
        ensures
            opt_view(r) == to_remove(self.history(), module@),
    {
        if self.holds(module) {
            None
        } else {
            Some(module.to_owned())
        }
    }

    /// The module for rules, under a given name. Without rules there is none.
    pub fn prepare_as(&self, rules: &[AllowRule], name: &str) -> (r: Result<
        Installation,
        PolicyError,
    >)
        ensures
            match r {
                Err(e) => rules@.len() == 0 && e is EmptyRules,
                Ok(job) => {
                    &&& rules@.len() > 0
                    &&& job.module_name@ == name@
                    &&& job.cil_path@ == self.dir() + "/"@ + name@ + ".cil"@
                    &&& job.cil@ == cil_of(rule_views(rules@))
                },
            },
    {
        if rules.len() == 0 {
            return Err(PolicyError::EmptyRules);
        }
        let cil = PolicyLoader::to_cil(rules);
        let mut cil_path = join(self.tmp_dir.as_str(), "/");
        cil_path.append(name);
        cil_path.append(".cil");
        Ok(Installation { module_name: name.to_owned(), cil_path, cil })
    }

    /// The module for rules, under a name made of the time. Without rules there is none.
    pub fn prepare_install(&self, rules: &[AllowRule]) -> (r: Result<Installation, PolicyError>)
        ensures
            match r {
                Err(e) => rules@.len() == 0 && e is EmptyRules,
                Ok(job) => {
                    &&& rules@.len() > 0
                    &&& exists|seconds: Option<u64>|
                        job.module_name@ == module_name_of(#[trigger] counted_seconds(seconds))
                    &&& job.cil_path@ == self.dir() + "/"@ + job.module_name@ + ".cil"@
                    &&& job.cil@ == cil_of(rule_views(rules@))
                },
            },
    {
        let name = self.store.next_module_name();
        self.prepare_as(rules, name.as_str())
    }

    /// Records what became of an installation; `None` stands for one that took too long. Only
    /// one that succeeded enters the history.
    pub fn install(&mut self, job: Installation, outcome: Option<CommandResult>) -> (r: Result<
        String,
        PolicyError,
    >)
        ensures
            final(self).dir() == old(self).dir(),
            final(self).bound() == old(self).bound(),
            final(self).history() == after_attempt(
                old(self).history(),
                old(self).bound(),
                (Module { version: job.module_name@, cil: job.cil@ }),
                succeeded(outcome),
            ),
            match outcome {
                Some(CommandResult::Exited { success: true, .. }) => r matches Ok(name) && name@
                    == job.module_name@,
                Some(CommandResult::Exited { success: false, stderr }) => {
                    &&& r matches Err(PolicyError::InstallFailed(text)) && text@ == utf8_lossy(
                        stderr@,
                    )
                    &&& *final(self) == *old(self)
                },
                Some(CommandResult::Failed(reason)) => {
                    &&& r matches Err(PolicyError::Io(text)) && text == reason
                    &&& *final(self) == *old(self)
                },
                None => {
                    &&& r matches Err(PolicyError::Timeout)
                    &&& *final(self) == *old(self)
                },
            },
    {
        match outcome {
            None => Err(PolicyError::Timeout),
            Some(c) => match report(c) {
                Err(e) => Err(e),
                Ok(_) => {
                    let name = job.module_name.clone();
                    self.store.commit(job.module_name, job.cil);
                    Ok(name)
                },
            },
        }
    }

    /// Takes the module installed last out of the history and returns its name, so that it can
    /// be removed. Refused where no other module would be left.
    pub fn rollback(&mut self) -> (r: Result<String, PolicyError>)
        ensures
            final(self).dir() == old(self).dir(),
            final(self).bound() == old(self).bound(),
            match r {
                Ok(name) => rolled_back(old(self).history()) matches Some(b) && name@
                    == b.0.version && final(self).history() == b.1,
                Err(e) => rolled_back(old(self).history()) is None && e == PolicyError::Store(
                    StoreError::InsufficientHistory,
                ) && *final(self) == *old(self),
            },
    {
        match self.store.rollback() {
            Ok(name) => Ok(name),
            Err(e) => Err(PolicyError::from(e)),
        }
    }

    /// The report on the removal of a module.
    pub fn finish_rollback(outcome: CommandResult) -> (r: Result<(), PolicyError>)
        ensures
            reports(outcome, r),
    {
        report(outcome)
    }

    /// The text of the module for rules: one statement for each pair of types and class, with
    /// their permissions in ascending order.
    pub fn to_cil(rules: &[AllowRule]) -> (r: String)
        ensures
            r@ == cil_of(rule_views(rules@)),
    {
        let groups = group_rules(rules);
        let ghost all = group_views(groups@);
        let mut r = String::new();
        let mut i: usize = 0;
        while i < groups.len()
            invariant
                i <= groups@.len(),
                all == group_views(groups@),
                r@ == statements(all.take(i as int)),
            decreases groups@.len() - i,
        {
            proof {
                assert(all.take(i + 1).drop_last() =~= all.take(i as int));
                assert(all.take(i + 1).last() == groups@[i as int]@);
            }
            let line = statement_for(&groups[i]);
            r.append(line.as_str());
            i = i + 1;
        }
        assert(all.take(i as int) =~= all);
        r
    }
}

/// What rules grant, gathered.
fn group_rules(rules: &[AllowRule]) -> (groups: Vec<AccessGroup>)
    ensures
        group_views(groups@) == groups_of(rule_grants(rule_views(rules@))),
{
    let ghost all = rule_views(rules@);
    let mut groups: Vec<AccessGroup> = Vec::new();
    let mut i: usize = 0;
    assert(group_views(groups@) =~= groups_of(rule_grants(all.take(0))));
    while i < rules.len()
        invariant
            i <= rules@.len(),
            all == rule_views(rules@),
            group_views(groups@) == groups_of(rule_grants(all.take(i as int))),
        decreases rules@.len() - i,
    {
        let rule = &rules[i];
        let ghost before = rule_grants(all.take(i as int));
        let ghost these = grants_of(rule@);
        let mut j: usize = 0;
        assert(before + these.take(0) =~= before);
        while j < rule.perms.len()
            invariant
                j <= rule.perms@.len(),
                these == grants_of(rule@),
                group_views(groups@) == groups_of(before + these.take(j as int)),
            decreases rule.perms@.len() - j,
        {
            proof {
                let next = before + these.take(j + 1);
                assert(next.drop_last() =~= before + these.take(j as int));
                assert(next.last() == these[j as int]);
                assert(rule@.perms[j as int] == rule.perms@[j as int]@);
            }
            add_grant(
                &mut groups,
                rule.source_type.as_str(),
                rule.target_type.as_str(),
                rule.tclass.as_str(),
                rule.perms[j].as_str(),
            );
            j = j + 1;
        }
        proof {
            assert(these.take(j as int) =~= these);
            assert(all.take(i + 1).drop_last() =~= all.take(i as int));
            assert(all.take(i + 1).last() == rule@);
        }
        i = i + 1;
    }
    assert(all.take(i as int) =~= all);
    groups
}

/// The statement that allows what a group grants.
fn statement_for(g: &AccessGroup) -> (r: String)
    ensures
        r@ == statement(g@),
{
    let mut perms: Vec<String> = Vec::new();
    let mut i: usize = 0;
    while i < g.perms.len()
        invariant
            i <= g.perms@.len(),
            perms@.len() == i,
            forall|j: int| 0 <= j < i ==> (#[trigger] perms@[j])@ == bracketed(g.perms@[j]@),
        decreases g.perms@.len() - i,
    {
        let mut p = join("(", g.perms[i].as_str());
        p.append(")");
        perms.push(p);
        i = i + 1;
    }
    assert(views(perms@) =~= bracketed_all(views(g.perms@)));
    let list = join_all(&perms, " ");
    let mut r = join("(allow ", g.source_type.as_str());
    r.append(" ");
    r.append(g.target_type.as_str());
    r.append(" (");
    r.append(g.tclass.as_str());
    r.append(" (");
    r.append(list.as_str());
    r.append(")))\n");
    r
}

} // verus!
