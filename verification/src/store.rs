//! Installed policy modules, with a bounded history to go back in.

use crate::number::{decimal, to_decimal};
use crate::outside::{instant_now, seconds_since_epoch, system_now};
use crate::text::join;
use std::collections::VecDeque;
use std::time::Instant;
use vstd::prelude::*;

verus! {

/// A module that was installed.
struct Activation {
    version: String,
    cil_content: String,
    installed_at: Instant,
}

/// An installed module: its name and its text.
#[verifier::ext_equal]
pub struct Module {
    pub version: Seq<char>,
    pub cil: Seq<char>,
}

/// The last `n` modules of a history.
pub open spec fn keep_last(h: Seq<Module>, n: nat) -> Seq<Module> {
    if h.len() > n {
        h.skip(h.len() - n)
    } else {
        h
    }
}

/// A history of at most `max` modules after one more was installed.
pub open spec fn committed(h: Seq<Module>, max: nat, m: Module) -> Seq<Module> {
    keep_last(h.push(m), max)
}

/// The module to remove and the history that is left, where there is one to go back to.
pub open spec fn rolled_back(h: Seq<Module>) -> Option<(Module, Seq<Module>)> {
    if h.len() < 2 {
        None
    } else {
        Some((h.last(), h.drop_last()))
    }
}

/// The name of the module of a time, in seconds since the Unix epoch.
pub open spec fn module_name_of(seconds: nat) -> Seq<char> {
    "autolsm_"@ + decimal(seconds)
}

/// Going back after an installation yields the module that was installed, and leaves the
/// history as it was but for what the installation pushed out.
pub proof fn law_rollback_undoes_commit(h: Seq<Module>, max: nat, m: Module)
    requires
        h.len() >= 1,
        max >= 2,
    ensures
        rolled_back(committed(h, max, m)) == Some((m, keep_last(h, (max - 1) as nat))),
        h.len() < max ==> rolled_back(committed(h, max, m)) == Some((m, h)),
{
    let c = committed(h, max, m);
    assert(c.last() == m);
    assert(c.drop_last() =~= keep_last(h, (max - 1) as nat));
}

/// A history never grows beyond its bound, and its last module is the one installed last.
pub proof fn law_history_is_bounded(h: Seq<Module>, max: nat, m: Module)
    ensures
        committed(h, max, m).len() <= max,
        max > 0 ==> committed(h, max, m).last() == m,
{
}

/// Going back always leaves a module in place.
pub proof fn law_rollback_leaves_a_module(h: Seq<Module>)
    ensures
        rolled_back(h) matches Some(r) ==> r.1.len() >= 1 && h == r.1.push(r.0),
{
    if h.len() >= 2 {
        assert(h =~= h.drop_last().push(h.last()));
    }
}

/// Modules of different times have different names.
pub proof fn law_module_names_differ(a: nat, b: nat)
    requires
        a != b,
    ensures
        module_name_of(a) != module_name_of(b),
{
    if module_name_of(a) == module_name_of(b) {
        let n = "autolsm_"@.len() as int;
        assert(module_name_of(a).skip(n) =~= decimal(a));
        assert(module_name_of(b).skip(n) =~= decimal(b));
        crate::number::lemma_decimal_injective(a, b);
    }
}

/// Why a store refuses to go back.
#[derive(Debug, Clone, Copy, PartialEq, Eq, Structural)]
pub enum StoreError {
    InsufficientHistory,
}

impl StoreError {
    /// The error in words.
    pub fn message(&self) -> (r: String)
        ensures
            r@ == "insufficient history for rollback"@,
    {
        "insufficient history for rollback".to_owned()
    }
}

/// The modules that were installed, the oldest one first.
pub struct PolicyStore {
    activations: VecDeque<Activation>,
    max_history: usize,
}

/// The name of the module of a time, in seconds since the Unix epoch.
pub fn module_name(seconds: u64) -> (r: String)
    ensures
        r@ == module_name_of(seconds as nat),
{
    let number = to_decimal(seconds);
    join("autolsm_", number.as_str())
}

/// The seconds since the Unix epoch that a clock counts as; one before the epoch counts as zero.
pub open spec fn counted_seconds(seconds: Option<u64>) -> nat {
    match seconds {
        Some(n) => n as nat,
        None => 0,
    }
}

/// The name of the module of a time, in seconds since the Unix epoch; `None` stands for a time
/// before it.
pub fn module_name_at(seconds: Option<u64>) -> (r: String)
    ensures
        r@ == module_name_of(counted_seconds(seconds)),
{
    match seconds {
        Some(n) => module_name(n),
        None => module_name(0),
    }
}

impl PolicyStore {
    /// The modules, the oldest one first.
    pub closed spec fn history(&self) -> Seq<Module> {
        Seq::new(
            self.activations@.len(),
            |i: int|
                Module {
                    version: self.activations@[i].version@,
                    cil: self.activations@[i].cil_content@,
                },
        )
    }

    /// How many modules are kept.
    pub closed spec fn bound(&self) -> nat {
        self.max_history as nat
    }

    /// An empty store that keeps at most `max_history` modules.
    pub fn new(max_history: usize) -> (r: Self)
        ensures
            r.history() == Seq::<Module>::empty(),
            r.bound() == max_history,
    {
        let r = PolicyStore { activations: VecDeque::new(), max_history };
        assert(r.history() =~= Seq::<Module>::empty());
        r
    }

    /// A name for the next module: `autolsm_` and the time in seconds.
    pub fn next_module_name(&self) -> (r: String)
        ensures
            exists|seconds: Option<u64>|
                r@ == module_name_of(#[trigger] counted_seconds(seconds)),
    {
        let seconds = seconds_since_epoch(&system_now());
        module_name_at(seconds)
    }

    /// Records a module that was installed; the oldest ones leave when there are too many.
    pub fn commit(&mut self, name: String, cil: String)
        ensures
            final(self).history() == committed(
                old(self).history(),
                old(self).bound(),
                (Module { version: name@, cil: cil@ }),
            ),
            final(self).bound() == old(self).bound(),
    {
        let ghost full = self.history().push(Module { version: name@, cil: cil@ });
        self.activations.push_back(
            Activation { version: name, cil_content: cil, installed_at: instant_now() },
        );
        assert(self.history() =~= full);
        assert(full.skip(0) =~= full);
        while self.activations.len() > self.max_history
            invariant
                self.max_history == old(self).max_history,
                self.activations@.len() <= full.len(),
                self.history() == full.skip(full.len() - self.activations@.len()),
                full.len() <= self.max_history ==> self.activations@.len() == full.len(),
                full.len() > self.max_history ==> self.activations@.len() >= self.max_history,
            decreases self.activations.len(),
        {
            let ghost before = self.history();
            let oldest = self.activations.pop_front();
            proof {
                assert(self.history() =~= before.skip(1));
                assert(before.skip(1) =~= full.skip(full.len() - self.activations@.len()));
            }
        }
    }

    /// The name of the module installed last.
    pub fn current_version(&self) -> (r: Option<&str>)
        ensures
            match r {
                Some(v) => self.history().len() > 0 && v@ == self.history().last().version,
                None => self.history().len() == 0,
            },
    {
        if self.activations.len() == 0 {
            None
        } else {
            Some(self.activations[self.activations.len() - 1].version.as_str())
        }
    }

    /// Takes the module installed last out of the history and returns its name, so that it can
    /// be removed. Refused where no other module would be left.
    pub fn rollback(&mut self) -> (r: Result<String, StoreError>)
        ensures
            match r {
                Ok(name) => rolled_back(old(self).history()) matches Some(b) && name@
                    == b.0.version && final(self).history() == b.1,
                Err(e) => rolled_back(old(self).history()) is None && e
                    == StoreError::InsufficientHistory && *final(self) == *old(self),
            },
            final(self).bound() == old(self).bound(),
    {
        if self.activations.len() < 2 {
            return Err(StoreError::InsufficientHistory);
        }
        match self.activations.pop_back() {
            Some(bad) => {
                assert(self.history() =~= old(self).history().drop_last());
                Ok(bad.version)
            },
            None => Err(StoreError::InsufficientHistory),
        }
    }

    /// The names of all modules, the oldest one first.
    pub fn versions(&self) -> (r: Vec<String>)
        ensures
            r@.len() == self.history().len(),
            forall|i: int| 0 <= i < r@.len() ==> (#[trigger] r@[i])@ == self.history()[i].version,
    {
        let mut r: Vec<String> = Vec::new();
        let mut i: usize = 0;
        while i < self.activations.len()
            invariant
                i <= self.activations@.len(),
                r@.len() == i,
                forall|j: int| 0 <= j < i ==> (#[trigger] r@[j])@ == self.activations@[j].version@,
            decreases self.activations@.len() - i,
        {
            r.push(self.activations[i].version.clone());
            i = i + 1;
        }
        r
    }
}

} // verus!
