//! The life of a controlled domain: first it is observed, then its policy is enforced.
//!
//! The transition is one-way: what is enforced is never observed permissively again.

use crate::outside::instant_now;
use std::time::Instant;
use vstd::prelude::*;

verus! {

/// The state that a domain is in.
#[derive(Debug, PartialEq, Eq)]
pub enum State {
    /// The domain is permissive and its behaviour is observed.
    Learning { started_at: Instant },
    /// A policy is installed and enforced.
    Enforcing { installed_at: Instant, version: String },
}

impl Clone for State {
    fn clone(&self) -> (r: Self)
        ensures
            r == *self,
    {
        match self {
            State::Learning { started_at } => State::Learning { started_at: *started_at },
            State::Enforcing { installed_at, version } => State::Enforcing {
                installed_at: *installed_at,
                version: version.clone(),
            },
        }
    }
}

impl State {
    /// Whether behaviour is being learned.
    pub fn is_learning(&self) -> (r: bool)
        ensures
            r == (self is Learning),
    {
        matches!(self, State::Learning { .. })
    }

    /// Whether a policy is enforced.
    pub fn is_enforcing(&self) -> (r: bool)
        ensures
            r == (self is Enforcing),
    {
        matches!(self, State::Enforcing { .. })
    }
}

/// The version that a state enforces, if it does.
pub open spec fn enforced(s: State) -> Option<Seq<char>> {
    match s {
        State::Learning { .. } => None,
        State::Enforcing { version, .. } => Some(version@),
    }
}

/// Why a transition is refused.
#[derive(Debug, Clone, Copy, PartialEq, Eq, Structural)]
pub enum StateError {
    AlreadyEnforcing,
}

impl StateError {
    /// The error in words.
    pub fn message(&self) -> (r: String)
        ensures
            r@ == "cannot transition to enforcing: already enforcing"@,
    {
        "cannot transition to enforcing: already enforcing".to_owned()
    }
}

/// A state machine apart from its times.
#[verifier::ext_equal]
pub struct Phase {
    /// The version that is enforced; `None` while learning.
    pub enforced: Option<Seq<char>>,
    /// The flag that says that the rules that hide expected denials were disabled for learning.
    pub dontaudit_disabled: bool,
}

/// What can happen to a state machine.
pub enum Event {
    /// Learning is begun; the flag says whether the hiding rules could be removed.
    EnterLearning(bool),
    /// A policy was installed.
    Enforce(Seq<char>),
}

/// The phase after an event.
pub open spec fn step(p: Phase, e: Event) -> Phase {
    match e {
        Event::EnterLearning(removed) => if p.enforced is Some {
            p
        } else {
            Phase { enforced: None, dontaudit_disabled: removed || p.dontaudit_disabled }
        },
        Event::Enforce(version) => Phase {
            enforced: Some(version),
            dontaudit_disabled: p.enforced is Some && p.dontaudit_disabled,
        },
    }
}

/// The phase after a sequence of events.
pub open spec fn steps(p: Phase, events: Seq<Event>) -> Phase
    decreases events.len(),
{
    if events.len() == 0 {
        p
    } else {
        steps(step(p, events[0]), events.skip(1))
    }
}

/// The phase that a state machine begins in.
pub open spec fn initial() -> Phase {
    Phase { enforced: None, dontaudit_disabled: false }
}

/// Once a policy is enforced, no sequence of events leads back to learning.
pub proof fn law_enforcing_is_final(p: Phase, events: Seq<Event>)
    requires
        p.enforced is Some,
    ensures
        steps(p, events).enforced is Some,
    decreases events.len(),
{
    if events.len() > 0 {
        law_enforcing_is_final(step(p, events[0]), events.skip(1));
    }
}

/// The version that is enforced is the one installed last.
pub proof fn law_last_version_is_enforced(p: Phase, events: Seq<Event>, version: Seq<char>)
    ensures
        steps(p, events.push(Event::Enforce(version))).enforced == Some(version),
    decreases events.len(),
{
    let all = events.push(Event::Enforce(version));
    if events.len() == 0 {
        assert(all.skip(1) =~= Seq::<Event>::empty());
        assert(steps(step(p, all[0]), Seq::<Event>::empty()) == step(p, all[0]));
    } else {
        assert(all.skip(1) =~= events.skip(1).push(Event::Enforce(version)));
        law_last_version_is_enforced(step(p, events[0]), events.skip(1), version);
    }
}

/// Where the flag is cleared under enforcement, it stays cleared.
proof fn lemma_flag_stays_cleared(p: Phase, events: Seq<Event>)
    requires
        p.enforced is Some ==> !p.dontaudit_disabled,
    ensures
        steps(p, events).enforced is Some ==> !steps(p, events).dontaudit_disabled,
    decreases events.len(),
{
    if events.len() > 0 {
        lemma_flag_stays_cleared(step(p, events[0]), events.skip(1));
    }
}

/// Whatever happens from the beginning on, the flag is cleared while a policy is enforced. This
/// is about the flag alone: to put the hiding rules back is left to who runs the machine.
pub proof fn law_enforcing_clears_the_flag(events: Seq<Event>)
    ensures
        steps(initial(), events).enforced is Some ==> !steps(
            initial(),
            events,
        ).dontaudit_disabled,
{
    lemma_flag_stays_cleared(initial(), events);
}

/// The state machine of a domain.
pub struct StateMachine {
    state: State,
    pub dontaudit_disabled: bool,
}

impl View for StateMachine {
    type V = Phase;

    closed spec fn view(&self) -> Phase {
        Phase { enforced: enforced(self.state), dontaudit_disabled: self.dontaudit_disabled }
    }
}

impl StateMachine {
    /// A state machine that begins to learn.
    pub fn new() -> (r: Self)
        ensures
            r@ == initial(),
    {
        StateMachine { state: State::Learning { started_at: instant_now() }, dontaudit_disabled: false }
    }

    /// Begins to learn, after an attempt to remove the hiding rules; that it failed is no
    /// obstacle. Where a policy is enforced this is refused and nothing changes.
    pub fn enter_learning(&mut self, dontaudit_removed: bool) -> (r: Result<(), StateError>)
        ensures
            r is Err <==> old(self)@.enforced is Some,
            r matches Err(e) ==> e == StateError::AlreadyEnforcing && *final(self) == *old(self),
            final(self)@ == step(old(self)@, Event::EnterLearning(dontaudit_removed)),
    {
        if self.state.is_enforcing() {
            return Err(StateError::AlreadyEnforcing);
        }
        if dontaudit_removed {
            self.dontaudit_disabled = true;
        }
        self.state = State::Learning { started_at: instant_now() };
        Ok(())
    }

    /// Enforces the version that was installed. A version that was enforced before is replaced.
    pub fn transition_to_enforcing(&mut self, version: &str) -> (r: Result<(), StateError>)
        ensures
            r is Ok,
            final(self)@ == step(old(self)@, Event::Enforce(version@)),
    {
        if self.state.is_enforcing() {
            self.state = State::Enforcing { installed_at: instant_now(), version: version.to_owned() };
            return Ok(());
        }
        if self.dontaudit_disabled {
            self.dontaudit_disabled = false;
        }
        self.state = State::Enforcing { installed_at: instant_now(), version: version.to_owned() };
        Ok(())
    }

    /// The current state.
    pub fn state(&self) -> (r: &State)
        ensures
            enforced(*r) == self@.enforced,
    {
        &self.state
    }

    /// Whether the flag is set although a policy is enforced. The way to enforcement clears it,
    /// so this holds only where the flag was set by hand afterwards.
    pub fn should_restore_dontaudit(&self) -> (r: bool)
        ensures
            r == (self@.dontaudit_disabled && self@.enforced is Some),
    {
        self.dontaudit_disabled && self.state.is_enforcing()
    }
}

} // verus!
