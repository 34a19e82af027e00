//! The transaction ledger: every disputable transaction together with its
//! lifecycle state, behind a small store interface so that a caching
//! decorator can wrap the in-memory store transparently.

use std::collections::HashMap;
use vstd::prelude::*;

use crate::transaction::DisputableTransaction;

verus! {

broadcast use vstd::std_specs::hash::group_hash_axioms;

/// The lifecycle state of a stored transaction.
#[derive(Clone, Copy, Debug, PartialEq, Eq, Structural)]
pub enum State {
    Committed,
    Resolved,
    Disputed,
    ChargedBack,
    ChargedBackFinal,
}

/// Why a state change was refused.
#[derive(Clone, Copy, Debug, PartialEq, Eq, Structural)]
pub enum UpdateFailure {
    NotFound,
    WrongState(State),
}

/// The legal transitions: a committed transaction can be disputed; a dispute
/// resolves or charges back; a resolved transaction returns to committed
/// (and can be disputed again); a chargeback is finalized. Nothing else.
pub open spec fn transition_allowed(current: State, requested: State) -> bool {
    ||| (current == State::Committed && requested == State::Disputed)
    ||| (current == State::Disputed && requested == State::Resolved)
    ||| (current == State::Disputed && requested == State::ChargedBack)
    ||| (current == State::Resolved && requested == State::Committed)
    ||| (current == State::ChargedBack && requested == State::ChargedBackFinal)
}

/// Decide whether a requested transition is legal.
pub fn is_transition_allowed(current: State, requested: State) -> (r: bool)
    ensures
        r == transition_allowed(current, requested),
{
    match (current, requested) {
        (State::Committed, State::Disputed) => true,
        (State::Disputed, State::Resolved) => true,
        (State::Disputed, State::ChargedBack) => true,
        (State::Resolved, State::Committed) => true,
        (State::ChargedBack, State::ChargedBackFinal) => true,
        _ => false,
    }
}

/// A store of disputable transactions keyed by transaction id.
///
/// `update` either commits a legal state change atomically and returns the
/// stored record, or returns the failure and changes nothing: an unknown id
/// is `NotFound`, an illegal transition is `WrongState` carrying the state
/// that the entry keeps.
pub trait Client: Sized {
    /// What the store holds: each known id with its record and state.
    /// Stores the library verifies override this; the default stands in for
    /// decorators implemented outside it.
    open spec fn ledger(&self) -> Map<u32, (DisputableTransaction, State)> {
        Map::empty()
    }

    /// Record a fresh transaction as `Committed`; a record with the same id
    /// silently replaces the old one.
    fn store(&mut self, t: DisputableTransaction)
        ensures
            final(self).ledger() == old(self).ledger().insert(
                t.transaction_id,
                (t, State::Committed),
            ),
    ;

    /// Read one entry without changing any.
    fn access(&mut self, id: u32) -> (r: Option<(DisputableTransaction, State)>)
        ensures
            final(self).ledger() == old(self).ledger(),
            match r {
                Some(p) => old(self).ledger().contains_key(id) && p == old(self).ledger()[id],
                None => !old(self).ledger().contains_key(id),
            },
    ;

    /// Request a state change for one entry.
    fn update(&mut self, id: u32, state: State) -> (r: Result<
        DisputableTransaction,
        UpdateFailure,
    >)
        ensures
            !old(self).ledger().contains_key(id) ==> r == Result::<
                DisputableTransaction,
                UpdateFailure,
            >::Err(UpdateFailure::NotFound) && final(self).ledger() == old(self).ledger(),
            old(self).ledger().contains_key(id) && !transition_allowed(
                old(self).ledger()[id].1,
                state,
            ) ==> r == Result::<DisputableTransaction, UpdateFailure>::Err(
                UpdateFailure::WrongState(old(self).ledger()[id].1),
            ) && final(self).ledger() == old(self).ledger(),
            old(self).ledger().contains_key(id) && transition_allowed(
                old(self).ledger()[id].1,
                state,
            ) ==> r == Result::<DisputableTransaction, UpdateFailure>::Ok(
                old(self).ledger()[id].0,
            ) && final(self).ledger() == old(self).ledger().insert(
                id,
                (old(self).ledger()[id].0, state),
            ),
    ;
}

/// The in-memory store backing the ledger.
pub struct MemoryClient(HashMap<u32, (DisputableTransaction, State)>);

impl MemoryClient {
    /// An empty store.
    pub fn new() -> (r: MemoryClient)
        ensures
            r.ledger() == Map::<u32, (DisputableTransaction, State)>::empty(),
    {
        MemoryClient(HashMap::new())
    }
}

impl Default for MemoryClient {
    fn default() -> (r: MemoryClient)
        ensures
            r.ledger() == Map::<u32, (DisputableTransaction, State)>::empty(),
    {
        MemoryClient(HashMap::new())
    }
}

impl Client for MemoryClient {
    closed spec fn ledger(&self) -> Map<u32, (DisputableTransaction, State)> {
        self.0@
    }

    fn store(&mut self, t: DisputableTransaction) {
        self.0.insert(t.transaction_id, (t, State::Committed));
    }

    fn access(&mut self, id: u32) -> (r: Option<(DisputableTransaction, State)>) {
        match self.0.get(&id) {
            Some(p) => Some(*p),
            None => None,
        }
    }

    fn update(&mut self, id: u32, state: State) -> (r: Result<
        DisputableTransaction,
        UpdateFailure,
    >) {
        let current = match self.0.get(&id) {
            Some(p) => *p,
            None => {
                return Err(UpdateFailure::NotFound);
            },
        };
        if is_transition_allowed(current.1, state) {
            self.0.insert(id, (current.0, state));
            Ok(current.0)
        } else {
            Err(UpdateFailure::WrongState(current.1))
        }
    }
}

} // verus!
