//! Per-client account state: four balance buckets and a permanent freeze
//! flag, with one atomic operation per event kind.

use vstd::prelude::*;

use crate::decimal::Decimal;

verus! {

broadcast use crate::decimal::lemma_value_bounds;

/// One client's balances.
///
/// * `available`: funds the client can withdraw.
/// * `held`: funds frozen by an active dispute on a settled deposit.
/// * `held_reserve`: funds owed to `held` once a deposit that was disputed
///   before its funds arrived actually arrives.
/// * `reserve`: bookkeeping hold against a disputed withdrawal.
/// * `locked`: set by any chargeback, never cleared; withdrawals are then
///   permanently rejected.
#[derive(Debug)]
pub struct Client {
    id: u16,
    available: Decimal,
    held: Decimal,
    held_reserve: Decimal,
    reserve: Decimal,
    locked: bool,
}

impl Client {
    pub closed spec fn client_id(self) -> u16 {
        self.id
    }

    pub closed spec fn available_val(self) -> int {
        self.available.value()
    }

    pub closed spec fn held_val(self) -> int {
        self.held.value()
    }

    pub closed spec fn held_reserve_val(self) -> int {
        self.held_reserve.value()
    }

    pub closed spec fn reserve_val(self) -> int {
        self.reserve.value()
    }

    pub closed spec fn is_locked(self) -> bool {
        self.locked
    }

    /// The publicly reported total: available plus everything held or owed
    /// to held.
    pub open spec fn balance_total(self) -> int {
        self.available_val() + self.held_val() + self.held_reserve_val()
    }

    /// Every bucket together; bounded so that no operation can overflow.
    pub open spec fn grand_total(self) -> int {
        self.balance_total() + self.reserve_val()
    }

    /// All buckets are normalized amounts and their sum stays representable.
    #[verifier::type_invariant]
    pub closed spec fn wf(self) -> bool {
        &&& self.available.wf()
        &&& self.held.wf()
        &&& self.held_reserve.wf()
        &&& self.reserve.wf()
        &&& self.grand_total() <= Decimal::max_value()
    }

    /// A fresh account, as a spec value.
    pub closed spec fn spec_new(id: u16) -> Client {
        Client {
            id,
            available: Decimal::spec_zero(),
            held: Decimal::spec_zero(),
            held_reserve: Decimal::spec_zero(),
            reserve: Decimal::spec_zero(),
            locked: false,
        }
    }

    /// A fresh account: empty buckets, not locked.
    pub fn new(id: u16) -> (r: Client)
        ensures
            r == Client::spec_new(id),
            r.client_id() == id,
            r.available_val() == 0,
            r.held_val() == 0,
            r.held_reserve_val() == 0,
            r.reserve_val() == 0,
            !r.is_locked(),
    {
        Client {
            id,
            available: Decimal::zero(),
            held: Decimal::zero(),
            held_reserve: Decimal::zero(),
            reserve: Decimal::zero(),
            locked: false,
        }
    }

    /// Credit funds. An outstanding held-reserve is satisfied first: the
    /// deposited amount moves into `held` up to the reserve; any leftover
    /// lands in `available`.
    ///
    /// Conservation: when no reserve is outstanding, the reported total
    /// grows by exactly the deposited amount; in general it grows by the
    /// amount minus whatever the reserve absorbed.
    pub fn deposit(&mut self, amount: Decimal)
        requires
            old(self).grand_total() + amount.value() <= Decimal::max_value(),
        ensures
            final(self).client_id() == old(self).client_id(),
            final(self).is_locked() == old(self).is_locked(),
            final(self).reserve_val() == old(self).reserve_val(),
            old(self).held_reserve_val() >= amount.value() ==> {
                &&& final(self).held_reserve_val() == old(self).held_reserve_val()
                    - amount.value()
                &&& final(self).held_val() == old(self).held_val() + amount.value()
                &&& final(self).available_val() == old(self).available_val()
            },
            old(self).held_reserve_val() < amount.value() ==> {
                &&& final(self).held_reserve_val() == 0
                &&& final(self).held_val() == old(self).held_val()
                    + old(self).held_reserve_val()
                &&& final(self).available_val() == old(self).available_val() + amount.value()
                    - old(self).held_reserve_val()
            },
            final(self).balance_total() == old(self).balance_total() + amount.value() - min_val(
                amount.value(),
                old(self).held_reserve_val(),
            ),
            old(self).held_reserve_val() == 0 ==> final(self).balance_total() == old(self).balance_total() + amount.value(),
    {
        proof {
            use_type_invariant(&*self);
            use_type_invariant(&amount);
        }
        match self.held_reserve.sub(amount) {
            Ok(v) => {
                self.held_reserve = v;
                self.held = self.held.add(amount);
            },
            Err(v) => {
                let owed = self.held_reserve;
                self.held_reserve = Decimal::zero();
                self.held = self.held.add(owed);
                self.available = self.available.add(v);
            },
        }
    }

    /// Debit funds. A locked account rejects every withdrawal with `Err(None)`;
    /// an unlocked account with too little available rejects with the current
    /// available balance inside `Err(Some(..))`. Nothing moves on rejection.
    pub fn withdraw(&mut self, amount: Decimal) -> (r: Result<(), Option<Decimal>>)
        ensures
            final(self).client_id() == old(self).client_id(),
            final(self).is_locked() == old(self).is_locked(),
            final(self).held_val() == old(self).held_val(),
            final(self).held_reserve_val() == old(self).held_reserve_val(),
            final(self).reserve_val() == old(self).reserve_val(),
            old(self).is_locked() ==> r == Result::<(), Option<Decimal>>::Err(None) && final(self).available_val() == old(self).available_val(),
            !old(self).is_locked() && old(self).available_val() >= amount.value() ==> r
                == Result::<(), Option<Decimal>>::Ok(()) && final(self).available_val() == old(self).available_val() - amount.value(),
            !old(self).is_locked() && old(self).available_val() < amount.value() ==> {
                &&& final(self).available_val() == old(self).available_val()
                &&& r matches Err(Some(d)) && d.wf() && d.value() == old(self).available_val()
            },
            r is Ok <==> !old(self).is_locked() && old(self).available_val() >= amount.value(),
    {
        proof {
            use_type_invariant(&*self);
        }
        if self.locked {
            return Err(None);
        }
        match self.available.sub(amount) {
            Ok(v) => {
                self.available = v;
                Ok(())
            },
            Err(_) => Err(Some(self.available)),
        }
    }

    /// Freeze the funds of a disputed deposit. What `available` cannot cover
    /// (the funds were already withdrawn) is recorded in `held_reserve`, to
    /// be satisfied by a future deposit.
    pub fn dispute_deposit(&mut self, amount: Decimal)
        requires
            old(self).grand_total() + amount.value() <= Decimal::max_value(),
        ensures
            final(self).client_id() == old(self).client_id(),
            final(self).is_locked() == old(self).is_locked(),
            final(self).reserve_val() == old(self).reserve_val(),
            old(self).available_val() >= amount.value() ==> {
                &&& final(self).available_val() == old(self).available_val() - amount.value()
                &&& final(self).held_val() == old(self).held_val() + amount.value()
                &&& final(self).held_reserve_val() == old(self).held_reserve_val()
            },
            old(self).available_val() < amount.value() ==> {
                &&& final(self).available_val() == 0
                &&& final(self).held_val() == old(self).held_val() + old(self).available_val()
                &&& final(self).held_reserve_val() == old(self).held_reserve_val()
                    + amount.value() - old(self).available_val()
            },
    {
        proof {
            use_type_invariant(&*self);
            use_type_invariant(&amount);
        }
        match self.available.sub(amount) {
            Ok(v) => {
                self.available = v;
                self.held = self.held.add(amount);
            },
            Err(v) => {
                let drained = self.available;
                self.available = Decimal::zero();
                self.held = self.held.add(drained);
                self.held_reserve = self.held_reserve.add(v);
            },
        }
    }

    /// Record a hold against a disputed withdrawal. The funds already left
    /// `available`, so this only grows the bookkeeping reserve.
    pub fn dispute_withdrawal(&mut self, amount: Decimal)
        requires
            old(self).grand_total() + amount.value() <= Decimal::max_value(),
        ensures
            final(self).client_id() == old(self).client_id(),
            final(self).is_locked() == old(self).is_locked(),
            final(self).available_val() == old(self).available_val(),
            final(self).held_val() == old(self).held_val(),
            final(self).held_reserve_val() == old(self).held_reserve_val(),
            final(self).reserve_val() == old(self).reserve_val() + amount.value(),
    {
        proof {
            use_type_invariant(&*self);
            use_type_invariant(&amount);
        }
        self.reserve = self.reserve.add(amount);
    }

    /// Release a resolved deposit dispute: relieve `held_reserve` first, then
    /// `held`, returning the relieved held funds to `available`. When `held`
    /// and `held_reserve` together cannot cover the amount, nothing moves and
    /// their sum comes back inside `Err`.
    pub fn resolve_deposit(&mut self, amount: Decimal) -> (r: Result<(), Decimal>)
        ensures
            final(self).client_id() == old(self).client_id(),
            final(self).is_locked() == old(self).is_locked(),
            final(self).reserve_val() == old(self).reserve_val(),
            old(self).held_reserve_val() >= amount.value() ==> {
                &&& r is Ok
                &&& final(self).held_reserve_val() == old(self).held_reserve_val()
                    - amount.value()
                &&& final(self).held_val() == old(self).held_val()
                &&& final(self).available_val() == old(self).available_val()
            },
            old(self).held_reserve_val() < amount.value() && old(self).held_val() + old(self).held_reserve_val() >= amount.value() ==> {
                &&& r is Ok
                &&& final(self).held_reserve_val() == 0
                &&& final(self).held_val() == old(self).held_val() - (amount.value() - old(self).held_reserve_val())
                &&& final(self).available_val() == old(self).available_val() + (amount.value()
                    - old(self).held_reserve_val())
            },
            old(self).held_val() + old(self).held_reserve_val() < amount.value() ==> {
                &&& final(self).held_reserve_val() == old(self).held_reserve_val()
                &&& final(self).held_val() == old(self).held_val()
                &&& final(self).available_val() == old(self).available_val()
                &&& r matches Err(d) && d.wf() && d.value() == old(self).held_val() + old(self).held_reserve_val()
            },
            r is Ok <==> old(self).held_val() + old(self).held_reserve_val() >= amount.value(),
    {
        proof {
            use_type_invariant(&*self);
            use_type_invariant(&amount);
        }
        match self.held_reserve.sub(amount) {
            Ok(v) => {
                self.held_reserve = v;
                Ok(())
            },
            Err(remainder) => match self.held.sub(remainder) {
                Ok(new_held) => {
                    self.held_reserve = Decimal::zero();
                    self.held = new_held;
                    self.available = self.available.add(remainder);
                    Ok(())
                },
                Err(_) => Err(self.held.add(self.held_reserve)),
            },
        }
    }

    /// Release a resolved withdrawal dispute: relieve the reserve, or report
    /// the current reserve inside `Err` without moving anything.
    pub fn resolve_withdrawal(&mut self, amount: Decimal) -> (r: Result<(), Decimal>)
        ensures
            final(self).client_id() == old(self).client_id(),
            final(self).is_locked() == old(self).is_locked(),
            final(self).available_val() == old(self).available_val(),
            final(self).held_val() == old(self).held_val(),
            final(self).held_reserve_val() == old(self).held_reserve_val(),
            old(self).reserve_val() >= amount.value() ==> r is Ok && final(self).reserve_val()
                == old(self).reserve_val() - amount.value(),
            old(self).reserve_val() < amount.value() ==> {
                &&& final(self).reserve_val() == old(self).reserve_val()
                &&& r matches Err(d) && d.wf() && d.value() == old(self).reserve_val()
            },
            r is Ok <==> old(self).reserve_val() >= amount.value(),
    {
        proof {
            use_type_invariant(&*self);
        }
        match self.reserve.sub(amount) {
            Ok(new_reserve) => {
                self.reserve = new_reserve;
                Ok(())
            },
            Err(_) => Err(self.reserve),
        }
    }

    /// Forfeit the funds of a charged-back deposit. The account is locked
    /// unconditionally, even when the relief fails; relief order matches
    /// `resolve_deposit` but the freed amount is discarded.
    pub fn chargeback_deposit(&mut self, amount: Decimal) -> (r: Result<(), Decimal>)
        ensures
            final(self).client_id() == old(self).client_id(),
            final(self).is_locked(),
            final(self).available_val() == old(self).available_val(),
            final(self).reserve_val() == old(self).reserve_val(),
            old(self).held_reserve_val() >= amount.value() ==> {
                &&& r is Ok
                &&& final(self).held_reserve_val() == old(self).held_reserve_val()
                    - amount.value()
                &&& final(self).held_val() == old(self).held_val()
            },
            old(self).held_reserve_val() < amount.value() && old(self).held_val() + old(self).held_reserve_val() >= amount.value() ==> {
                &&& r is Ok
                &&& final(self).held_reserve_val() == 0
                &&& final(self).held_val() == old(self).held_val() - (amount.value() - old(self).held_reserve_val())
            },
            old(self).held_val() + old(self).held_reserve_val() < amount.value() ==> {
                &&& final(self).held_reserve_val() == old(self).held_reserve_val()
                &&& final(self).held_val() == old(self).held_val()
                &&& r matches Err(d) && d.wf() && d.value() == old(self).held_val() + old(self).held_reserve_val()
            },
            r is Ok <==> old(self).held_val() + old(self).held_reserve_val() >= amount.value(),
    {
        proof {
            use_type_invariant(&*self);
            use_type_invariant(&amount);
        }
        self.locked = true;
        match self.held_reserve.sub(amount) {
            Ok(v) => {
                self.held_reserve = v;
                Ok(())
            },
            Err(remainder) => match self.held.sub(remainder) {
                Ok(v) => {
                    self.held_reserve = Decimal::zero();
                    self.held = v;
                    Ok(())
                },
                Err(_) => Err(self.held.add(self.held_reserve)),
            },
        }
    }

    /// Reverse a charged-back withdrawal. The account is locked
    /// unconditionally; on success the reserve is relieved and the amount is
    /// restored to `available`.
    pub fn chargeback_withdrawal(&mut self, amount: Decimal) -> (r: Result<(), Decimal>)
        ensures
            final(self).client_id() == old(self).client_id(),
            final(self).is_locked(),
            final(self).held_val() == old(self).held_val(),
            final(self).held_reserve_val() == old(self).held_reserve_val(),
            old(self).reserve_val() >= amount.value() ==> {
                &&& r is Ok
                &&& final(self).reserve_val() == old(self).reserve_val() - amount.value()
                &&& final(self).available_val() == old(self).available_val() + amount.value()
            },
            old(self).reserve_val() < amount.value() ==> {
                &&& final(self).reserve_val() == old(self).reserve_val()
                &&& final(self).available_val() == old(self).available_val()
                &&& r matches Err(d) && d.wf() && d.value() == old(self).reserve_val()
            },
            r is Ok <==> old(self).reserve_val() >= amount.value(),
    {
        proof {
            use_type_invariant(&*self);
            use_type_invariant(&amount);
        }
        self.locked = true;
        match self.reserve.sub(amount) {
            Ok(new_reserve) => {
                self.reserve = new_reserve;
                self.available = self.available.add(amount);
                Ok(())
            },
            Err(_) => Err(self.reserve),
        }
    }
}

/// A fresh account is empty, unlocked, and well formed.
pub proof fn lemma_spec_new(id: u16)
    ensures
        Client::spec_new(id).client_id() == id,
        Client::spec_new(id).available_val() == 0,
        Client::spec_new(id).held_val() == 0,
        Client::spec_new(id).held_reserve_val() == 0,
        Client::spec_new(id).reserve_val() == 0,
        !Client::spec_new(id).is_locked(),
        Client::spec_new(id).wf(),
{
    crate::decimal::lemma_spec_zero();
}

/// The smaller of two integers.
pub open spec fn min_val(a: int, b: int) -> int {
    if a <= b {
        a
    } else {
        b
    }
}

/// The final report row for one client: the reserve bucket is folded into
/// the public held figure, and the total covers everything but the
/// withdrawal reserve.
#[derive(Clone, Debug)]
pub struct ClientOutput {
    pub client: u16,
    pub available: Decimal,
    pub held: Decimal,
    pub total: Decimal,
    pub locked: bool,
}

impl Client {
    /// Snapshot this account for the final report.
    pub fn output(&self) -> (r: ClientOutput)
        ensures
            r.client == self.client_id(),
            r.available.wf() && r.available.value() == self.available_val(),
            r.held.wf() && r.held.value() == self.held_val() + self.held_reserve_val(),
            r.total.wf() && r.total.value() == self.balance_total(),
            r.locked == self.is_locked(),
    {
        proof {
            use_type_invariant(self);
        }
        ClientOutput {
            client: self.id,
            total: self.available.add(self.held).add(self.held_reserve),
            available: self.available,
            held: self.held.add(self.held_reserve),
            locked: self.locked,
        }
    }
}

} // verus!
