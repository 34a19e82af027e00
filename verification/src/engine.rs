//! Orchestration: apply one incoming event to the client table and the
//! transaction ledger, reporting business-rule failures without halting.

use std::collections::HashMap;
use vstd::prelude::*;

use crate::client::Client;
use crate::decimal::Decimal;
use crate::transaction::{DisputableTransaction, DisputableType, Transaction, Type};
use crate::transaction_set::{transition_allowed, Client as TransactionSetClient, State, UpdateFailure};

verus! {

broadcast use vstd::std_specs::hash::group_hash_axioms, crate::decimal::lemma_value_bounds;

/// What processing one event came to; rejections carry the same diagnostics
/// the event source reports.
#[derive(Clone, Copy, Debug, PartialEq, Eq, Structural)]
pub enum ProcessOutcome {
    /// The event was applied in full.
    Applied,
    /// A withdrawal against a locked account.
    WithdrawalFrozen,
    /// A withdrawal exceeding the available funds, which are carried along.
    WithdrawalInsufficient(Decimal),
    /// A dispute against an unknown transaction or one in the wrong state.
    DisputeRejected(UpdateFailure),
    /// A resolve against an unknown transaction or one in the wrong state.
    ResolveRejected(UpdateFailure),
    /// A resolve whose account-level release failed: the requested amount
    /// and the most that could be released.
    ResolveShortfall(Decimal, Decimal),
    /// A chargeback against an unknown transaction or one in the wrong state.
    ChargebackRejected(UpdateFailure),
    /// A chargeback whose account-level relief failed: the requested amount
    /// and the most that could be relieved. The account is locked anyway.
    ChargebackShortfall(Decimal, Decimal),
}

/// The account an event lands on: the stored one, or a fresh one created on
/// first reference.
pub open spec fn lookup_or_new(clients: Map<u16, Client>, id: u16) -> Client {
    if clients.contains_key(id) {
        clients[id]
    } else {
        Client::spec_new(id)
    }
}

/// The total that the touched account may grow to; bounded so that no
/// bucket arithmetic can overflow.
pub open spec fn client_sum(clients: Map<u16, Client>, id: u16) -> int {
    lookup_or_new(clients, id).grand_total()
}

/// The room an event needs: deposits grow the account by their amount, and
/// a dispute that will be honoured grows it by the disputed amount.
pub open spec fn headroom_ok(
    t: Transaction,
    clients: Map<u16, Client>,
    ledger: Map<u32, (DisputableTransaction, State)>,
) -> bool {
    match t.type_ {
        Type::Disputable(DisputableType::Deposit(a)) => client_sum(clients, t.client_id)
            + a.value() <= Decimal::max_value(),
        Type::Disputable(DisputableType::Withdrawal(_)) => true,
        Type::Dispute => ledger.contains_key(t.transaction_id) && ledger[t.transaction_id].1
            == State::Committed ==> client_sum(clients, t.client_id)
            + ledger[t.transaction_id].0.type_.amount().value() <= Decimal::max_value(),
        Type::Resolve => true,
        Type::Chargeback => true,
    }
}

/// Balances and lock flag agree.
pub open spec fn same_account(a: Client, b: Client) -> bool {
    &&& a.client_id() == b.client_id()
    &&& a.available_val() == b.available_val()
    &&& a.held_val() == b.held_val()
    &&& a.held_reserve_val() == b.held_reserve_val()
    &&& a.reserve_val() == b.reserve_val()
    &&& a.is_locked() == b.is_locked()
}

/// Identity and lock flag agree, and the withdrawal reserve is untouched.
pub open spec fn same_but_buckets(a: Client, b: Client) -> bool {
    &&& a.client_id() == b.client_id()
    &&& a.is_locked() == b.is_locked()
    &&& a.reserve_val() == b.reserve_val()
}

/// How a deposit moves the buckets: the held-reserve is satisfied first.
pub open spec fn deposit_rel(c0: Client, a: Decimal, c1: Client) -> bool {
    &&& same_but_buckets(c1, c0)
    &&& if c0.held_reserve_val() >= a.value() {
        &&& c1.held_reserve_val() == c0.held_reserve_val() - a.value()
        &&& c1.held_val() == c0.held_val() + a.value()
        &&& c1.available_val() == c0.available_val()
    } else {
        &&& c1.held_reserve_val() == 0
        &&& c1.held_val() == c0.held_val() + c0.held_reserve_val()
        &&& c1.available_val() == c0.available_val() + a.value() - c0.held_reserve_val()
    }
}

/// How a committed withdrawal moves the buckets.
pub open spec fn withdraw_rel(c0: Client, a: Decimal, c1: Client) -> bool {
    &&& same_but_buckets(c1, c0)
    &&& c1.held_val() == c0.held_val()
    &&& c1.held_reserve_val() == c0.held_reserve_val()
    &&& c1.available_val() == c0.available_val() - a.value()
}

/// How a deposit dispute moves the buckets: what `available` cannot cover
/// becomes a held-reserve debt.
pub open spec fn dispute_deposit_rel(c0: Client, a: Decimal, c1: Client) -> bool {
    &&& same_but_buckets(c1, c0)
    &&& if c0.available_val() >= a.value() {
        &&& c1.available_val() == c0.available_val() - a.value()
        &&& c1.held_val() == c0.held_val() + a.value()
        &&& c1.held_reserve_val() == c0.held_reserve_val()
    } else {
        &&& c1.available_val() == 0
        &&& c1.held_val() == c0.held_val() + c0.available_val()
        &&& c1.held_reserve_val() == c0.held_reserve_val() + a.value() - c0.available_val()
    }
}

/// How a withdrawal dispute moves the buckets: only the reserve grows.
pub open spec fn dispute_withdrawal_rel(c0: Client, a: Decimal, c1: Client) -> bool {
    &&& c1.client_id() == c0.client_id()
    &&& c1.is_locked() == c0.is_locked()
    &&& c1.available_val() == c0.available_val()
    &&& c1.held_val() == c0.held_val()
    &&& c1.held_reserve_val() == c0.held_reserve_val()
    &&& c1.reserve_val() == c0.reserve_val() + a.value()
}

/// How a successful deposit resolve moves the buckets: the held-reserve is
/// relieved first, the rest returns from `held` to `available`.
pub open spec fn resolve_deposit_rel(c0: Client, a: Decimal, c1: Client) -> bool {
    &&& same_but_buckets(c1, c0)
    &&& if c0.held_reserve_val() >= a.value() {
        &&& c1.held_reserve_val() == c0.held_reserve_val() - a.value()
        &&& c1.held_val() == c0.held_val()
        &&& c1.available_val() == c0.available_val()
    } else {
        &&& c1.held_reserve_val() == 0
        &&& c1.held_val() == c0.held_val() - (a.value() - c0.held_reserve_val())
        &&& c1.available_val() == c0.available_val() + (a.value() - c0.held_reserve_val())
    }
}

/// How a successful deposit chargeback moves the buckets: as a resolve, but
/// the freed funds are forfeited, and the account is locked.
pub open spec fn chargeback_deposit_rel(c0: Client, a: Decimal, c1: Client) -> bool {
    &&& c1.client_id() == c0.client_id()
    &&& c1.is_locked()
    &&& c1.reserve_val() == c0.reserve_val()
    &&& c1.available_val() == c0.available_val()
    &&& if c0.held_reserve_val() >= a.value() {
        &&& c1.held_reserve_val() == c0.held_reserve_val() - a.value()
        &&& c1.held_val() == c0.held_val()
    } else {
        &&& c1.held_reserve_val() == 0
        &&& c1.held_val() == c0.held_val() - (a.value() - c0.held_reserve_val())
    }
}

/// How a successful withdrawal chargeback moves the buckets: the reserve is
/// relieved, the amount returns to `available`, and the account is locked.
pub open spec fn chargeback_withdrawal_rel(c0: Client, a: Decimal, c1: Client) -> bool {
    &&& c1.client_id() == c0.client_id()
    &&& c1.is_locked()
    &&& c1.held_val() == c0.held_val()
    &&& c1.held_reserve_val() == c0.held_reserve_val()
    &&& c1.reserve_val() == c0.reserve_val() - a.value()
    &&& c1.available_val() == c0.available_val() + a.value()
}

/// The account after a failed chargeback: untouched but for the lock.
pub open spec fn locked_only_rel(c0: Client, c1: Client) -> bool {
    &&& c1.client_id() == c0.client_id()
    &&& c1.is_locked()
    &&& c1.available_val() == c0.available_val()
    &&& c1.held_val() == c0.held_val()
    &&& c1.held_reserve_val() == c0.held_reserve_val()
    &&& c1.reserve_val() == c0.reserve_val()
}

/// Everything one event does: how the client table, the ledger and the
/// outcome after the event relate to the state before it.
pub open spec fn engine_step(
    t: Transaction,
    clients0: Map<u16, Client>,
    ledger0: Map<u32, (DisputableTransaction, State)>,
    clients1: Map<u16, Client>,
    ledger1: Map<u32, (DisputableTransaction, State)>,
    outcome: ProcessOutcome,
) -> bool {
    let cid = t.client_id;
    let tid = t.transaction_id;
    let c0 = lookup_or_new(clients0, cid);
    let c1 = clients1[cid];
    &&& clients1 == clients0.insert(cid, c1)
    &&& match t.type_ {
        Type::Disputable(DisputableType::Deposit(a)) => {
            &&& deposit_rel(c0, a, c1)
            &&& ledger1 == ledger0.insert(
                tid,
                (
                    (DisputableTransaction {
                        client_id: cid,
                        transaction_id: tid,
                        type_: DisputableType::Deposit(a),
                    }),
                    State::Committed,
                ),
            )
            &&& outcome == ProcessOutcome::Applied
        },
        Type::Disputable(DisputableType::Withdrawal(a)) => {
            if c0.is_locked() {
                &&& same_account(c1, c0)
                &&& ledger1 == ledger0
                &&& outcome == ProcessOutcome::WithdrawalFrozen
            } else if c0.available_val() >= a.value() {
                &&& withdraw_rel(c0, a, c1)
                &&& ledger1 == ledger0.insert(
                    tid,
                    (
                        (DisputableTransaction {
                            client_id: cid,
                            transaction_id: tid,
                            type_: DisputableType::Withdrawal(a),
                        }),
                        State::Committed,
                    ),
                )
                &&& outcome == ProcessOutcome::Applied
            } else {
                &&& same_account(c1, c0)
                &&& ledger1 == ledger0
                &&& outcome matches ProcessOutcome::WithdrawalInsufficient(d) && d.wf()
                    && d.value() == c0.available_val()
            }
        },
        Type::Dispute => {
            if !ledger0.contains_key(tid) {
                &&& same_account(c1, c0)
                &&& ledger1 == ledger0
                &&& outcome == ProcessOutcome::DisputeRejected(UpdateFailure::NotFound)
            } else if !transition_allowed(ledger0[tid].1, State::Disputed) {
                &&& same_account(c1, c0)
                &&& ledger1 == ledger0
                &&& outcome == ProcessOutcome::DisputeRejected(
                    UpdateFailure::WrongState(ledger0[tid].1),
                )
            } else {
                let rec = ledger0[tid].0;
                &&& ledger1 == ledger0.insert(tid, (rec, State::Disputed))
                &&& match rec.type_ {
                    DisputableType::Deposit(a) => dispute_deposit_rel(c0, a, c1),
                    DisputableType::Withdrawal(a) => dispute_withdrawal_rel(c0, a, c1),
                }
                &&& outcome == ProcessOutcome::Applied
            }
        },
        Type::Resolve => {
            if !ledger0.contains_key(tid) {
                &&& same_account(c1, c0)
                &&& ledger1 == ledger0
                &&& outcome == ProcessOutcome::ResolveRejected(UpdateFailure::NotFound)
            } else if !transition_allowed(ledger0[tid].1, State::Resolved) {
                &&& same_account(c1, c0)
                &&& ledger1 == ledger0
                &&& outcome == ProcessOutcome::ResolveRejected(
                    UpdateFailure::WrongState(ledger0[tid].1),
                )
            } else {
                let rec = ledger0[tid].0;
                match rec.type_ {
                    DisputableType::Deposit(a) => {
                        if c0.held_val() + c0.held_reserve_val() >= a.value() {
                            // Account release succeeded: the entry returns to
                            // Committed and can be disputed again.
                            &&& resolve_deposit_rel(c0, a, c1)
                            &&& ledger1 == ledger0.insert(tid, (rec, State::Committed))
                            &&& outcome == ProcessOutcome::Applied
                        } else {
                            // Account release failed: the attempted roll-back
                            // to Disputed is itself illegal, so the entry
                            // stays Resolved.
                            &&& same_account(c1, c0)
                            &&& ledger1 == ledger0.insert(tid, (rec, State::Resolved))
                            &&& outcome matches ProcessOutcome::ResolveShortfall(req, avail)
                                && req == a && avail.wf() && avail.value() == c0.held_val()
                                + c0.held_reserve_val()
                        }
                    },
                    DisputableType::Withdrawal(a) => {
                        if c0.reserve_val() >= a.value() {
                            &&& c1.client_id() == c0.client_id()
                            &&& c1.is_locked() == c0.is_locked()
                            &&& c1.available_val() == c0.available_val()
                            &&& c1.held_val() == c0.held_val()
                            &&& c1.held_reserve_val() == c0.held_reserve_val()
                            &&& c1.reserve_val() == c0.reserve_val() - a.value()
                            &&& ledger1 == ledger0.insert(tid, (rec, State::Committed))
                            &&& outcome == ProcessOutcome::Applied
                        } else {
                            &&& same_account(c1, c0)
                            &&& ledger1 == ledger0.insert(tid, (rec, State::Resolved))
                            &&& outcome matches ProcessOutcome::ResolveShortfall(req, avail)
                                && req == a && avail.wf() && avail.value() == c0.reserve_val()
                        }
                    },
                }
            }
        },
        Type::Chargeback => {
            if !ledger0.contains_key(tid) {
                &&& same_account(c1, c0)
                &&& ledger1 == ledger0
                &&& outcome == ProcessOutcome::ChargebackRejected(UpdateFailure::NotFound)
            } else if !transition_allowed(ledger0[tid].1, State::ChargedBack) {
                &&& same_account(c1, c0)
                &&& ledger1 == ledger0
                &&& outcome == ProcessOutcome::ChargebackRejected(
                    UpdateFailure::WrongState(ledger0[tid].1),
                )
            } else {
                let rec = ledger0[tid].0;
                match rec.type_ {
                    DisputableType::Deposit(a) => {
                        if c0.held_val() + c0.held_reserve_val() >= a.value() {
                            &&& chargeback_deposit_rel(c0, a, c1)
                            &&& ledger1 == ledger0.insert(tid, (rec, State::ChargedBackFinal))
                            &&& outcome == ProcessOutcome::Applied
                        } else {
                            // Relief failed, but the account is locked all
                            // the same; the roll-back to Disputed is illegal,
                            // so the entry stays ChargedBack.
                            &&& locked_only_rel(c0, c1)
                            &&& ledger1 == ledger0.insert(tid, (rec, State::ChargedBack))
                            &&& outcome matches ProcessOutcome::ChargebackShortfall(req, avail)
                                && req == a && avail.wf() && avail.value() == c0.held_val()
                                + c0.held_reserve_val()
                        }
                    },
                    DisputableType::Withdrawal(a) => {
                        if c0.reserve_val() >= a.value() {
                            &&& chargeback_withdrawal_rel(c0, a, c1)
                            &&& ledger1 == ledger0.insert(tid, (rec, State::ChargedBackFinal))
                            &&& outcome == ProcessOutcome::Applied
                        } else {
                            &&& locked_only_rel(c0, c1)
                            &&& ledger1 == ledger0.insert(tid, (rec, State::ChargedBack))
                            &&& outcome matches ProcessOutcome::ChargebackShortfall(req, avail)
                                && req == a && avail.wf() && avail.value() == c0.reserve_val()
                        }
                    },
                }
            }
        },
    }
}

/// A lock is permanent: no event, of any kind, ever unlocks any account.
pub proof fn lemma_frozen_is_monotone(
    t: Transaction,
    clients0: Map<u16, Client>,
    ledger0: Map<u32, (DisputableTransaction, State)>,
    clients1: Map<u16, Client>,
    ledger1: Map<u32, (DisputableTransaction, State)>,
    outcome: ProcessOutcome,
    id: u16,
)
    requires
        engine_step(t, clients0, ledger0, clients1, ledger1, outcome),
        lookup_or_new(clients0, id).is_locked(),
    ensures
        lookup_or_new(clients1, id).is_locked(),
{
}

/// Every chargeback that reaches the account locks it, whether or not the
/// account-level relief succeeds.
pub proof fn lemma_chargeback_locks(
    t: Transaction,
    clients0: Map<u16, Client>,
    ledger0: Map<u32, (DisputableTransaction, State)>,
    clients1: Map<u16, Client>,
    ledger1: Map<u32, (DisputableTransaction, State)>,
    outcome: ProcessOutcome,
)
    requires
        engine_step(t, clients0, ledger0, clients1, ledger1, outcome),
        t.type_ == Type::Chargeback,
        ledger0.contains_key(t.transaction_id),
        transition_allowed(ledger0[t.transaction_id].1, State::ChargedBack),
    ensures
        lookup_or_new(clients1, t.client_id).is_locked(),
{
}

/// A withdrawal against a locked account is rejected as frozen, whatever
/// the available balance, and moves nothing.
pub proof fn lemma_frozen_rejects_withdrawal(
    t: Transaction,
    clients0: Map<u16, Client>,
    ledger0: Map<u32, (DisputableTransaction, State)>,
    clients1: Map<u16, Client>,
    ledger1: Map<u32, (DisputableTransaction, State)>,
    outcome: ProcessOutcome,
)
    requires
        engine_step(t, clients0, ledger0, clients1, ledger1, outcome),
        t.type_ matches Type::Disputable(DisputableType::Withdrawal(_)),
        lookup_or_new(clients0, t.client_id).is_locked(),
    ensures
        outcome == ProcessOutcome::WithdrawalFrozen,
        same_account(lookup_or_new(clients1, t.client_id), lookup_or_new(clients0, t.client_id)),
        ledger1 == ledger0,
{
}

/// Apply one event: look up or create the account, drive the ledger state
/// machine, and apply the matching account operation. Failures are reported
/// in the outcome and never halt processing; no failure leaves a partial
/// mutation behind (a chargeback locks the account even when its relief
/// fails, as the rules demand).
pub fn process_transaction<T: TransactionSetClient>(
    transaction: Transaction,
    clients: &mut HashMap<u16, Client>,
    tx_record: &mut T,
) -> (r: ProcessOutcome)
    requires
        headroom_ok(transaction, old(clients)@, old(tx_record).ledger()),
    ensures
        engine_step(
            transaction,
            old(clients)@,
            old(tx_record).ledger(),
            final(clients)@,
            final(tx_record).ledger(),
            r,
        ),
{
    let cid = transaction.client_id;
    let tid = transaction.transaction_id;
    let ghost clients0 = clients@;
    let ghost ledger0 = tx_record.ledger();
    let mut client: Client = match clients.remove(&cid) {
        Some(c) => c,
        None => Client::new(cid),
    };
    proof {
        use_type_invariant(&client);
        crate::client::lemma_spec_new(cid);
        assert(client == lookup_or_new(clients0, cid));
    }
    let outcome: ProcessOutcome = match transaction.type_ {
        Type::Disputable(DisputableType::Deposit(ref deposit)) => {
            client.deposit(*deposit);
            tx_record.store(
                DisputableTransaction {
                    transaction_id: tid,
                    client_id: cid,
                    type_: DisputableType::Deposit(*deposit),
                },
            );
            ProcessOutcome::Applied
        },
        Type::Disputable(DisputableType::Withdrawal(ref withdrawal)) => match client.withdraw(
            *withdrawal,
        ) {
            Err(Some(present)) => ProcessOutcome::WithdrawalInsufficient(present),
            Err(None) => ProcessOutcome::WithdrawalFrozen,
            Ok(()) => {
                tx_record.store(
                    DisputableTransaction {
                        transaction_id: tid,
                        client_id: cid,
                        type_: DisputableType::Withdrawal(*withdrawal),
                    },
                );
                ProcessOutcome::Applied
            },
        },
        Type::Dispute => match tx_record.update(tid, State::Disputed) {
            Err(f) => ProcessOutcome::DisputeRejected(f),
            Ok(disputed) => {
                match disputed.type_ {
                    DisputableType::Deposit(value) => client.dispute_deposit(value),
                    DisputableType::Withdrawal(value) => client.dispute_withdrawal(value),
                }
                ProcessOutcome::Applied
            },
        },
        Type::Resolve => match tx_record.update(tid, State::Resolved) {
            Err(f) => ProcessOutcome::ResolveRejected(f),
            Ok(disputed) => {
                let (value, result) = match disputed.type_ {
                    DisputableType::Deposit(value) => (value, client.resolve_deposit(value)),
                    DisputableType::Withdrawal(value) => (
                        value,
                        client.resolve_withdrawal(value),
                    ),
                };
                match result {
                    Ok(_) => {
                        let _ = tx_record.update(tid, State::Committed);
                        ProcessOutcome::Applied
                    },
                    Err(resolveable) => {
                        // The roll-back request is rejected by the transition
                        // table and leaves the entry Resolved.
                        let _ = tx_record.update(tid, State::Disputed);
                        ProcessOutcome::ResolveShortfall(value, resolveable)
                    },
                }
            },
        },
        Type::Chargeback => match tx_record.update(tid, State::ChargedBack) {
            Err(f) => ProcessOutcome::ChargebackRejected(f),
            Ok(disputed) => {
                let (value, result) = match disputed.type_ {
                    DisputableType::Deposit(value) => (value, client.chargeback_deposit(value)),
                    DisputableType::Withdrawal(value) => (
                        value,
                        client.chargeback_withdrawal(value),
                    ),
                };
                match result {
                    Ok(_) => {
                        let _ = tx_record.update(tid, State::ChargedBackFinal);
                        ProcessOutcome::Applied
                    },
                    Err(chargeable) => {
                        // The roll-back request is rejected by the transition
                        // table and leaves the entry ChargedBack.
                        let _ = tx_record.update(tid, State::Disputed);
                        ProcessOutcome::ChargebackShortfall(value, chargeable)
                    },
                }
            },
        },
    };
    let ghost cg = client;
    clients.insert(cid, client);
    proof {
        assert(clients@ =~= clients0.insert(cid, cg));
        if ledger0.contains_key(tid) {
            let rec = ledger0[tid].0;
            assert(ledger0.insert(tid, (rec, State::Resolved)).insert(
                tid,
                (rec, State::Committed),
            ) =~= ledger0.insert(tid, (rec, State::Committed)));
            assert(ledger0.insert(tid, (rec, State::ChargedBack)).insert(
                tid,
                (rec, State::ChargedBackFinal),
            ) =~= ledger0.insert(tid, (rec, State::ChargedBackFinal)));
        }
    }
    outcome
}

} // verus!
