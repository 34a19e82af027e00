use std::collections::HashMap;

use payments_engine::client::Client;
use payments_engine::decimal::Decimal;
use payments_engine::engine::{process_transaction, ProcessOutcome};
use payments_engine::transaction::{DisputableType, Transaction, Type};
use payments_engine::transaction_set::{
    Client as TransactionSetClient, MemoryClient, State, UpdateFailure,
};

fn deposit(client_id: u16, transaction_id: u32, amount: Decimal) -> Transaction {
    Transaction {
        client_id,
        transaction_id,
        type_: Type::Disputable(DisputableType::Deposit(amount)),
    }
}

fn withdrawal(client_id: u16, transaction_id: u32, amount: Decimal) -> Transaction {
    Transaction {
        client_id,
        transaction_id,
        type_: Type::Disputable(DisputableType::Withdrawal(amount)),
    }
}

fn dispute(client_id: u16, transaction_id: u32) -> Transaction {
    Transaction { client_id, transaction_id, type_: Type::Dispute }
}

fn resolve(client_id: u16, transaction_id: u32) -> Transaction {
    Transaction { client_id, transaction_id, type_: Type::Resolve }
}

fn chargeback(client_id: u16, transaction_id: u32) -> Transaction {
    Transaction { client_id, transaction_id, type_: Type::Chargeback }
}

fn one_unit() -> Decimal {
    Decimal::parse("1.0").unwrap()
}

#[test]
fn scenario_single_deposit() {
    let mut clients: HashMap<u16, Client> = HashMap::new();
    let mut store = MemoryClient::default();
    assert_eq!(
        process_transaction(deposit(1, 1, one_unit()), &mut clients, &mut store),
        ProcessOutcome::Applied
    );
    let out = clients.get(&1).unwrap().output();
    assert_eq!(out.available.display(), "1.0000");
    assert_eq!(out.held.display(), "0.0000");
    assert_eq!(out.total.display(), "1.0000");
    assert!(!out.locked);
}

#[test]
fn scenario_dispute_holds_funds() {
    let mut clients: HashMap<u16, Client> = HashMap::new();
    let mut store = MemoryClient::default();
    process_transaction(deposit(1, 1, one_unit()), &mut clients, &mut store);
    assert_eq!(
        process_transaction(dispute(1, 1), &mut clients, &mut store),
        ProcessOutcome::Applied
    );
    let out = clients.get(&1).unwrap().output();
    assert_eq!(out.available.display(), "0.0000");
    assert_eq!(out.held.display(), "1.0000");
}

#[test]
fn scenario_resolve_releases_and_allows_redispute() {
    let mut clients: HashMap<u16, Client> = HashMap::new();
    let mut store = MemoryClient::default();
    process_transaction(deposit(1, 1, one_unit()), &mut clients, &mut store);
    process_transaction(dispute(1, 1), &mut clients, &mut store);
    assert_eq!(
        process_transaction(resolve(1, 1), &mut clients, &mut store),
        ProcessOutcome::Applied
    );
    let out = clients.get(&1).unwrap().output();
    assert_eq!(out.available.display(), "1.0000");
    assert_eq!(out.held.display(), "0.0000");
    // The ledger entry is back to Committed and can be disputed again.
    assert_eq!(store.access(1).unwrap().1, State::Committed);
    assert_eq!(
        process_transaction(dispute(1, 1), &mut clients, &mut store),
        ProcessOutcome::Applied
    );
}

#[test]
fn scenario_chargeback_locks_account() {
    let mut clients: HashMap<u16, Client> = HashMap::new();
    let mut store = MemoryClient::default();
    process_transaction(deposit(1, 1, one_unit()), &mut clients, &mut store);
    process_transaction(dispute(1, 1), &mut clients, &mut store);
    assert_eq!(
        process_transaction(chargeback(1, 1), &mut clients, &mut store),
        ProcessOutcome::Applied
    );
    let out = clients.get(&1).unwrap().output();
    assert_eq!(out.held.display(), "0.0000");
    assert!(out.locked);
    assert_eq!(store.access(1).unwrap().1, State::ChargedBackFinal);
    // Any later withdrawal is rejected as frozen, whatever the amount.
    assert_eq!(
        process_transaction(withdrawal(1, 2, Decimal::zero()), &mut clients, &mut store),
        ProcessOutcome::WithdrawalFrozen
    );
}

#[test]
fn scenario_insufficient_withdrawal_leaves_no_record() {
    let mut clients: HashMap<u16, Client> = HashMap::new();
    let mut store = MemoryClient::default();
    process_transaction(deposit(1, 1, one_unit()), &mut clients, &mut store);
    let out = process_transaction(
        withdrawal(1, 2, Decimal::parse("5.0").unwrap()),
        &mut clients,
        &mut store,
    );
    assert_eq!(out, ProcessOutcome::WithdrawalInsufficient(Decimal::new(1, 0)));
    // A rejected withdrawal is never recorded, so it cannot be disputed.
    assert_eq!(store.access(2), None);
    assert_eq!(clients.get(&1).unwrap().output().available.display(), "1.0000");
}

#[test]
fn scenario_dispute_of_unknown_transaction() {
    let mut clients: HashMap<u16, Client> = HashMap::new();
    let mut store = MemoryClient::default();
    process_transaction(deposit(1, 1, one_unit()), &mut clients, &mut store);
    assert_eq!(
        process_transaction(dispute(1, 99), &mut clients, &mut store),
        ProcessOutcome::DisputeRejected(UpdateFailure::NotFound)
    );
    // No state changed anywhere.
    let out = clients.get(&1).unwrap().output();
    assert_eq!(out.available.display(), "1.0000");
    assert_eq!(out.held.display(), "0.0000");
    assert_eq!(store.access(1).unwrap().1, State::Committed);
}

#[test]
fn dispute_in_wrong_state_is_rejected() {
    let mut clients: HashMap<u16, Client> = HashMap::new();
    let mut store = MemoryClient::default();
    process_transaction(deposit(1, 1, one_unit()), &mut clients, &mut store);
    process_transaction(dispute(1, 1), &mut clients, &mut store);
    // A second dispute of a transaction already under dispute is refused.
    assert_eq!(
        process_transaction(dispute(1, 1), &mut clients, &mut store),
        ProcessOutcome::DisputeRejected(UpdateFailure::WrongState(State::Disputed))
    );
}

#[test]
fn resolve_shortfall_reports_and_keeps_entry_resolved() {
    // The engine applies lifecycle events to the account named by the
    // incoming record, so a resolve naming a client that never held the
    // disputed funds fails at the account level.
    let mut clients: HashMap<u16, Client> = HashMap::new();
    let mut store = MemoryClient::default();
    process_transaction(deposit(1, 1, Decimal::new(5, 0)), &mut clients, &mut store);
    process_transaction(dispute(1, 1), &mut clients, &mut store);
    let out = process_transaction(resolve(2, 1), &mut clients, &mut store);
    assert_eq!(
        out,
        ProcessOutcome::ResolveShortfall(Decimal::new(5, 0), Decimal::zero())
    );
    // The attempted roll-back to Disputed is illegal, so the entry stays
    // Resolved, and a further resolve is refused outright.
    assert_eq!(store.access(1).unwrap().1, State::Resolved);
    assert_eq!(
        process_transaction(resolve(1, 1), &mut clients, &mut store),
        ProcessOutcome::ResolveRejected(UpdateFailure::WrongState(State::Resolved))
    );
    // Client 1 still has its funds held.
    assert_eq!(clients.get(&1).unwrap().output().held.display(), "5.0000");
}

#[test]
fn chargeback_shortfall_still_locks_the_named_account() {
    // A chargeback naming a client that never held the disputed funds
    // fails at the account level, but that account is locked anyway.
    let mut clients: HashMap<u16, Client> = HashMap::new();
    let mut store = MemoryClient::default();
    process_transaction(deposit(1, 1, Decimal::new(5, 0)), &mut clients, &mut store);
    process_transaction(dispute(1, 1), &mut clients, &mut store);
    let out = process_transaction(chargeback(2, 1), &mut clients, &mut store);
    assert_eq!(
        out,
        ProcessOutcome::ChargebackShortfall(Decimal::new(5, 0), Decimal::zero())
    );
    assert!(clients.get(&2).unwrap().output().locked);
    // The entry stays ChargedBack: only finalization can follow.
    assert_eq!(store.access(1).unwrap().1, State::ChargedBack);
    assert_eq!(
        process_transaction(resolve(1, 1), &mut clients, &mut store),
        ProcessOutcome::ResolveRejected(UpdateFailure::WrongState(State::ChargedBack))
    );
}

#[test]
fn resolve_and_chargeback_of_unknown_transactions_are_rejected() {
    let mut clients: HashMap<u16, Client> = HashMap::new();
    let mut store = MemoryClient::default();
    assert_eq!(
        process_transaction(resolve(1, 42), &mut clients, &mut store),
        ProcessOutcome::ResolveRejected(UpdateFailure::NotFound)
    );
    assert_eq!(
        process_transaction(chargeback(1, 42), &mut clients, &mut store),
        ProcessOutcome::ChargebackRejected(UpdateFailure::NotFound)
    );
}

#[test]
fn chargeback_without_dispute_is_rejected() {
    let mut clients: HashMap<u16, Client> = HashMap::new();
    let mut store = MemoryClient::default();
    process_transaction(deposit(1, 1, one_unit()), &mut clients, &mut store);
    assert_eq!(
        process_transaction(chargeback(1, 1), &mut clients, &mut store),
        ProcessOutcome::ChargebackRejected(UpdateFailure::WrongState(State::Committed))
    );
    // The account was not locked by the rejected chargeback.
    assert!(!clients.get(&1).unwrap().output().locked);
}

#[test]
fn withdrawal_is_recorded_and_can_be_charged_back() {
    let mut clients: HashMap<u16, Client> = HashMap::new();
    let mut store = MemoryClient::default();
    process_transaction(deposit(1, 1, Decimal::new(10, 0)), &mut clients, &mut store);
    assert_eq!(
        process_transaction(withdrawal(1, 2, Decimal::new(4, 0)), &mut clients, &mut store),
        ProcessOutcome::Applied
    );
    process_transaction(dispute(1, 2), &mut clients, &mut store);
    assert_eq!(
        process_transaction(chargeback(1, 2), &mut clients, &mut store),
        ProcessOutcome::Applied
    );
    let out = clients.get(&1).unwrap().output();
    // The withdrawal was reversed and the account locked.
    assert_eq!(out.available.display(), "10.0000");
    assert!(out.locked);
}
