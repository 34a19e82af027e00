use payments_engine::decimal::Decimal;
use payments_engine::transaction::{DisputableTransaction, DisputableType};
use payments_engine::transaction_set::{Client, MemoryClient, State, UpdateFailure};

fn record(transaction_id: u32) -> DisputableTransaction {
    DisputableTransaction {
        client_id: 1,
        transaction_id,
        type_: DisputableType::Deposit(Decimal::new(1, 0)),
    }
}

/// Drive a fresh store so that entry 1 sits in the given state.
fn store_in_state(state: State) -> MemoryClient {
    let mut store = MemoryClient::default();
    store.store(record(1));
    match state {
        State::Committed => {}
        State::Disputed => {
            store.update(1, State::Disputed).unwrap();
        }
        State::Resolved => {
            store.update(1, State::Disputed).unwrap();
            store.update(1, State::Resolved).unwrap();
        }
        State::ChargedBack => {
            store.update(1, State::Disputed).unwrap();
            store.update(1, State::ChargedBack).unwrap();
        }
        State::ChargedBackFinal => {
            store.update(1, State::Disputed).unwrap();
            store.update(1, State::ChargedBack).unwrap();
            store.update(1, State::ChargedBackFinal).unwrap();
        }
    }
    store
}

#[test]
fn basic_client_test() {
    let mut client = MemoryClient::default();

    assert_eq!(client.access(0), None);
    client.store(DisputableTransaction {
        client_id: 501,
        transaction_id: 16,
        type_: DisputableType::Withdrawal(Decimal::zero()),
    });
    assert_eq!(client.access(0), None);
    assert_eq!(client.access(16).is_some(), true);
}

#[test]
fn legal_transitions_commit_atomically() {
    let mut store = MemoryClient::default();
    store.store(record(1));
    assert_eq!(store.access(1).unwrap().1, State::Committed);

    assert!(store.update(1, State::Disputed).is_ok());
    assert_eq!(store.access(1).unwrap().1, State::Disputed);

    assert!(store.update(1, State::Resolved).is_ok());
    assert_eq!(store.access(1).unwrap().1, State::Resolved);

    assert!(store.update(1, State::Committed).is_ok());
    assert_eq!(store.access(1).unwrap().1, State::Committed);

    assert!(store.update(1, State::Disputed).is_ok());
    assert!(store.update(1, State::ChargedBack).is_ok());
    assert_eq!(store.access(1).unwrap().1, State::ChargedBack);

    assert!(store.update(1, State::ChargedBackFinal).is_ok());
    assert_eq!(store.access(1).unwrap().1, State::ChargedBackFinal);
}

#[test]
fn every_illegal_transition_fails_and_changes_nothing() {
    let all = [
        State::Committed,
        State::Resolved,
        State::Disputed,
        State::ChargedBack,
        State::ChargedBackFinal,
    ];
    let legal = [
        (State::Committed, State::Disputed),
        (State::Disputed, State::Resolved),
        (State::Disputed, State::ChargedBack),
        (State::Resolved, State::Committed),
        (State::ChargedBack, State::ChargedBackFinal),
    ];
    for current in all {
        for requested in all {
            if legal.contains(&(current, requested)) {
                continue;
            }
            let mut store = store_in_state(current);
            assert_eq!(
                store.update(1, requested),
                Err(UpdateFailure::WrongState(current)),
                "expected refusal for {:?} -> {:?}",
                current,
                requested
            );
            // The stored state is untouched.
            assert_eq!(store.access(1).unwrap().1, current);
        }
    }
}

#[test]
fn unknown_id_fails_with_not_found() {
    let mut store = MemoryClient::default();
    store.store(record(1));
    for requested in [
        State::Committed,
        State::Resolved,
        State::Disputed,
        State::ChargedBack,
        State::ChargedBackFinal,
    ] {
        assert_eq!(store.update(99, requested), Err(UpdateFailure::NotFound));
    }
    assert_eq!(store.access(99), None);
}

#[test]
fn duplicate_store_overwrites_silently() {
    let mut store = MemoryClient::default();
    store.store(record(1));
    store.update(1, State::Disputed).unwrap();
    let replacement = DisputableTransaction {
        client_id: 2,
        transaction_id: 1,
        type_: DisputableType::Withdrawal(Decimal::new(9, 0)),
    };
    store.store(replacement);
    let (stored, state) = store.access(1).unwrap();
    assert_eq!(stored, replacement);
    assert_eq!(state, State::Committed);
}

#[test]
fn update_returns_the_stored_record() {
    let mut store = MemoryClient::default();
    store.store(record(5));
    assert_eq!(store.update(5, State::Disputed), Ok(record(5)));
}
