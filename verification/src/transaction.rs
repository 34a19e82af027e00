//! Incoming events and the records kept for later disputes.

use vstd::prelude::*;

use crate::decimal::Decimal;

verus! {

/// What kind of settled transaction a dispute can target, with its amount.
#[derive(Clone, Copy, Debug, PartialEq, Eq, Structural)]
pub enum DisputableType {
    Deposit(Decimal),
    Withdrawal(Decimal),
}

impl DisputableType {
    /// The amount the record was settled for.
    pub open spec fn amount(self) -> Decimal {
        match self {
            DisputableType::Deposit(d) => d,
            DisputableType::Withdrawal(d) => d,
        }
    }
}

/// The record kept for a settled deposit or withdrawal so that it can be
/// disputed later.
#[derive(Clone, Copy, Debug, PartialEq, Eq, Structural)]
pub struct DisputableTransaction {
    pub client_id: u16,
    pub transaction_id: u32,
    pub type_: DisputableType,
}

/// What an incoming event asks for.
#[derive(Clone, Copy, Debug, PartialEq, Eq, Structural)]
pub enum Type {
    Disputable(DisputableType),
    Dispute,
    Resolve,
    Chargeback,
}

/// One incoming event.
#[derive(Clone, Copy, Debug, PartialEq, Eq, Structural)]
pub struct Transaction {
    pub client_id: u16,
    pub transaction_id: u32,
    pub type_: Type,
}

/// A record that could not be turned into an event: a deposit or withdrawal
/// arrived without an amount.
#[derive(Clone, Copy, Debug, PartialEq, Eq, Structural)]
pub struct Error;

/// The five textual record kinds of the input stream.
#[derive(Clone, Copy, Debug, PartialEq, Eq, Structural)]
pub enum RecordKind {
    Deposit,
    Withdrawal,
    Dispute,
    Resolve,
    Chargeback,
}

impl Transaction {
    /// Build an event from a raw input record. Deposits and withdrawals need
    /// an amount; the lifecycle kinds ignore one.
    pub fn from_record(
        kind: RecordKind,
        client_id: u16,
        transaction_id: u32,
        amount: Option<Decimal>,
    ) -> (r: Result<Transaction, Error>)
        ensures
            kind == RecordKind::Deposit && amount is Some ==> r
                == Result::<Transaction, Error>::Ok(
                (Transaction {
                    client_id,
                    transaction_id,
                    type_: Type::Disputable(DisputableType::Deposit(amount->0)),
                }),
            ),
            kind == RecordKind::Withdrawal && amount is Some ==> r
                == Result::<Transaction, Error>::Ok(
                (Transaction {
                    client_id,
                    transaction_id,
                    type_: Type::Disputable(DisputableType::Withdrawal(amount->0)),
                }),
            ),
            (kind == RecordKind::Deposit || kind == RecordKind::Withdrawal) && amount is None
                ==> r == Result::<Transaction, Error>::Err(Error),
            kind == RecordKind::Dispute ==> r == Result::<Transaction, Error>::Ok(
                (Transaction { client_id, transaction_id, type_: Type::Dispute }),
            ),
            kind == RecordKind::Resolve ==> r == Result::<Transaction, Error>::Ok(
                (Transaction { client_id, transaction_id, type_: Type::Resolve }),
            ),
            kind == RecordKind::Chargeback ==> r == Result::<Transaction, Error>::Ok(
                (Transaction { client_id, transaction_id, type_: Type::Chargeback }),
            ),
    {
        let type_ = match (kind, amount) {
            (RecordKind::Deposit, Some(amount)) => Type::Disputable(
                DisputableType::Deposit(amount),
            ),
            (RecordKind::Deposit, None) => {
                return Err(Error);
            },
            (RecordKind::Withdrawal, Some(amount)) => Type::Disputable(
                DisputableType::Withdrawal(amount),
            ),
            (RecordKind::Withdrawal, None) => {
                return Err(Error);
            },
            (RecordKind::Dispute, _) => Type::Dispute,
            (RecordKind::Resolve, _) => Type::Resolve,
            (RecordKind::Chargeback, _) => Type::Chargeback,
        };
        Ok(Transaction { client_id, transaction_id, type_ })
    }
}

} // verus!
