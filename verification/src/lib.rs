//! A small payments engine.
//!
//! [`decimal`] holds the fixed-precision monetary amount: exact addition,
//! subtraction that reports its shortfall instead of going negative, and a
//! parser and printer that are proved inverse to one another. [`client`]
//! tracks one account's four balance buckets and its permanent freeze flag,
//! one atomic operation per event kind. [`transaction_set`] keeps every
//! disputable transaction with its lifecycle state and enforces the legal
//! transition table. [`engine`] drives one incoming event against both,
//! with a contract that pins down every resulting state and outcome.

pub mod client;
pub mod decimal;
pub mod engine;
pub mod transaction;
pub mod transaction_set;
