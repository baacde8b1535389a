//! Errors raised by the transaction-processing core.
//!
//! Only validation failures are errors: a deposit or withdrawal whose amount
//! is missing or not strictly positive. Business no-ops (unknown transaction
//! ids, wrong-state disputes, insufficient funds, locked accounts) are not
//! errors; the engine handles them silently by design.
use vstd::prelude::*;
use crate::models::TransactionType;

verus! {

/// A validation failure for a single input record. The record that caused it
/// leaves no trace on the engine's state.
#[derive(Clone, Copy, Debug, PartialEq, Eq, Structural)]
pub enum PaymentError {
    /// A deposit or withdrawal record arrived without an amount.
    MissingAmount { kind: TransactionType, tx_id: u32 },
    /// A deposit or withdrawal record carried a zero or negative amount.
    NonPositiveAmount { kind: TransactionType, tx_id: u32 },
}

} // verus!
