//! Engine-level behavior through the public interface: dispatch,
//! deduplication, validation errors, and the dispute state machine.
//! Amounts are fixed-point ten-thousandths: 10000 units == 1.0.
use payment_engine::engine::PaymentEngine;
use payment_engine::errors::PaymentError;
use payment_engine::models::{InputRecord, OutputRecord, TransactionType};

fn record(
    record_type: TransactionType,
    client_id: u16,
    tx_id: u32,
    amount: Option<i64>,
) -> InputRecord {
    InputRecord { record_type, client_id, tx_id, amount }
}

fn account_of(engine: &PaymentEngine, client_id: u16) -> OutputRecord {
    let snapshot = engine.get_accounts();
    snapshot
        .into_iter()
        .find(|r| r.client_id == client_id)
        .expect("account should exist")
}

#[test]
fn test_engine_deposit_and_withdraw() {
    let mut engine = PaymentEngine::new();
    assert!(engine.process(record(TransactionType::Deposit, 1, 1, Some(100_0000))).is_ok());
    assert!(engine.process(record(TransactionType::Withdrawal, 1, 2, Some(30_0000))).is_ok());
    // insufficient funds: silently ignored
    assert!(engine.process(record(TransactionType::Withdrawal, 1, 3, Some(80_0000))).is_ok());

    let acc = account_of(&engine, 1);
    assert_eq!(acc.available, 70_0000);
    assert_eq!(acc.held, 0);
    assert!(!acc.locked);
}

#[test]
fn test_engine_full_dispute_cycle() {
    let mut engine = PaymentEngine::new();
    engine.process(record(TransactionType::Deposit, 1, 1, Some(100_0000))).unwrap();

    engine.process(record(TransactionType::Dispute, 1, 1, None)).unwrap();
    let acc1 = account_of(&engine, 1);
    assert_eq!(acc1.available, 0);
    assert_eq!(acc1.held, 100_0000);

    engine.process(record(TransactionType::Resolve, 1, 1, None)).unwrap();
    let acc2 = account_of(&engine, 1);
    assert_eq!(acc2.available, 100_0000);
    assert_eq!(acc2.held, 0);
    assert!(!acc2.locked);

    // the transaction is gone after being resolved: disputing it again is a
    // no-op and holds nothing
    engine.process(record(TransactionType::Dispute, 1, 1, None)).unwrap();
    let acc3 = account_of(&engine, 1);
    assert_eq!(acc3.available, 100_0000);
    assert_eq!(acc3.held, 0);
}

#[test]
fn test_engine_dispute_chargeback() {
    let mut engine = PaymentEngine::new();
    engine.process(record(TransactionType::Deposit, 1, 1, Some(100_0000))).unwrap();

    engine.process(record(TransactionType::Dispute, 1, 1, None)).unwrap();
    let acc1 = account_of(&engine, 1);
    assert_eq!(acc1.available, 0);
    assert_eq!(acc1.held, 100_0000);

    engine.process(record(TransactionType::Chargeback, 1, 1, None)).unwrap();
    let acc2 = account_of(&engine, 1);
    assert_eq!(acc2.available, 0);
    assert_eq!(acc2.held, 0);
    assert!(acc2.locked);

    // the entry is gone after the chargeback: a further dispute is a no-op
    engine.process(record(TransactionType::Dispute, 1, 1, None)).unwrap();
    let acc3 = account_of(&engine, 1);
    assert_eq!(acc3.held, 0);
}

#[test]
fn test_engine_ignore_non_existent_tx() {
    for record_type in [
        TransactionType::Dispute,
        TransactionType::Resolve,
        TransactionType::Chargeback,
    ] {
        let mut engine = PaymentEngine::new();
        assert!(engine.process(record(record_type, 1, 99, None)).is_ok());
        assert!(engine.get_accounts().is_empty());
    }
}

#[test]
fn test_engine_ignore_invalid_state() {
    // resolve and chargeback against a transaction that is not disputed
    for record_type in [TransactionType::Resolve, TransactionType::Chargeback] {
        let mut engine = PaymentEngine::new();
        engine.process(record(TransactionType::Deposit, 1, 1, Some(100_0000))).unwrap();

        assert!(engine.process(record(record_type, 1, 1, None)).is_ok());

        let acc = account_of(&engine, 1);
        assert_eq!(acc.available, 100_0000);
        assert_eq!(acc.held, 0);
        assert!(!acc.locked);
    }
}

#[test]
fn test_engine_ignore_dispute_already_disputed() {
    let mut engine = PaymentEngine::new();
    engine.process(record(TransactionType::Deposit, 1, 1, Some(100_0000))).unwrap();
    engine.process(record(TransactionType::Dispute, 1, 1, None)).unwrap();

    let before = account_of(&engine, 1);

    // a second dispute of the same transaction is a complete no-op
    engine.process(record(TransactionType::Dispute, 1, 1, None)).unwrap();

    let after = account_of(&engine, 1);
    assert_eq!(before, after);
    assert_eq!(after.available, 0);
    assert_eq!(after.held, 100_0000);
}

#[test]
fn test_engine_deposit_missing_amount() {
    let mut engine = PaymentEngine::new();
    let result = engine.process(record(TransactionType::Deposit, 1, 99, None));
    assert_eq!(
        result,
        Err(PaymentError::MissingAmount { kind: TransactionType::Deposit, tx_id: 99 })
    );
    assert!(engine.get_accounts().is_empty());
}

#[test]
fn test_engine_deposit_invalid_amount() {
    for invalid in [-10_0000i64, 0] {
        let mut engine = PaymentEngine::new();
        let result = engine.process(record(TransactionType::Deposit, 1, 100, Some(invalid)));
        assert_eq!(
            result,
            Err(PaymentError::NonPositiveAmount { kind: TransactionType::Deposit, tx_id: 100 })
        );
        assert!(engine.get_accounts().is_empty());
    }
}

#[test]
fn test_engine_withdrawal_missing_amount() {
    let mut engine = PaymentEngine::new();
    let result = engine.process(record(TransactionType::Withdrawal, 1, 201, None));
    assert_eq!(
        result,
        Err(PaymentError::MissingAmount { kind: TransactionType::Withdrawal, tx_id: 201 })
    );
    assert!(engine.get_accounts().is_empty());
}

#[test]
fn test_engine_withdrawal_invalid_amount() {
    for invalid in [-10_0000i64, 0] {
        let mut engine = PaymentEngine::new();
        let result = engine.process(record(TransactionType::Withdrawal, 1, 202, Some(invalid)));
        assert_eq!(
            result,
            Err(PaymentError::NonPositiveAmount { kind: TransactionType::Withdrawal, tx_id: 202 })
        );
        assert!(engine.get_accounts().is_empty());
    }
}

#[test]
fn test_engine_duplicate_deposit_is_ignored() {
    let mut engine = PaymentEngine::new();
    let dup = record(TransactionType::Deposit, 1, 1, Some(100_0000));

    assert!(engine.process(dup).is_ok());
    // the second deposit with the same tx id is fully ignored
    assert!(engine.process(dup).is_ok());

    let acc = account_of(&engine, 1);
    assert_eq!(acc.available, 100_0000);
}

#[test]
fn test_engine_duplicate_withdrawal_tx_is_ignored() {
    let mut engine = PaymentEngine::new();
    engine.process(record(TransactionType::Deposit, 1, 1, Some(100_0000))).unwrap();
    // a withdrawal reusing an indexed tx id is ignored, even with funds
    assert!(engine.process(record(TransactionType::Withdrawal, 1, 1, Some(50_0000))).is_ok());
    let acc = account_of(&engine, 1);
    assert_eq!(acc.available, 100_0000);
}

#[test]
fn test_withdrawal_creates_empty_account() {
    // a valid withdrawal on an unknown client lazily creates the account,
    // then fails for insufficient funds
    let mut engine = PaymentEngine::new();
    assert!(engine.process(record(TransactionType::Withdrawal, 5, 1, Some(10_0000))).is_ok());
    let acc = account_of(&engine, 5);
    assert_eq!(acc.available, 0);
    assert_eq!(acc.held, 0);
    assert!(!acc.locked);
}

#[test]
fn test_scenario_withdrawal_zero_on_unknown_client() {
    // a zero-amount withdrawal on a nonexistent client fails validation
    // before any account is created: the snapshot stays empty
    let mut engine = PaymentEngine::new();
    let result = engine.process(record(TransactionType::Withdrawal, 9, 1, Some(0)));
    assert_eq!(
        result,
        Err(PaymentError::NonPositiveAmount { kind: TransactionType::Withdrawal, tx_id: 1 })
    );
    assert!(engine.get_accounts().is_empty());
}

#[test]
fn test_boundary_chargeback_without_dispute() {
    // deposit immediately followed by a chargeback of the never-disputed
    // transaction: a no-op, the funds remain fully available
    let mut engine = PaymentEngine::new();
    engine.process(record(TransactionType::Deposit, 1, 1, Some(42_0000))).unwrap();
    assert!(engine.process(record(TransactionType::Chargeback, 1, 1, None)).is_ok());
    let acc = account_of(&engine, 1);
    assert_eq!(acc.available, 42_0000);
    assert_eq!(acc.held, 0);
    assert!(!acc.locked);
}

#[test]
fn test_locked_stays_locked_through_engine() {
    // once a chargeback locks the account, nothing unlocks it
    let mut engine = PaymentEngine::new();
    engine.process(record(TransactionType::Deposit, 1, 1, Some(100_0000))).unwrap();
    engine.process(record(TransactionType::Dispute, 1, 1, None)).unwrap();
    engine.process(record(TransactionType::Chargeback, 1, 1, None)).unwrap();
    assert!(account_of(&engine, 1).locked);

    engine.process(record(TransactionType::Deposit, 1, 2, Some(5_0000))).unwrap();
    assert!(account_of(&engine, 1).locked);
    engine.process(record(TransactionType::Withdrawal, 1, 3, Some(1_0000))).unwrap();
    assert!(account_of(&engine, 1).locked);
    assert_eq!(account_of(&engine, 1).available, 5_0000);
}

#[test]
fn test_dispute_resolve_round_trip_exact() {
    // resolve after dispute restores available and held exactly
    let mut engine = PaymentEngine::new();
    engine.process(record(TransactionType::Deposit, 1, 1, Some(1_2345))).unwrap();
    engine.process(record(TransactionType::Deposit, 1, 2, Some(7))).unwrap();
    let before = account_of(&engine, 1);

    engine.process(record(TransactionType::Dispute, 1, 2, None)).unwrap();
    engine.process(record(TransactionType::Resolve, 1, 2, None)).unwrap();

    let after = account_of(&engine, 1);
    assert_eq!(before.available, after.available);
    assert_eq!(before.held, after.held);
    assert_eq!(before, after);
}
