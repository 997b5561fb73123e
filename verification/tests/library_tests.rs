use payments::{
    Amount, PaymentEngine, RecordKind, Transaction, TransactionValidationError, TxKind, TxStatus,
};

fn total(engine: &PaymentEngine, client: u16) -> Amount {
    let account = engine.get_account(client).unwrap();
    account.total_funds()
}

#[test]
fn single_deposit_reports_full_row() {
    let mut engine = PaymentEngine::new();
    engine
        .process_transaction(Transaction::new_deposit(1, 1, Amount::from_whole(100)).unwrap())
        .unwrap();
    let account = engine.get_account(1).unwrap();
    let row = account.report();
    assert_eq!(row.client, 1);
    assert_eq!(row.available, Amount::from_whole(100));
    assert_eq!(row.held, Amount::from_whole(0));
    assert_eq!(row.total, Amount::from_whole(100));
    assert_eq!(row.locked, false);
}

#[test]
fn withdrawal_on_unseen_client_is_missing_account() {
    let mut engine = PaymentEngine::new();
    let result = engine
        .process_transaction(Transaction::new_withdrawal(9, 1, Amount::from_whole(10)).unwrap());
    assert_eq!(result, Err(TransactionValidationError::MissingAccount));
    assert!(engine.get_account(9).is_none());
}

#[test]
fn dispute_of_missing_transaction_names_it() {
    let mut engine = PaymentEngine::new();
    let result = engine.process_transaction(Transaction::new_dispute(1, 1));
    assert_eq!(result, Err(TransactionValidationError::InvalidTransaction(1)));
}

#[test]
fn error_variants_each_have_an_input() {
    let mut engine = PaymentEngine::new();
    // A non-positive amount is refused by the engine itself, even when the
    // command is built directly rather than through a constructor.
    let bad = Transaction::Deposit { client: 1, tx: 1, amount: Amount::from_whole(0) };
    assert_eq!(
        engine.process_transaction(bad),
        Err(TransactionValidationError::InvalidAmount)
    );

    engine
        .process_transaction(Transaction::new_deposit(1, 1, Amount::from_whole(100)).unwrap())
        .unwrap();
    assert_eq!(
        engine.process_transaction(Transaction::new_deposit(1, 1, Amount::from_whole(5)).unwrap()),
        Err(TransactionValidationError::Duplicate(1))
    );
    assert_eq!(
        engine.process_transaction(
            Transaction::new_withdrawal(1, 2, Amount::from_whole(500)).unwrap()
        ),
        Err(TransactionValidationError::InsufficientFunds)
    );
    assert_eq!(
        engine.process_transaction(
            Transaction::new_withdrawal(7, 3, Amount::from_whole(1)).unwrap()
        ),
        Err(TransactionValidationError::MissingAccount)
    );
    assert_eq!(
        engine.process_transaction(Transaction::new_resolve(1, 99)),
        Err(TransactionValidationError::InvalidTransaction(99))
    );
    engine.process_transaction(Transaction::new_dispute(1, 1)).unwrap();
    engine.process_transaction(Transaction::new_chargeback(1, 1)).unwrap();
    assert_eq!(
        engine.process_transaction(Transaction::new_dispute(1, 1)),
        Err(TransactionValidationError::DisputeChargeback(1))
    );
    assert_eq!(
        engine.process_transaction(
            Transaction::new_withdrawal(1, 4, Amount::from_whole(1)).unwrap()
        ),
        Err(TransactionValidationError::FrozenAccount)
    );
}

#[test]
fn double_entry_holds_through_a_ledger() {
    // available + held always equals deposits minus withdrawals minus
    // chargeback reductions.
    let mut engine = PaymentEngine::new();
    engine
        .process_transaction(Transaction::new_deposit(1, 1, Amount::from_whole(100)).unwrap())
        .unwrap();
    engine
        .process_transaction(Transaction::new_withdrawal(1, 2, Amount::from_whole(30)).unwrap())
        .unwrap();
    assert_eq!(total(&engine, 1), Amount::from_whole(70));

    engine.process_transaction(Transaction::new_dispute(1, 1)).unwrap();
    assert_eq!(total(&engine, 1), Amount::from_whole(70));

    engine.process_transaction(Transaction::new_chargeback(1, 1)).unwrap();
    assert_eq!(total(&engine, 1), Amount::from_whole(-30));
}

#[test]
fn duplicate_id_of_other_kind_mutates_nothing() {
    let mut engine = PaymentEngine::new();
    engine
        .process_transaction(Transaction::new_deposit(1, 1, Amount::from_whole(100)).unwrap())
        .unwrap();
    let result = engine
        .process_transaction(Transaction::new_withdrawal(1, 1, Amount::from_whole(50)).unwrap());
    assert_eq!(result, Err(TransactionValidationError::Duplicate(1)));
    let account = engine.get_account(1).unwrap();
    assert_eq!(account.available, Amount::from_whole(100));
    assert_eq!(account.held, Amount::from_whole(0));
}

#[test]
fn second_chargeback_is_duplicate_and_changes_nothing() {
    let mut engine = PaymentEngine::new();
    engine
        .process_transaction(Transaction::new_deposit(1, 1, Amount::from_whole(100)).unwrap())
        .unwrap();
    engine.process_transaction(Transaction::new_dispute(1, 1)).unwrap();
    engine.process_transaction(Transaction::new_chargeback(1, 1)).unwrap();
    let before = engine.get_account(1).unwrap();

    let result = engine.process_transaction(Transaction::new_chargeback(1, 1));
    assert_eq!(result, Err(TransactionValidationError::Duplicate(1)));

    let after = engine.get_account(1).unwrap();
    assert_eq!(before, after);
    assert_eq!(engine.get_transaction(1).unwrap().status, TxStatus::ChargedBack);
}

#[test]
fn mismatched_client_leaves_state_unchanged() {
    let mut engine = PaymentEngine::new();
    engine
        .process_transaction(Transaction::new_deposit(1, 1, Amount::from_whole(100)).unwrap())
        .unwrap();
    let result = engine.process_transaction(Transaction::new_dispute(2, 1));
    assert_eq!(result, Err(TransactionValidationError::InvalidTransaction(1)));
    let account = engine.get_account(1).unwrap();
    assert_eq!(account.available, Amount::from_whole(100));
    assert_eq!(engine.get_transaction(1).unwrap().status, TxStatus::Normal);
}

#[test]
fn accounts_come_out_ascending_by_client() {
    let mut engine = PaymentEngine::new();
    engine
        .process_transaction(Transaction::new_deposit(5, 1, Amount::from_whole(1)).unwrap())
        .unwrap();
    engine
        .process_transaction(Transaction::new_deposit(2, 2, Amount::from_whole(2)).unwrap())
        .unwrap();
    engine
        .process_transaction(Transaction::new_deposit(9, 3, Amount::from_whole(3)).unwrap())
        .unwrap();
    let accounts = engine.get_accounts();
    let clients: Vec<u16> = accounts.iter().map(|a| a.client).collect();
    assert_eq!(clients, vec![2, 5, 9]);
    assert_eq!(accounts[0].available, Amount::from_whole(2));
}

#[test]
fn rounding_is_exact_to_four_places() {
    // 1.23456789 rounds to 1.2346.
    assert_eq!(
        Amount::from_units(123_456_789).round_dp4(),
        Amount::from_units(123_460_000)
    );
    // 0.00012 rounds down to 0.0001.
    assert_eq!(Amount::from_units(12_000).round_dp4(), Amount::from_units(10_000));
    // Ties go to the even neighbour: 0.00005 -> 0.0000, 0.00015 -> 0.0002.
    assert_eq!(Amount::from_units(5_000).round_dp4(), Amount::from_units(0));
    assert_eq!(Amount::from_units(15_000).round_dp4(), Amount::from_units(20_000));
    // The same holds for negative values.
    assert_eq!(Amount::from_units(-5_000).round_dp4(), Amount::from_units(0));
    assert_eq!(Amount::from_units(-15_000).round_dp4(), Amount::from_units(-20_000));
    assert_eq!(Amount::from_units(-12_000).round_dp4(), Amount::from_units(-10_000));
    // Exact multiples stay put.
    assert_eq!(Amount::from_whole(100).round_dp4(), Amount::from_whole(100));
    assert_eq!(Amount::from_units(-120_000).round_dp4(), Amount::from_units(-120_000));
}

#[test]
fn report_rounds_each_column_for_display() {
    let mut engine = PaymentEngine::new();
    // 1.23456789 deposited, then 0.00006789 held back by disputing a second
    // small deposit: the report rounds each column separately.
    engine
        .process_transaction(Transaction::new_deposit(1, 1, Amount::from_units(123_456_789)).unwrap())
        .unwrap();
    let account = engine.get_account(1).unwrap();
    let row = account.report();
    assert_eq!(row.available, Amount::from_units(123_460_000));
    assert_eq!(row.total, Amount::from_units(123_460_000));
    // The accumulator itself stays unrounded.
    assert_eq!(account.available, Amount::from_units(123_456_789));
}

#[test]
fn from_record_validates_amount_presence() {
    let t = Transaction::from_record(RecordKind::Deposit, 1, 1, Some(Amount::from_whole(3)))
        .unwrap();
    assert_eq!(
        t,
        Transaction::Deposit { client: 1, tx: 1, amount: Amount::from_whole(3) }
    );
    assert_eq!(
        Transaction::from_record(RecordKind::Deposit, 1, 1, None),
        Err(TransactionValidationError::InvalidAmount)
    );
    assert_eq!(
        Transaction::from_record(RecordKind::Withdrawal, 1, 1, Some(Amount::from_whole(0))),
        Err(TransactionValidationError::InvalidAmount)
    );
    assert_eq!(
        Transaction::from_record(RecordKind::Dispute, 1, 7, None),
        Ok(Transaction::Dispute { client: 1, tx: 7 })
    );
    assert_eq!(
        Transaction::from_record(RecordKind::Resolve, 1, 7, Some(Amount::from_whole(5))),
        Ok(Transaction::Resolve { client: 1, tx: 7 })
    );
    assert_eq!(
        Transaction::from_record(RecordKind::Chargeback, 2, 8, None),
        Ok(Transaction::Chargeback { client: 2, tx: 8 })
    );
}

#[test]
fn constructors_refuse_bad_amounts() {
    assert_eq!(
        Transaction::new_deposit(1, 1, Amount::from_whole(-5)),
        Err(TransactionValidationError::InvalidAmount)
    );
    // The largest representable amount is accepted; one step past it is not.
    let top = payments::amount::MAX_AMOUNT_UNITS;
    assert!(Transaction::new_deposit(1, 1, Amount::from_units(top)).is_ok());
    assert_eq!(
        Transaction::new_deposit(1, 1, Amount::from_units(top + 1)),
        Err(TransactionValidationError::InvalidAmount)
    );
    assert_eq!(
        Transaction::new_withdrawal(1, 1, Amount::from_units(0)),
        Err(TransactionValidationError::InvalidAmount)
    );
    assert!(Transaction::new_deposit(1, 1, Amount::from_units(1)).is_ok());
    let record = engine_after_tiny_deposit().get_transaction(1).unwrap();
    assert_eq!(record.kind, TxKind::Deposit);
    assert_eq!(record.amount, Amount::from_units(1));
}

fn engine_after_tiny_deposit() -> PaymentEngine {
    let mut engine = PaymentEngine::new();
    engine
        .process_transaction(Transaction::new_deposit(1, 1, Amount::from_units(1)).unwrap())
        .unwrap();
    engine
}

#[test]
fn amount_arithmetic_is_exact() {
    let a = Amount::from_whole(5);
    let b = Amount::from_units(25_000_000);  // 0.25
    assert_eq!(a.add(b), Amount::from_units(525_000_000));
    assert_eq!(a.sub(b), Amount::from_units(475_000_000));
    assert_eq!(a.neg(), Amount::from_whole(-5));
    assert!(b.lt(&a));
    assert!(!a.lt(&b));
    assert!(a.is_positive());
    assert!(!a.neg().is_positive());
    assert_eq!(a.units(), 500_000_000);
}

#[test]
fn fresh_account_is_empty() {
    let account = payments::Account::new(3);
    assert_eq!(account.client, 3);
    assert_eq!(account.available, Amount::from_whole(0));
    assert_eq!(account.held, Amount::from_whole(0));
    assert!(!account.frozen);
    assert_eq!(account.total_funds(), Amount::from_whole(0));
}

#[test]
fn dispute_resolve_cycles_do_not_drift() {
    // Repeated dispute and resolve of the same deposit restores the exact
    // balances every time.
    let mut engine = PaymentEngine::new();
    engine
        .process_transaction(Transaction::new_deposit(1, 1, Amount::from_units(123_456_789)).unwrap())
        .unwrap();
    for _ in 0..5 {
        engine.process_transaction(Transaction::new_dispute(1, 1)).unwrap();
        engine.process_transaction(Transaction::new_resolve(1, 1)).unwrap();
    }
    let account = engine.get_account(1).unwrap();
    assert_eq!(account.available, Amount::from_units(123_456_789));
    assert_eq!(account.held, Amount::from_units(0));
}
