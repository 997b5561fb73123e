use payments::{Amount, PaymentEngine, Transaction, TxKind, TxStatus};

#[test]
fn deposit_only() {
    let mut engine = PaymentEngine::new();
    engine
        .process_transaction(Transaction::new_deposit(1, 1, Amount::from_whole(100)).unwrap())
        .unwrap();
    let account = engine.get_account(1).unwrap();
    assert_eq!(account.available, Amount::from_whole(100));
}

#[test]
fn deposit_duplicate_transactions_are_omitted() {
    let mut engine = PaymentEngine::new();
    engine
        .process_transaction(Transaction::new_deposit(1, 1, Amount::from_whole(100)).unwrap())
        .unwrap();

    let duplicate_result = engine
        .process_transaction(Transaction::new_deposit(1, 1, Amount::from_whole(100)).unwrap());
    assert!(duplicate_result.is_err());

    let account = engine.get_account(1).unwrap();
    assert_eq!(account.available, Amount::from_whole(100));
}

#[test]
fn deposit_only_creates_an_account() {
    let mut engine = PaymentEngine::new();
    let _ = engine
        .process_transaction(Transaction::new_withdrawal(1, 1, Amount::from_whole(100)).unwrap());
    let _ = engine.process_transaction(Transaction::new_dispute(1, 1));
    let _ = engine.process_transaction(Transaction::new_resolve(1, 1));
    let _ = engine.process_transaction(Transaction::new_chargeback(1, 1));

    let account = engine.get_account(1);
    assert!(account.is_none());

    engine
        .process_transaction(Transaction::new_deposit(1, 1, Amount::from_whole(100)).unwrap())
        .unwrap();
    let account = engine.get_account(1).unwrap();
    assert_eq!(account.client, 1);
}

#[test]
fn withdrawal_decreses_available_funds() {
    let mut engine = PaymentEngine::new();
    let _ = engine
        .process_transaction(Transaction::new_deposit(1, 1, Amount::from_whole(100)).unwrap());
    let _ = engine
        .process_transaction(Transaction::new_withdrawal(1, 2, Amount::from_whole(50)).unwrap());

    let account = engine.get_account(1).unwrap();
    assert_eq!(account.available, Amount::from_whole(50));
}

#[test]
fn withdrawal_of_more_funds_than_available_returns_error() {
    let mut engine = PaymentEngine::new();
    let _ = engine
        .process_transaction(Transaction::new_deposit(1, 1, Amount::from_whole(100)).unwrap());
    let result = engine
        .process_transaction(Transaction::new_withdrawal(1, 2, Amount::from_whole(150)).unwrap());

    assert!(result.is_err());
    let account = engine.get_account(1).unwrap();
    assert_eq!(account.available, Amount::from_whole(100));
}

#[test]
fn dispute_of_non_existing_transaction_returns_error() {
    let mut engine = PaymentEngine::new();
    let result = engine.process_transaction(Transaction::new_dispute(1, 1));
    assert!(result.is_err());
}

#[test]
fn dispute_marks_transaction_as_under_dispute() {
    let mut engine = PaymentEngine::new();
    let _ = engine
        .process_transaction(Transaction::new_deposit(1, 1, Amount::from_whole(100)).unwrap());

    engine.process_transaction(Transaction::new_dispute(1, 1)).unwrap();

    let record = engine.get_transaction(1).unwrap();
    assert_eq!(record.kind, TxKind::Deposit);
    assert_eq!(record.status, TxStatus::Disputed);

    let account = engine.get_account(1).unwrap();
    assert_eq!(account.available, Amount::from_whole(0));
    assert_eq!(account.held, Amount::from_whole(100));
}

#[test]
fn dispute_duplicate_dispute_does_nothing() {
    let mut engine = PaymentEngine::new();
    let _ = engine
        .process_transaction(Transaction::new_deposit(1, 1, Amount::from_whole(100)).unwrap());

    engine.process_transaction(Transaction::new_dispute(1, 1)).unwrap();

    let account = engine.get_account(1).unwrap();
    assert_eq!(account.available, Amount::from_whole(0));
    assert_eq!(account.held, Amount::from_whole(100));

    let result = engine.process_transaction(Transaction::new_dispute(1, 1));
    assert!(result.is_err());
    let account = engine.get_account(1).unwrap();
    assert_eq!(account.available, Amount::from_whole(0));
    assert_eq!(account.held, Amount::from_whole(100));
}

#[test]
fn dispute_transaction_that_was_chargebacked_returns_error() {
    let mut engine = PaymentEngine::new();
    let _ = engine
        .process_transaction(Transaction::new_deposit(1, 1, Amount::from_whole(100)).unwrap());
    engine.process_transaction(Transaction::new_dispute(1, 1)).unwrap();
    engine.process_transaction(Transaction::new_chargeback(1, 1)).unwrap();
    let result = engine.process_transaction(Transaction::new_dispute(1, 1));
    assert!(result.is_err());
}

#[test]
fn chargeback_of_non_existing_transaction_returns_error() {
    let mut engine = PaymentEngine::new();
    let _ = engine
        .process_transaction(Transaction::new_deposit(1, 1, Amount::from_whole(100)).unwrap());
    let result = engine.process_transaction(Transaction::new_chargeback(1, 2));
    assert!(result.is_err());
}

#[test]
fn chargeback_of_non_disputed_transaction_returns_error() {
    let mut engine = PaymentEngine::new();
    let _ = engine
        .process_transaction(Transaction::new_deposit(1, 1, Amount::from_whole(100)).unwrap());
    let result = engine.process_transaction(Transaction::new_chargeback(1, 1));
    assert!(result.is_err());
}

#[test]
fn chargeback_marks_transaction_as_chargeback() {
    let mut engine = PaymentEngine::new();
    let _ = engine
        .process_transaction(Transaction::new_deposit(1, 1, Amount::from_whole(100)).unwrap());
    let _ = engine.process_transaction(Transaction::new_dispute(1, 1));
    let result = engine.process_transaction(Transaction::new_chargeback(1, 1));
    assert!(result.is_ok());

    let record = engine.get_transaction(1).unwrap();
    assert_eq!(record.kind, TxKind::Deposit);
    assert_eq!(record.status, TxStatus::ChargedBack);
}

#[test]
fn chargeback_freezes_account() {
    let mut engine = PaymentEngine::new();
    let _ = engine
        .process_transaction(Transaction::new_deposit(1, 1, Amount::from_whole(100)).unwrap());
    let _ = engine.process_transaction(Transaction::new_dispute(1, 1));
    let result = engine.process_transaction(Transaction::new_chargeback(1, 1));
    assert!(result.is_ok());
    let account = engine.get_account(1).unwrap();
    assert!(account.frozen);
}

#[test]
fn resolve_of_non_existing_transaction_returns_error() {
    let mut engine = PaymentEngine::new();
    let _ = engine
        .process_transaction(Transaction::new_deposit(1, 1, Amount::from_whole(100)).unwrap());
    let result = engine.process_transaction(Transaction::new_resolve(1, 2));
    assert!(result.is_err());
}

#[test]
fn resolve_of_non_disputed_transaction_returns_error() {
    let mut engine = PaymentEngine::new();
    let _ = engine
        .process_transaction(Transaction::new_deposit(1, 1, Amount::from_whole(100)).unwrap());
    let result = engine.process_transaction(Transaction::new_resolve(1, 1));
    assert!(result.is_err());

    let _ = engine
        .process_transaction(Transaction::new_withdrawal(1, 1, Amount::from_whole(100)).unwrap());
    let result = engine.process_transaction(Transaction::new_resolve(1, 1));
    assert!(result.is_err());
}

#[test]
fn resolve_of_chargeback_transaction_returns_error() {
    let mut engine = PaymentEngine::new();
    let _ = engine
        .process_transaction(Transaction::new_deposit(1, 1, Amount::from_whole(100)).unwrap());
    let _ = engine.process_transaction(Transaction::new_dispute(1, 1));
    let _ = engine.process_transaction(Transaction::new_chargeback(1, 1));
    let result = engine.process_transaction(Transaction::new_resolve(1, 1));
    assert!(result.is_err());
}

#[test]
fn resolve_clears_dispute() {
    let mut engine = PaymentEngine::new();
    let _ = engine
        .process_transaction(Transaction::new_deposit(1, 1, Amount::from_whole(100)).unwrap());
    let _ = engine.process_transaction(Transaction::new_dispute(1, 1));

    let record = engine.get_transaction(1).unwrap();
    assert_eq!(record.kind, TxKind::Deposit);
    assert_eq!(record.status, TxStatus::Disputed);

    let result = engine.process_transaction(Transaction::new_resolve(1, 1));
    assert!(result.is_ok());

    let record = engine.get_transaction(1).unwrap();
    assert_eq!(record.kind, TxKind::Deposit);
    assert_eq!(record.status, TxStatus::Normal);
}

#[test]
fn dispute_resolve_chargeback_of_mismatched_tx_and_client_returns_error() {
    let mut engine = PaymentEngine::new();
    let _ = engine
        .process_transaction(Transaction::new_deposit(1, 1, Amount::from_whole(100)).unwrap());

    let result = engine.process_transaction(Transaction::new_dispute(2, 1));
    assert!(result.is_err());

    let _ = engine.process_transaction(Transaction::new_dispute(1, 1));

    let result = engine.process_transaction(Transaction::new_resolve(2, 1));
    assert!(result.is_err());

    let result = engine.process_transaction(Transaction::new_chargeback(2, 1));
    assert!(result.is_err());
}

#[test]
fn dispute_resolve_of_deposit_with_withdraw() {
    let mut engine = PaymentEngine::new();

    let _ = engine
        .process_transaction(Transaction::new_deposit(1, 1, Amount::from_whole(100)).unwrap());
    let _ = engine
        .process_transaction(Transaction::new_withdrawal(1, 2, Amount::from_whole(50)).unwrap());
    {
        let account = engine.get_account(1).unwrap();
        assert_eq!(account.available, Amount::from_whole(50));
        assert_eq!(account.held, Amount::from_whole(0));
    }

    let _ = engine.process_transaction(Transaction::new_dispute(1, 1));
    {
        let account = engine.get_account(1).unwrap();
        assert_eq!(account.available, Amount::from_whole(-50));
        assert_eq!(account.held, Amount::from_whole(100));
    }

    let _ = engine.process_transaction(Transaction::new_resolve(1, 1));
    {
        let account = engine.get_account(1).unwrap();
        assert_eq!(account.available, Amount::from_whole(50));
        assert_eq!(account.held, Amount::from_whole(0));
    }
}

#[test]
fn dispute_resolve_of_withdraw() {
    let mut engine = PaymentEngine::new();

    let _ = engine
        .process_transaction(Transaction::new_deposit(1, 1, Amount::from_whole(100)).unwrap());
    let _ = engine
        .process_transaction(Transaction::new_withdrawal(1, 2, Amount::from_whole(50)).unwrap());
    {
        let account = engine.get_account(1).unwrap();
        assert_eq!(account.available, Amount::from_whole(50));
        assert_eq!(account.held, Amount::from_whole(0));
    }

    let _ = engine.process_transaction(Transaction::new_dispute(1, 2));
    {
        let account = engine.get_account(1).unwrap();
        assert_eq!(account.available, Amount::from_whole(100));
        assert_eq!(account.held, Amount::from_whole(-50));
    }

    let _ = engine.process_transaction(Transaction::new_resolve(1, 2));
    {
        let account = engine.get_account(1).unwrap();
        assert_eq!(account.available, Amount::from_whole(50));
        assert_eq!(account.held, Amount::from_whole(0));
    }
}

#[test]
fn chargeback_of_deposit() {
    let mut engine = PaymentEngine::new();
    let _ = engine
        .process_transaction(Transaction::new_deposit(1, 1, Amount::from_whole(100)).unwrap());
    let _ = engine
        .process_transaction(Transaction::new_withdrawal(1, 2, Amount::from_whole(50)).unwrap());
    {
        let account = engine.get_account(1).unwrap();
        assert_eq!(account.available, Amount::from_whole(50));
        assert_eq!(account.held, Amount::from_whole(0));
    }

    let _ = engine.process_transaction(Transaction::new_dispute(1, 1));
    {
        let account = engine.get_account(1).unwrap();
        assert_eq!(account.available, Amount::from_whole(-50));
        assert_eq!(account.held, Amount::from_whole(100));
    }

    let _ = engine.process_transaction(Transaction::new_chargeback(1, 1));
    {
        let account = engine.get_account(1).unwrap();
        assert_eq!(account.available, Amount::from_whole(-50));
        assert_eq!(account.held, Amount::from_whole(0));
        assert_eq!(account.frozen, true);
    }
}

#[test]
fn frozen_account_only_deposits_works() {
    let mut engine = PaymentEngine::new();
    let _ = engine
        .process_transaction(Transaction::new_deposit(1, 1, Amount::from_whole(100)).unwrap());
    let _ = engine
        .process_transaction(Transaction::new_deposit(1, 2, Amount::from_whole(100)).unwrap());
    let _ = engine.process_transaction(Transaction::new_dispute(1, 1));
    let _ = engine.process_transaction(Transaction::new_chargeback(1, 1));
    {
        let account = engine.get_account(1).unwrap();
        assert_eq!(account.available, Amount::from_whole(100));
        assert_eq!(account.frozen, true);
    }

    assert!(engine
        .process_transaction(Transaction::new_withdrawal(1, 3, Amount::from_whole(100)).unwrap())
        .is_err());
    assert!(engine
        .process_transaction(Transaction::new_deposit(1, 4, Amount::from_whole(100)).unwrap())
        .is_ok());
    {
        let account = engine.get_account(1).unwrap();
        assert_eq!(account.available, Amount::from_whole(200));
        assert_eq!(account.frozen, true);
    }
}
