//! Commands, historical transaction records, accounts and the error taxonomy.

use vstd::prelude::*;

use crate::amount::{Amount, MAX_AMOUNT_UNITS, round4};

verus! {

/// An account holder's identifier.
pub type Client = u16;

/// A transaction's identifier, globally unique across the ledger's lifetime.
pub type TransactionId = u32;

/// A transaction amount the engine accepts: strictly positive and small
/// enough that signed sums of accepted amounts stay inside `i128`.
pub open spec fn valid_amount(a: int) -> bool {
    0 < a <= MAX_AMOUNT_UNITS
}

/// The reasons a command is refused. Every failure is returned as a value
/// and is non-fatal: the caller goes on with the next command.
#[derive(Clone, Copy, Debug, PartialEq, Eq, Structural)]
pub enum TransactionValidationError {
    /// A deposit or withdrawal amount that is not strictly positive, or too
    /// large to account for exactly.
    InvalidAmount,
    /// A transaction id already recorded, a second dispute of a transaction
    /// already under dispute, or a second chargeback of the same transaction.
    Duplicate(TransactionId),
    /// A withdrawal larger than the available funds.
    InsufficientFunds,
    /// A command naming a client that has no account.
    MissingAccount,
    /// A dispute, resolve or chargeback whose referenced transaction does not
    /// exist, belongs to another client, or is not in the required state.
    InvalidTransaction(TransactionId),
    /// A dispute of a transaction that was already charged back.
    DisputeChargeback(TransactionId),
    /// A withdrawal from a frozen account.
    FrozenAccount,
}

/// One input operation, consumed by exactly one `apply` call.
#[derive(Clone, Copy, Debug, PartialEq, Eq, Structural)]
pub enum Transaction {
    Deposit { client: Client, tx: TransactionId, amount: Amount },
    Withdrawal { client: Client, tx: TransactionId, amount: Amount },
    Dispute { client: Client, tx: TransactionId },
    Resolve { client: Client, tx: TransactionId },
    Chargeback { client: Client, tx: TransactionId },
}

impl Transaction {
    /// Builds a deposit command, refusing an amount that is not strictly
    /// positive or that the representation cannot account for exactly.
    pub fn new_deposit(client: Client, tx: TransactionId, amount: Amount) -> (r: Result<
        Transaction,
        TransactionValidationError,
    >)
        ensures
            valid_amount(amount@) ==> r == Ok::<Transaction, TransactionValidationError>(
                Transaction::Deposit { client, tx, amount },
            ),
            !valid_amount(amount@) ==> r == Err::<Transaction, TransactionValidationError>(
                TransactionValidationError::InvalidAmount,
            ),
    {
        if !amount.is_positive() || Amount::from_units(MAX_AMOUNT_UNITS).lt(&amount) {
            return Err(TransactionValidationError::InvalidAmount);
        }
        Ok(Transaction::Deposit { client, tx, amount })
    }

    /// Builds a withdrawal command, with the same amount validation as
    /// `new_deposit`.
    pub fn new_withdrawal(client: Client, tx: TransactionId, amount: Amount) -> (r: Result<
        Transaction,
        TransactionValidationError,
    >)
        ensures
            valid_amount(amount@) ==> r == Ok::<Transaction, TransactionValidationError>(
                Transaction::Withdrawal { client, tx, amount },
            ),
            !valid_amount(amount@) ==> r == Err::<Transaction, TransactionValidationError>(
                TransactionValidationError::InvalidAmount,
            ),
    {
        if !amount.is_positive() || Amount::from_units(MAX_AMOUNT_UNITS).lt(&amount) {
            return Err(TransactionValidationError::InvalidAmount);
        }
        Ok(Transaction::Withdrawal { client, tx, amount })
    }

    /// Builds a dispute command.
    pub fn new_dispute(client: Client, tx: TransactionId) -> (r: Transaction)
        ensures
            r == (Transaction::Dispute { client, tx }),
    {
        Transaction::Dispute { client, tx }
    }

    /// Builds a resolve command.
    pub fn new_resolve(client: Client, tx: TransactionId) -> (r: Transaction)
        ensures
            r == (Transaction::Resolve { client, tx }),
    {
        Transaction::Resolve { client, tx }
    }

    /// Builds a chargeback command.
    pub fn new_chargeback(client: Client, tx: TransactionId) -> (r: Transaction)
        ensures
            r == (Transaction::Chargeback { client, tx }),
    {
        Transaction::Chargeback { client, tx }
    }
}

/// The kind an input record declares; parsed by the ingestion adapter.
#[derive(Clone, Copy, Debug, PartialEq, Eq, Structural)]
pub enum RecordKind {
    Deposit,
    Withdrawal,
    Dispute,
    Resolve,
    Chargeback,
}

impl Transaction {
    /// Converts one parsed input record into a validated command. A deposit
    /// or withdrawal must carry a valid amount; the other kinds carry none,
    /// and any amount given with them is ignored.
    pub fn from_record(
        kind: RecordKind,
        client: Client,
        tx: TransactionId,
        amount: Option<Amount>,
    ) -> (r: Result<Transaction, TransactionValidationError>)
        ensures
            (kind == RecordKind::Deposit && (amount matches Some(a) && valid_amount(a@))) ==> r
                == Ok::<Transaction, TransactionValidationError>(
                Transaction::Deposit { client, tx, amount: amount->0 },
            ),
            (kind == RecordKind::Withdrawal && (amount matches Some(a) && valid_amount(a@))) ==> r
                == Ok::<Transaction, TransactionValidationError>(
                Transaction::Withdrawal { client, tx, amount: amount->0 },
            ),
            (kind == RecordKind::Deposit || kind == RecordKind::Withdrawal) && !(amount matches Some(
                a,
            ) && valid_amount(a@)) ==> r == Err::<Transaction, TransactionValidationError>(
                TransactionValidationError::InvalidAmount,
            ),
            kind == RecordKind::Dispute ==> r == Ok::<Transaction, TransactionValidationError>(
                Transaction::Dispute { client, tx },
            ),
            kind == RecordKind::Resolve ==> r == Ok::<Transaction, TransactionValidationError>(
                Transaction::Resolve { client, tx },
            ),
            kind == RecordKind::Chargeback ==> r == Ok::<Transaction, TransactionValidationError>(
                Transaction::Chargeback { client, tx },
            ),
    {
        match kind {
            RecordKind::Deposit => match amount {
                Some(a) => Transaction::new_deposit(client, tx, a),
                None => Err(TransactionValidationError::InvalidAmount),
            },
            RecordKind::Withdrawal => match amount {
                Some(a) => Transaction::new_withdrawal(client, tx, a),
                None => Err(TransactionValidationError::InvalidAmount),
            },
            RecordKind::Dispute => Ok(Transaction::new_dispute(client, tx)),
            RecordKind::Resolve => Ok(Transaction::new_resolve(client, tx)),
            RecordKind::Chargeback => Ok(Transaction::new_chargeback(client, tx)),
        }
    }
}

/// The kind of a recorded transaction. Disputes, resolves and chargebacks do
/// not become records of their own: they act on existing ones.
#[derive(Clone, Copy, Debug, PartialEq, Eq, Structural)]
pub enum TxKind {
    Deposit,
    Withdrawal,
}

/// Where a recorded transaction stands in the dispute state machine:
/// `Normal -> Disputed -> { Normal (resolve), ChargedBack (terminal) }`.
#[derive(Clone, Copy, Debug, PartialEq, Eq, Structural)]
pub enum TxStatus {
    Normal,
    Disputed,
    ChargedBack,
}

/// A past deposit or withdrawal: immutable identity, mutable status.
#[derive(Clone, Copy, Debug, PartialEq, Eq, Structural)]
pub struct TxRecord {
    pub tx: TransactionId,
    pub client: Client,
    pub kind: TxKind,
    pub amount: Amount,
    pub status: TxStatus,
}

/// The mathematical shadow of a `TxRecord`: the amount as an integer count
/// of 10^-8 units.
pub struct TxRec {
    pub tx: TransactionId,
    pub client: Client,
    pub kind: TxKind,
    pub amount: int,
    pub status: TxStatus,
}

impl View for TxRecord {
    type V = TxRec;

    open spec fn view(&self) -> TxRec {
        TxRec {
            tx: self.tx,
            client: self.client,
            kind: self.kind,
            amount: self.amount@,
            status: self.status,
        }
    }
}

/// A per-client balance record.
#[derive(Clone, Copy, Debug, PartialEq, Eq, Structural)]
pub struct Account {
    pub client: Client,
    /// Funds free to withdraw; may go negative transiently, by design.
    pub available: Amount,
    /// Funds frozen pending dispute resolution; may go negative, by design.
    pub held: Amount,
    /// True once any chargeback has occurred on this account; never reverts.
    pub frozen: bool,
}

/// The mathematical shadow of an `Account`.
pub struct AccountRec {
    pub client: Client,
    pub available: int,
    pub held: int,
    pub frozen: bool,
}

impl View for Account {
    type V = AccountRec;

    open spec fn view(&self) -> AccountRec {
        AccountRec {
            client: self.client,
            available: self.available@,
            held: self.held@,
            frozen: self.frozen,
        }
    }
}

impl Account {
    /// A fresh account with empty balances.
    pub fn new(client: Client) -> (r: Account)
        ensures
            r@ == (AccountRec { client, available: 0, held: 0, frozen: false }),
    {
        Account { client, available: Amount::zero(), held: Amount::zero(), frozen: false }
    }

    /// The value reported for the account: `available + held`.
    pub fn total_funds(&self) -> (r: Amount)
        requires
            i128::MIN <= self@.available + self@.held <= i128::MAX,
        ensures
            r@ == self@.available + self@.held,
    {
        self.available.add(self.held)
    }
}

/// One row of the reporting table: each balance rounded to four decimal
/// places for display; the account's accumulators themselves stay unrounded.
#[derive(Clone, Copy, Debug, PartialEq, Eq, Structural)]
pub struct AccountReport {
    pub client: Client,
    pub available: Amount,
    pub held: Amount,
    pub total: Amount,
    pub locked: bool,
}

impl Account {
    /// The account's reporting row.
    pub fn report(&self) -> (r: AccountReport)
        requires
            i128::MIN + 20000 <= self@.available + self@.held <= i128::MAX - 20000,
            i128::MIN + 20000 <= self@.available <= i128::MAX - 20000,
            i128::MIN + 20000 <= self@.held <= i128::MAX - 20000,
        ensures
            r.client == self.client,
            r.available@ == round4(self@.available),
            r.held@ == round4(self@.held),
            r.total@ == round4(self@.available + self@.held),
            r.locked == self.frozen,
    {
        AccountReport {
            client: self.client,
            available: self.available.round_dp4(),
            held: self.held.round_dp4(),
            total: self.available.add(self.held).round_dp4(),
            locked: self.frozen,
        }
    }
}

} // verus!
