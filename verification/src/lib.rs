//! A replay engine for a sequential ledger of client-initiated monetary
//! events: deposits, withdrawals, disputes, resolutions and chargebacks are
//! applied one at a time to an in-memory table of accounts and a table of
//! historical transactions, yielding final per-client balances.

pub mod amount;
pub mod engine;
pub mod laws;
pub mod model;
pub mod transactions;

pub use amount::Amount;
pub use engine::PaymentEngine;
pub use transactions::{
    Account, AccountReport, Client, RecordKind, Transaction, TransactionId,
    TransactionValidationError, TxKind, TxRecord, TxStatus,
};
