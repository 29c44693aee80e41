//! A payments engine: client accounts with available and held funds, and a
//! transaction engine that applies deposits, withdrawals, disputes, resolves
//! and chargebacks to them, with fixed-precision amounts.

pub mod account;
pub mod account_balance;
pub mod amt;
pub mod engine;
pub mod transaction;
pub mod txn;
pub mod types;

pub use account::{AccountError, ClientAccount, ClientId};
pub use account_balance::ClientAccountBalance;
pub use amt::{parse_amt, Amt};
pub use engine::{AccountBalances, TransactionEngine, TransactionError};
pub use transaction::{
    ProcessedTransaction, TransactionInput, TransactionStatus, TransactionType, TxId,
};
