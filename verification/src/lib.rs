//! A verified transaction engine: per-client accounts with available and held
//! balances, a dispute lifecycle over retained deposit/withdrawal history, and
//! a typed error taxonomy for rejected transactions.

pub mod account;
pub mod laws;
pub mod transaction;

pub use account::Account;
pub use account::Amount;
pub use transaction::Error;
pub use transaction::Transaction;
pub use transaction::TransactionEngine;
pub use transaction::Type;
