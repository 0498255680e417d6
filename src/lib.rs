//! A minimal fungible-token ledger: per-account balances, a running total
//! supply, and a two-state lifecycle (uninitialized, then active). The ledger
//! is a plain value; the host that runs it loads and saves it around calls.
pub mod ledger;
pub mod laws;
pub mod lifecycle;
pub mod supply;

pub use ledger::{LedgerError, MemeCoin, MIN_PAYMENT_UNITS};
pub use lifecycle::Deployment;
