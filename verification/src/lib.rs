//! Client accounting: a verified ledger engine for financial movement records.
//!
//! The crate ingests newline-delimited CSV rows describing deposits,
//! withdrawals, disputes, resolves and chargebacks, and maintains two
//! ledgers: one of transactions with their dispute-lifecycle status, and
//! one of per-client account balances. All monetary values are held as
//! integers scaled by 10^4, so every balance update is exact.

pub mod account;
pub mod amount;
pub mod batch;
pub mod digits;
pub mod importer;
pub mod ledger;
pub mod model;
pub mod process;
pub mod rows;
pub mod scan;
pub mod text;
pub mod transaction;
