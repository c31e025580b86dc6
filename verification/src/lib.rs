//! A small payments ledger: per-client balances driven by an ordered stream
//! of deposit, withdrawal, dispute, resolve and chargeback records, read from
//! and written back to a comma-separated text format.

pub mod accounts;
pub mod amount;
pub mod csvtext;
pub mod laws;
pub mod operations;
pub mod transactions;
