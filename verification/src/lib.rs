//! A ledger-replay engine for client account balances: a single pass over an
//! ordered stream of transaction records (deposit, withdrawal, dispute,
//! resolve, chargeback) that mutates per-client balances and a transaction
//! index, and exports the final balance snapshot per client.
pub mod engine;
pub mod errors;
pub mod laws;
pub mod models;
pub mod report;
