//! A small payments ledger: deposits, withdrawals and the dispute lifecycle
//! (dispute, resolve, chargeback) applied to per-client accounts, with the
//! balance rules and the account invariants proved.

pub mod account;
pub mod errors;
pub mod laws;
pub mod ledger;
pub mod manager;
pub mod record;
pub mod transaction;
