//! A ledger of accounts, categorised transactions and per-category budget
//! periods that keeps three derived figures consistent: each account's running
//! balance, each transaction's balance-before/balance-after snapshot, and each
//! category's budget spending.
//!
//! - `models`: the records and the payloads of the operations.
//! - `tables`: tables kept in ascending identifier order, and row lookup.
//! - `accounts`: reading and moving an account balance.
//! - `budgets`: the current budget period of a category, moving its spent
//!   figure, and the roll-up over a category type.
//! - `cascade`: shifting the snapshots of the transactions that follow a changed one.
//! - `listing`: the newest-first order of transaction listings.
//! - `ledger`: the ledger itself; posting, editing and deleting transactions
//!   as all-or-nothing operations, and plain upkeep of the other tables.
//! - `consistency`: the ledger invariants and their preservation.
//! - `laws`: round trip, no-op update and snapshot chain.

pub mod models;
pub mod tables;
pub mod accounts;
pub mod budgets;
pub mod cascade;
pub mod listing;
pub mod ledger;
pub mod consistency;
pub mod laws;
