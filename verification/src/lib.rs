//! A minimal asset registry: it mints unique tokens, records ownership and a
//! sale price, lets a buyer purchase a token by paying the listed price to the
//! prior owner, and lets the owner reprice a token.
//!
//! The registry state and every command and query handler live here, each with
//! a contract stating exactly what it returns and how it changes the state.
//! The host ledger runtime (persistent storage, address validation, fund
//! transfer) is an external service: handlers work on an in-memory model of
//! the store and return the fund-transfer instructions for the host to run.

pub mod contract;
pub mod error;
pub mod host;
pub mod keys;
pub mod msg;
pub mod state;
