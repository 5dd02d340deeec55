//! A toy payments engine: it applies transactions to per-client accounts and
//! reports the resulting account state.
//!
//! The engine, the accounts and the report are verified; reading the input
//! and writing the report are left to the program around the library.

pub mod amount;
pub mod account;
pub mod transaction;
pub mod engine;
pub mod output;
pub mod laws;
