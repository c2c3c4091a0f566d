//! An on-ledger value-custody engine: it keeps fungible balances for
//! addresses and lets parties lock funds into conditional holds — escrows,
//! multi-recipient splits and recurring schedules — that settle according to
//! authorization rules, time conditions or third-party arbitration.
//!
//! The engine is a pure state machine over plain values: addresses are `u64`
//! ids, time is the current ledger value passed in by the caller, and every
//! operation either commits all of its effects or none. The surrounding host
//! authenticates callers, persists the state and emits events.

pub mod allowance;
pub mod balance;
pub mod contract;
pub mod dispute;
pub mod errors;
pub mod escrow;
pub mod laws;
pub mod model;
pub mod recurring;
pub mod splitter;
pub mod storage_types;

pub use crate::errors::Error;
