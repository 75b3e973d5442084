//! A fungible-token ledger: named accounts with non-negative 128-bit
//! balances and delegated-spending allowances, persisted in a flat
//! byte-oriented key-value store.
#![verifier::loop_isolation(false)]
use vstd::prelude::*;

pub mod codec;
pub mod contract;
pub mod keys;
pub mod laws;
pub mod msg;
pub mod state;
pub mod store;
