//! The request and response records the ledger consumes and produces.
//!
//! Requests arrive as opaque decoded structures: the wire encoding and
//! the turning of human-readable addresses into canonical
//! identifiers belong to external collaborators at the call boundary.
use vstd::prelude::*;

use crate::state::Amount;
use crate::state::CanonicalAddr;

verus! {

/// One genesis entry: an account and its opening balance.
#[derive(Clone, Debug, PartialEq, Eq)]
pub struct InitialBalance {
    pub address: CanonicalAddr,
    pub amount: Amount,
}

/// The initialization request: token metadata and the opening balances.
#[derive(Clone, Debug, PartialEq, Eq)]
pub struct InitMsg {
    pub name: String,
    pub symbol: String,
    pub decimals: u8,
    pub initial_balances: Vec<InitialBalance>,
}

/// A state-changing request.  The caller's identity arrives separately
/// as the signer.
#[derive(Clone, Debug, PartialEq, Eq)]
pub enum HandleMsg {
    Approve { spender: CanonicalAddr, amount: Amount },
    Transfer { recipient: CanonicalAddr, amount: Amount },
    TransferFrom { owner: CanonicalAddr, recipient: CanonicalAddr, amount: Amount },
}

/// A read-only request.
#[derive(Clone, Debug, PartialEq, Eq)]
pub enum QueryMsg {
    Balance { address: CanonicalAddr },
    Allowance { owner: CanonicalAddr, spender: CanonicalAddr },
}

/// The answer to a balance query: the balance as a decimal numeral.
#[derive(Clone, Debug, PartialEq, Eq)]
pub struct BalanceResponse {
    pub balance: Amount,
}

/// The answer to an allowance query: the remaining allowance as a
/// decimal numeral.
#[derive(Clone, Debug, PartialEq, Eq)]
pub struct AllowanceResponse {
    pub allowance: Amount,
}

/// The answer to a query, one variant per query kind.
#[derive(Clone, Debug, PartialEq, Eq)]
pub enum QueryAnswer {
    Balance(BalanceResponse),
    Allowance(AllowanceResponse),
}

} // verus!
