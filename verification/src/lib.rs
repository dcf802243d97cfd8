//! Compliance-gated tokenisation of real-world assets.
//!
//! The crate holds the decision logic of two cooperating ledgers:
//!
//! - [`compliance`]: a registry of KYC records with a paginated allowlist
//!   ([`allowlist`]) and a set of blocked jurisdictions ([`jurisdiction`]),
//!   administered by one account;
//! - [`token`]: an asset token whose balances ([`ledger`]) move only between
//!   accounts that its registry allows.
//!
//! Every operation is specified by a function on the abstract state it acts
//! on; [`laws`] states what holds of those functions for every state.
use vstd::prelude::*;

pub mod allowlist;
pub mod compliance;
pub mod jurisdiction;
pub mod laws;
pub mod ledger;
pub mod token;

verus! {

/// Identifier of an account or of a contract on the ledger.
pub type AccountId = u64;

} // verus!
