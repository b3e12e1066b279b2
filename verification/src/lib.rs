//! A transaction ledger: deposits, withdrawals, disputes, resolutions and
//! chargebacks applied in order to per-client accounts.
//!
//! Amounts are exact decimals computed by `rust_decimal`; the accounts live in
//! `hashbrown` tables. Both are reached through small trusted wrappers, and the
//! rules of the ledger are verified against the contracts of those wrappers.
pub mod amount;
pub mod input;
pub mod ledger;
pub mod model;
pub mod store;
pub mod transaction;

use vstd::prelude::*;

verus! {

/// Identifies an account holder.
pub type ClientId = u16;

/// Identifies a transaction within the stream.
pub type TransactionId = u32;

} // verus!
