//! A trustless two-party asset-swap escrow.
//!
//! A maker deposits one asset into a custodial vault and names the asset and
//! amount it wants in return; a taker fulfils the trade by paying the
//! requested asset and atomically receiving the vault's contents; the maker
//! may instead reclaim its deposit at any time (refund). The escrow record's
//! address, and the vault's, are derived deterministically from the offer's
//! key material, so the custody authority over the vault is a key-less
//! derived address that only the escrow logic itself can act for.
//!
//! The ledger, its balances and the open offers are modelled explicitly:
//! every operation takes the current time as an argument and states in its
//! contract exactly which balances change, by how much, and on which inputs
//! each error is returned.

pub mod address;
pub mod error;
pub mod escrow;
pub mod layout;
pub mod token;
pub mod whitelist;
