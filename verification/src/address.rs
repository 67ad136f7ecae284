//! The ledger's address space and the derived-address scheme.
//!
//! An ordinary address (`Key`) is an identity backed by a private key: a
//! maker, a taker, an admin, or an asset mint. A derived address has no key
//! at all: it is computed deterministically from other addresses and a seed,
//! and only the escrow logic can act on its behalf. Derivation is modelled
//! structurally, so determinism is immediate and collision resistance is the
//! injectivity of the constructors, proved below.

use vstd::prelude::*;

verus! {

/// The discriminating suffix byte recorded with every derivation. In this
/// model every candidate address is already key-less and valid, so the
/// search for a suffix always succeeds at the first (highest) candidate.
pub const CANONICAL_BUMP: u8 = 255;

/// An address in the ledger.
#[derive(Clone, Copy, PartialEq, Eq, Structural, Debug, Hash)]
pub enum Address {
    /// An ordinary identity with a private key.
    Key(u64),
    /// The derived address of the escrow record for one (maker, seed) offer.
    Escrow { maker: u64, seed: u64 },
    /// The derived address of the token account holding `mint` on behalf of
    /// the escrow record derived from (maker, seed).
    Vault { maker: u64, seed: u64, mint: u64 },
}

/// The escrow record's address for the offer keyed by (maker, seed).
pub open spec fn spec_escrow_address(maker: u64, seed: u64) -> Address {
    Address::Escrow { maker, seed }
}

/// The vault's address for an escrow address and a deposit asset. Defined
/// for escrow addresses; on any other base it returns the base unchanged.
pub open spec fn spec_vault_address(escrow: Address, mint: u64) -> Address {
    match escrow {
        Address::Escrow { maker, seed } => Address::Vault { maker, seed, mint },
        _ => escrow,
    }
}

/// The vault address of the offer keyed by (maker, seed), holding `mint`.
pub open spec fn spec_vault_address_of(maker: u64, seed: u64, mint: u64) -> Address {
    spec_vault_address(spec_escrow_address(maker, seed), mint)
}

/// Derive the escrow record's address from the maker identity and the
/// caller-chosen seed. The same inputs always yield the same address.
pub fn derive_escrow_address(maker: u64, seed: u64) -> (a: Address)
    ensures
        a == spec_escrow_address(maker, seed),
{
    Address::Escrow { maker, seed }
}

/// Derive the vault's address from the escrow record's address and the
/// deposited asset's mint.
pub fn derive_vault_address(escrow: Address, mint: u64) -> (a: Address)
    requires
        escrow is Escrow,
    ensures
        a == spec_vault_address(escrow, mint),
{
    match escrow {
        Address::Escrow { maker, seed } => Address::Vault { maker, seed, mint },
        _ => escrow,
    }
}

/// Collision resistance of the escrow derivation: two escrow addresses are
/// equal exactly when they were derived from the same (maker, seed) pair.
pub proof fn lemma_escrow_address_injective(m1: u64, s1: u64, m2: u64, s2: u64)
    ensures
        (spec_escrow_address(m1, s1) == spec_escrow_address(m2, s2)) <==> (m1 == m2 && s1 == s2),
{
}

/// Collision resistance of the vault derivation: two vault addresses are
/// equal exactly when derived from the same offer key and the same mint.
pub proof fn lemma_vault_address_injective(m1: u64, s1: u64, t1: u64, m2: u64, s2: u64, t2: u64)
    ensures
        (spec_vault_address_of(m1, s1, t1) == spec_vault_address_of(m2, s2, t2)) <==> (m1 == m2
            && s1 == s2 && t1 == t2),
{
}

/// No private key exists for a derived address: neither an escrow address
/// nor a vault address ever coincides with an ordinary `Key` address, so no
/// key holder can authorize movements out of the vault.
pub proof fn lemma_derived_address_is_keyless(maker: u64, seed: u64, mint: u64)
    ensures
        forall|k: u64| spec_escrow_address(maker, seed) != Address::Key(k),
        forall|k: u64| spec_vault_address_of(maker, seed, mint) != Address::Key(k),
        spec_escrow_address(maker, seed) != spec_vault_address_of(maker, seed, mint),
{
}

} // verus!
