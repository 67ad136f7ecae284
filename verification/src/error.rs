//! The escrow operations' error taxonomy.
//!
//! Every error aborts its operation before any state changes, and each
//! carries a distinct class so a caller can tell "fix your input" from
//! "try again later" from "this offer is gone".

use vstd::prelude::*;

verus! {

/// Why an escrow operation was rejected. Each operation's contract states
/// exactly the inputs on which each variant is returned.
#[derive(Clone, Copy, PartialEq, Eq, Structural, Debug)]
pub enum EscrowError {
    /// Validation: the deposit or the requested amount is zero.
    ZeroAmount,
    /// Validation: the deposited and the requested asset are the same.
    SameAsset,
    /// Stale state: an open offer with the same (maker, seed) already exists.
    DuplicateEscrow,
    /// Stale state: no open offer exists for the given (maker, seed).
    EscrowNotFound,
    /// Timing: the take came before the offer's unlock time.
    TooEarly,
    /// Authorization: the refund caller is not the stored maker.
    WrongMaker,
    /// Custody: the paying account holds less than the transfer amount.
    InsufficientFunds,
    /// Custody: the receiving account's balance would exceed its capacity.
    BalanceOverflow,
}

/// The coarse classes of the taxonomy.
#[derive(Clone, Copy, PartialEq, Eq, Structural, Debug)]
pub enum ErrorClass {
    /// The input itself is malformed; resubmitting it cannot succeed.
    Validation,
    /// The caller is not entitled to this operation on this offer.
    Authorization,
    /// Too early; the same call can succeed once time has advanced.
    Timing,
    /// The asset-custody step refused the transfer.
    Custody,
    /// The caller's view of the open offers is stale: the offer is either
    /// already open (duplicate) or already gone (not found).
    Stale,
}

impl EscrowError {
    /// The class this error belongs to.
    pub fn class(&self) -> (c: ErrorClass)
        ensures
            c == self.spec_class(),
    {
        match self {
            EscrowError::ZeroAmount => ErrorClass::Validation,
            EscrowError::SameAsset => ErrorClass::Validation,
            EscrowError::DuplicateEscrow => ErrorClass::Stale,
            EscrowError::EscrowNotFound => ErrorClass::Stale,
            EscrowError::TooEarly => ErrorClass::Timing,
            EscrowError::WrongMaker => ErrorClass::Authorization,
            EscrowError::InsufficientFunds => ErrorClass::Custody,
            EscrowError::BalanceOverflow => ErrorClass::Custody,
        }
    }

    /// The class, as a spec-level function.
    pub open spec fn spec_class(self) -> ErrorClass {
        match self {
            EscrowError::ZeroAmount => ErrorClass::Validation,
            EscrowError::SameAsset => ErrorClass::Validation,
            EscrowError::DuplicateEscrow => ErrorClass::Stale,
            EscrowError::EscrowNotFound => ErrorClass::Stale,
            EscrowError::TooEarly => ErrorClass::Timing,
            EscrowError::WrongMaker => ErrorClass::Authorization,
            EscrowError::InsufficientFunds => ErrorClass::Custody,
            EscrowError::BalanceOverflow => ErrorClass::Custody,
        }
    }

    /// Whether simply retrying later can resolve the error. True exactly of
    /// the timing class: a premature take succeeds once time has advanced.
    pub fn retryable_later(&self) -> (r: bool)
        ensures
            r == (self.spec_class() == ErrorClass::Timing),
    {
        match self {
            EscrowError::TooEarly => true,
            _ => false,
        }
    }
}

} // verus!
