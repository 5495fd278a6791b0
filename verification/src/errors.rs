//! The single discriminated error type every operation of the engine
//! propagates to the host boundary.  No failure is swallowed inside the core:
//! each operation either commits all of its record and counter updates or
//! returns one of these values with every record unchanged.

use vstd::prelude::*;

verus! {

/// Why an operation was rejected.
#[derive(Clone, Copy, Debug, PartialEq, Eq, Structural)]
pub enum ErrorCode {
    /// Advertiser display name empty or over the length bound.
    InvalidName,
    /// Advertiser contact address empty or over the length bound.
    InvalidEmail,
    /// An advertiser record already exists for this identity.
    AlreadyRegistered,
    /// The caller's spendable balance is below what the operation moves.
    InsufficientFunds,
    /// The caller does not own the record it tries to change.
    Unauthorized,
    /// Ad content empty or over the length bound.
    InvalidAdContent,
    /// Ad duration outside the allowed range.
    InvalidAdDuration,
    /// Ad budget below the required minimum.
    InsufficientAdBudget,
    /// A ciphertext blob could not be deserialized.
    MalformedCiphertext,
    /// A trait vector does not have the fixed cardinality.
    InvalidTraitVector,
    /// A counter or budget sum would exceed its representable range.
    Overflow,
    /// A homomorphic primitive could not be applied: an operand does not
    /// belong to the key's parameter set, or its noise or degree leaves no
    /// room for the operation.  Fatal to the whole operation, never retried.
    FheOperationFailed,
}

} // verus!
