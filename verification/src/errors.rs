//! Error taxonomy: cryptographic failures of the range-proof engine are kept
//! apart from structural failures of wire decoding and proposal validation,
//! so that a routine rejection of adversarial input is never mistaken for an
//! internal fault.

use vstd::prelude::*;

verus! {

/// Failure modes of the range-proof engine.
#[derive(Clone, Copy, Debug, PartialEq, Eq, Structural)]
pub enum RangeProofError {
    /// No representable power of two lies at or above the batch length.
    PaddingOverflow,
    /// The prover failed on well-formed input; an internal fault that must be
    /// surfaced, never silently retried with identical inputs.
    ProofGenerationFailure,
    /// The proof does not attest the given commitments; the routine, expected
    /// outcome for adversarial or tampered input.
    VerificationFailure,
}

/// Errors surfaced when a wire message is decoded or a proposal is checked.
#[derive(Clone, Copy, Debug, PartialEq, Eq, Structural)]
pub enum ConversionError {
    /// The declared fee disagrees with the fee embedded in the transaction.
    FeeMismatch,
    /// The outlay-to-output mapping has the wrong length, an entry out of
    /// bounds, or a repeated outlay index.
    IndexOutOfBounds,
    /// The byte string is not a well-formed encoding of the expected message.
    InvalidEncoding,
}

} // verus!
