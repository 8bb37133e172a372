//! Error taxonomy of the protocol.

use vstd::prelude::*;

verus! {

/// An error from a cryptographic primitive or argument.
#[derive(Debug, Clone, PartialEq, Eq)]
pub enum CryptoError {
    /// One of the sub-argument checks failed; the string names the stage.
    ProofVerificationError(String),
    /// Dimension mismatch between the input and shuffled ciphertext vectors,
    /// or against the m-by-n matrix layout.
    InvalidShuffleStatement,
    /// A committed vector's length differs from the commit key's length.
    InvalidVectorLength,
    /// A commit key was requested or used with an out-of-range length.
    CommitKeyTooShort,
    /// A required non-zero field element was zero.
    ArithmeticError,
    /// Malformed encoded input.
    SerializationError,
}

/// Does the result carry a proof-verification error for the given stage?
pub open spec fn is_stage_err<T>(r: Result<T, CryptoError>, stage: Seq<char>) -> bool {
    match r {
        Err(CryptoError::ProofVerificationError(s)) => s@ == stage,
        _ => false,
    }
}

/// Build the proof-verification error for a stage.
pub fn stage_error(stage: &str) -> (r: CryptoError)
    ensures
        r matches CryptoError::ProofVerificationError(s) && s@ == stage@,
{
    broadcast use vstd::string::to_string_from_display_ensures_for_str;

    CryptoError::ProofVerificationError(stage.to_string())
}

/// An error of the card-protocol facade.
#[derive(Debug, Clone, PartialEq, Eq)]
pub enum CardProtocolError {
    /// A cryptographic primitive or argument failed.
    ProofVerificationError(CryptoError),
    /// An encoded message could not be read.
    IoError(String),
}

impl From<CryptoError> for CardProtocolError {
    fn from(err: CryptoError) -> (r: CardProtocolError) {
        CardProtocolError::ProofVerificationError(err)
    }
}

impl vstd::std_specs::convert::FromSpecImpl<CryptoError> for CardProtocolError {
    open spec fn obeys_from_spec() -> bool {
        true
    }

    open spec fn from_spec(err: CryptoError) -> CardProtocolError {
        CardProtocolError::ProofVerificationError(err)
    }
}

} // verus!
