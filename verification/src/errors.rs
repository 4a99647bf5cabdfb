//! The errors that decoding and verification report.

use vstd::prelude::*;

verus! {

/// Why a proof was not accepted.
#[derive(Clone, Copy, Debug, PartialEq, Eq, Structural)]
pub enum ProofError {
    /// The proof did not verify.
    VerificationError,
    /// The bytes are not the encoding of a proof.
    FormatError,
}

} // verus!
