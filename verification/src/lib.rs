//! A Bulletproofs-style inner-product argument over the Stark curve.
//!
//! The prover shows that it knows two vectors of scalars with a given inner
//! product, consistent with a commitment to them, in a proof of two points
//! for each halving of the vectors and two scalars. The field and curve
//! arithmetic is that of `mpc_stark`, the transcript is that of `merlin`;
//! the rounds, the transcript's order, the verifier's scalars and the wire
//! format are stated and proved here.

pub mod algebra;
pub mod encoding;
pub mod errors;
pub mod field;
pub mod inner_product_proof;
pub mod point;
pub mod proving;
pub mod s_vector;
pub mod scalar;
pub mod theorems;
pub mod transcript;
pub mod verification;
pub mod vectors;

pub use crate::errors::ProofError;
pub use crate::inner_product_proof::{inner_product, InnerProductProof};
pub use crate::point::Point;
pub use crate::scalar::Scalar;
