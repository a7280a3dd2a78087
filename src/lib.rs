//! Memory-checking proofs over the BN254 scalar field: multilinear
//! extensions, a sum-check prover and verifier, KZG commitments, and the
//! Twist (read-write memory) and Shout (read-only lookup) protocols that
//! compose them through a Fiat-Shamir transcript.

pub mod benchmarks;
pub mod commitments;
pub mod field;
pub mod group;
pub mod polynomials;
pub mod shout;
pub mod sumcheck;
pub mod twist;
pub mod utils;

use vstd::prelude::*;

verus! {

/// Errors reported by the library.
#[derive(Debug, Clone, PartialEq, Eq)]
pub enum TwistAndShoutError {
    InvalidParameters(String),
    ProofGeneration(String),
    ProofVerification(String),
    Commitment(String),
    Polynomial(String),
    SumCheck(String),
}

} // verus!

pub use commitments::{CommitmentScheme, KZGCommitment, KZGVectorCommitment};
pub use field::FieldElement;
pub use polynomials::MultilinearExtension;
pub use shout::{LookupOp, LookupTable, Shout, ShoutProof};
pub use twist::{MemoryOp, MemoryTrace, Twist, TwistProof};
pub use utils::{setup_params, ProverParams, VerifierParams};
