//! The proof that the prover emits and the verifier checks.
use crate::config::StarkConfig;
use vstd::prelude::*;

verus! {

/// The commitments to the traces and to the parts of the quotients.
pub struct Commitments<Com> {
    pub trace: Com,
    pub quotient_chunks: Com,
}

/// The values of the committed polynomials at the out-of-domain point, one
/// row for each arithmetization.
pub struct OpenedValues<Challenge> {
    /// The trace columns at `zeta`.
    pub trace_local: Vec<Vec<Challenge>>,
    /// The trace columns at `zeta * g`, the point of the next row.
    pub trace_next: Vec<Vec<Challenge>>,
    /// The columns of the flattened quotient parts at `zeta^k`.
    pub quotient_chunks: Vec<Vec<Challenge>>,
}

pub struct Proof<SC: StarkConfig> {
    pub commitments: Commitments<SC::Commitment>,
    pub opened_values: OpenedValues<SC::Challenge>,
    pub opening_proof: SC::OpeningProof,
    /// The binary logarithm of the height of each trace.
    pub degree_bits: Vec<usize>,
}

} // verus!
