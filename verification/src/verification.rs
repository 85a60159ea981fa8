//! The verifier: checks the shape of a proof, replays the transcript, has
//! the openings checked, and checks at the out-of-domain point that the
//! folded constraints are the product of the zerofier and the quotient.
use crate::config::{batch_view, rows_view, rows_wf, BatchClaims, Dimensions, StarkConfig, Val};
use crate::extension::{
    all_ext_wf, exp_power_of_2, exp_power_of_2_spec, from_base, from_base_spec, monomial,
    monomial_spec, one, one_spec, scale, scale_spec, zero, zero_spec, ExtensionField,
};
use crate::field::{inverse, lemma_generator_nonzero, Field};
use crate::flatten::flattened_width;
use crate::matrix::RowMajorMatrix;
use crate::prover::{degree_bits_spec, prover_inputs_valid, prover_transcript, ProverTranscript};
use crate::folder::{fold_ext_spec, Selectors, VerifierConstraintFolder};
use crate::stark_proof::Proof;
use crate::symbolic::Air;
use crate::util::{checked_pow2, copy_vec, pow2_usize, reverse_bits_len, reverse_bits_spec};
use vstd::arithmetic::power2::{lemma_pow2_pos, pow2};
use vstd::prelude::*;

verus! {

/// Why a proof was rejected.
#[derive(Debug, Clone, Copy, PartialEq, Eq, Structural)]
pub enum VerificationError {
    /// The dimensions of the opened values do not fit the arithmetizations
    /// and the declared heights.
    InvalidProofShape,
    /// The commitment scheme rejected the claimed openings.
    InvalidOpeningArgument,
    /// At the out-of-domain point the folded constraints are not the product
    /// of the zerofier and the quotient.
    OodEvaluationMismatch,
}

/// `x^j`, by `j` multiplications.
pub open spec fn ext_pow_spec<E: ExtensionField>(x: E, j: nat) -> E
    decreases j,
{
    if j == 0 {
        one_spec::<E>()
    } else {
        ext_pow_spec(x, (j - 1) as nat).mul_spec(x)
    }
}

/// The extension-field value with the coefficients
/// `values[start], ..., values[start + count - 1]` in the basis:
/// the sum of `basis_d * values[start + d]`.
pub open spec fn unflatten_spec<E: ExtensionField>(values: Seq<E>, start: int, count: nat) -> E
    decreases count,
{
    if count == 0 {
        zero_spec::<E>()
    } else {
        unflatten_spec(values, start, (count - 1) as nat).add_spec(
            monomial_spec::<E>((count - 1) as nat).mul_spec(values[start + count - 1]),
        )
    }
}

/// The value of part `c` of the quotient, from the opened values of its
/// flattened columns.
pub open spec fn quotient_part_spec<E: ExtensionField>(values: Seq<E>, c: nat) -> E {
    unflatten_spec(values, (c * E::dimension()) as int, E::dimension())
}

/// The sum of `part_(rev j) * zeta^j` over the first `count` indices `j`,
/// with `rev` the reversal of `log_chunks` binary digits.
pub open spec fn quotient_sum_spec<E: ExtensionField>(
    values: Seq<E>,
    zeta: E,
    log_chunks: nat,
    count: nat,
) -> E
    decreases count,
{
    if count == 0 {
        zero_spec::<E>()
    } else {
        quotient_sum_spec(values, zeta, log_chunks, (count - 1) as nat).add_spec(
            quotient_part_spec(values, reverse_bits_spec((count - 1) as nat, log_chunks)).mul_spec(
                ext_pow_spec(zeta, (count - 1) as nat),
            ),
        )
    }
}

/// The value of the quotient at `zeta`, recombined from the opened values of
/// the flattened columns of its `2^log_chunks` parts.
pub open spec fn quotient_at_spec<E: ExtensionField>(values: Seq<E>, zeta: E, log_chunks: nat) -> E {
    quotient_sum_spec(values, zeta, log_chunks, pow2(log_chunks))
}

/// `Z_H(zeta) = zeta^n - 1` for the trace domain `H` of `n = 2^degree_bits`
/// points.
pub open spec fn zerofier_at_spec<E: ExtensionField>(degree_bits: nat, zeta: E) -> E {
    exp_power_of_2_spec(zeta, degree_bits).sub_spec(one_spec::<E>())
}

/// The last point `g^(-1)` of the trace domain, in the extension field.
pub open spec fn last_point_spec<E: ExtensionField>(degree_bits: nat) -> E {
    from_base_spec::<E>(E::Base::generator_spec(degree_bits).inv_spec())
}

/// The selectors at `zeta`: `Z_H(zeta) / (zeta - 1)`,
/// `Z_H(zeta) / (zeta - g^(-1))` and `zeta - g^(-1)`.
pub open spec fn selectors_at_spec<E: ExtensionField>(degree_bits: nat, zeta: E) -> Selectors<E> {
    let z_h = zerofier_at_spec(degree_bits, zeta);
    let to_last = zeta.sub_spec(last_point_spec::<E>(degree_bits));
    Selectors {
        is_first_row: z_h.mul_spec(zeta.sub_spec(one_spec::<E>()).inv_spec()),
        is_last_row: z_h.mul_spec(to_last.inv_spec()),
        is_transition: to_last,
    }
}

/// The out-of-domain check of one arithmetization: `zeta` is neither the
/// first nor the last point of the trace domain, and the constraints on the
/// opened rows, folded with `alpha`, are `Z_H(zeta) * quotient(zeta)`.
pub open spec fn ood_check_spec<E: ExtensionField>(
    air: Air<E::Base>,
    degree_bits: nat,
    local: Seq<E>,
    next: Seq<E>,
    chunks: Seq<E>,
    alpha: E,
    zeta: E,
) -> bool {
    &&& zeta.sub_spec(one_spec::<E>()) != zero_spec::<E>()
    &&& zeta.sub_spec(last_point_spec::<E>(degree_bits)) != zero_spec::<E>()
    &&& fold_ext_spec(
        air.constraints@,
        air.constraints@.len(),
        local,
        next,
        selectors_at_spec(degree_bits, zeta),
        alpha,
        zero_spec::<E>(),
    ) == zerofier_at_spec(degree_bits, zeta).mul_spec(
        quotient_at_spec(chunks, zeta, air.log_quotient_degree_spec()),
    )
}

/// The opened values of one arithmetization fit it: the trace domain exists
/// in the field and fits the machine, the two rows are as wide as the trace,
/// the quotient has a value for each flattened column, and every value is
/// well-formed.
pub open spec fn air_shape_valid<E: ExtensionField>(
    air: Air<E::Base>,
    degree_bits: usize,
    local: Seq<E>,
    next: Seq<E>,
    chunks: Seq<E>,
) -> bool {
    &&& degree_bits <= E::Base::two_adicity()
    &&& pow2(degree_bits as nat) <= usize::MAX
    &&& local.len() == air.width
    &&& next.len() == air.width
    &&& chunks.len() == flattened_width::<E>(air.log_quotient_degree_spec())
    &&& all_ext_wf(local)
    &&& all_ext_wf(next)
    &&& all_ext_wf(chunks)
}

/// The proof has the shape that the arithmetizations ask for.
pub open spec fn proof_shape_valid<SC: StarkConfig>(
    airs: Seq<Air<Val<SC>>>,
    proof: Proof<SC>,
) -> bool {
    &&& proof.degree_bits@.len() == airs.len()
    &&& proof.opened_values.trace_local@.len() == airs.len()
    &&& proof.opened_values.trace_next@.len() == airs.len()
    &&& proof.opened_values.quotient_chunks@.len() == airs.len()
    &&& forall|i: int|
        0 <= i < airs.len() ==> air_shape_valid(
            #[trigger] airs[i],
            proof.degree_bits@[i],
            proof.opened_values.trace_local@[i]@,
            proof.opened_values.trace_next@[i]@,
            proof.opened_values.quotient_chunks@[i]@,
        )
}

/// The claims about the traces: each at `zeta` and `zeta * g`, with the
/// opened rows.
pub open spec fn trace_claims_spec<SC: StarkConfig>(
    airs: Seq<Air<Val<SC>>>,
    proof: Proof<SC>,
    zeta: SC::Challenge,
) -> BatchClaims<SC::Challenge> {
    BatchClaims {
        points: Seq::new(
            airs.len(),
            |i: int|
                seq![
                    zeta,
                    scale_spec(zeta, Val::<SC>::generator_spec(proof.degree_bits@[i] as nat)),
                ],
        ),
        dims: Seq::new(
            airs.len(),
            |i: int|
                Dimensions {
                    width: airs[i].width,
                    height: pow2(proof.degree_bits@[i] as nat) as usize,
                },
        ),
        values: Seq::new(
            airs.len(),
            |i: int|
                seq![
                    proof.opened_values.trace_local@[i]@,
                    proof.opened_values.trace_next@[i]@,
                ],
        ),
    }
}

/// The claims about the quotients: each at `zeta^k`, with the opened values
/// of its flattened columns.
pub open spec fn quotient_claims_spec<SC: StarkConfig>(
    airs: Seq<Air<Val<SC>>>,
    proof: Proof<SC>,
    zeta: SC::Challenge,
) -> BatchClaims<SC::Challenge> {
    BatchClaims {
        points: Seq::new(
            airs.len(),
            |i: int| seq![exp_power_of_2_spec(zeta, airs[i].log_quotient_degree_spec())],
        ),
        dims: Seq::new(
            airs.len(),
            |i: int|
                Dimensions {
                    width: flattened_width::<SC::Challenge>(
                        airs[i].log_quotient_degree_spec(),
                    ) as usize,
                    height: pow2(proof.degree_bits@[i] as nat) as usize,
                },
        ),
        values: Seq::new(airs.len(), |i: int| seq![proof.opened_values.quotient_chunks@[i]@]),
    }
}

/// What the verifier derives from a proof of valid shape.
pub struct VerifierTranscript<SC: StarkConfig> {
    pub alpha: SC::Challenge,
    pub zeta: SC::Challenge,
    /// The verdict of the commitment scheme on the openings.
    pub opening: Result<(), SC::Error>,
    /// The state in which the transcript is left.
    pub challenger: SC::Challenger,
}

/// The run of the protocol on the verifier's side, from the state
/// `challenger` of the transcript: the challenges are drawn as the prover
/// drew them, `alpha` after the trace commitment and `zeta` after the
/// quotient commitment.
pub open spec fn verifier_transcript<SC: StarkConfig>(
    config: SC,
    airs: Seq<Air<Val<SC>>>,
    challenger: SC::Challenger,
    proof: Proof<SC>,
) -> VerifierTranscript<SC> {
    let sampled_alpha = config.sample_ext_element_spec(
        config.observe_spec(challenger, proof.commitments.trace),
    );
    let sampled_zeta = config.sample_ext_element_spec(
        config.observe_spec(sampled_alpha.1, proof.commitments.quotient_chunks),
    );
    let zeta = sampled_zeta.0;
    let checked = config.verify_multi_batches_spec(
        proof.commitments.trace,
        trace_claims_spec::<SC>(airs, proof, zeta),
        proof.commitments.quotient_chunks,
        quotient_claims_spec::<SC>(airs, proof, zeta),
        proof.opening_proof,
        sampled_zeta.1,
    );
    VerifierTranscript {
        alpha: sampled_alpha.0,
        zeta,
        opening: checked.0,
        challenger: checked.1,
    }
}

/// The out-of-domain check of arithmetization `i`.
pub open spec fn ood_holds<SC: StarkConfig>(
    airs: Seq<Air<Val<SC>>>,
    proof: Proof<SC>,
    alpha: SC::Challenge,
    zeta: SC::Challenge,
    i: int,
) -> bool {
    ood_check_spec(
        airs[i],
        proof.degree_bits@[i] as nat,
        proof.opened_values.trace_local@[i]@,
        proof.opened_values.trace_next@[i]@,
        proof.opened_values.quotient_chunks@[i]@,
        alpha,
        zeta,
    )
}

/// The verdict on a proof: a proof of the wrong shape is rejected as such;
/// then one whose openings the commitment scheme rejects; then one that
/// fails the out-of-domain check of some arithmetization.
pub open spec fn verify_spec<SC: StarkConfig>(
    config: SC,
    airs: Seq<Air<Val<SC>>>,
    challenger: SC::Challenger,
    proof: Proof<SC>,
) -> Result<(), VerificationError> {
    let t = verifier_transcript(config, airs, challenger, proof);
    if !proof_shape_valid(airs, proof) {
        Err(VerificationError::InvalidProofShape)
    } else if t.opening is Err {
        Err(VerificationError::InvalidOpeningArgument)
    } else if forall|i: int| 0 <= i < airs.len() ==> #[trigger] ood_holds(airs, proof, t.alpha, t.zeta, i) {
        Ok(())
    } else {
        Err(VerificationError::OodEvaluationMismatch)
    }
}

/// The state in which verification leaves the transcript: untouched where
/// the proof has the wrong shape.
pub open spec fn verify_challenger_spec<SC: StarkConfig>(
    config: SC,
    airs: Seq<Air<Val<SC>>>,
    challenger: SC::Challenger,
    proof: Proof<SC>,
) -> SC::Challenger {
    if !proof_shape_valid(airs, proof) {
        challenger
    } else {
        verifier_transcript(config, airs, challenger, proof).challenger
    }
}

/// The verifier's run `v` on `proof` has the challenges of the prover's run
/// `p`, and its claims are the points that the prover opened with the values
/// that the opening gave.
pub open spec fn replays<SC: StarkConfig>(
    v: VerifierTranscript<SC>,
    p: ProverTranscript<SC>,
    airs: Seq<Air<Val<SC>>>,
    proof: Proof<SC>,
) -> bool {
    &&& v.alpha == p.alpha
    &&& v.zeta == p.zeta
    &&& trace_claims_spec::<SC>(airs, proof, v.zeta).points == p.trace_points
    &&& quotient_claims_spec::<SC>(airs, proof, v.zeta).points == p.quotient_points
    &&& forall|i: int|
        0 <= i < airs.len() ==> {
            &&& (#[trigger] trace_claims_spec::<SC>(airs, proof, v.zeta).values[i]) == seq![
                p.opened.values[0][i][0],
                p.opened.values[0][i][1],
            ]
            &&& quotient_claims_spec::<SC>(airs, proof, v.zeta).values[i] == seq![
                p.opened.values[1][i][0],
            ]
        }
}

/// The verifier replays the prover: on a proof that the prover made from the
/// same state of the transcript, it draws the same challenges, and asks the
/// commitment scheme about the points that the prover opened and the values
/// that the opening gave.
pub proof fn lemma_verifier_replays_prover<SC: StarkConfig>(
    config: SC,
    airs: Seq<Air<Val<SC>>>,
    challenger: SC::Challenger,
    traces: Seq<RowMajorMatrix<Val<SC>>>,
    proof: Proof<SC>,
)
    requires
        prover_inputs_valid(config, airs, traces),
        proof.matches(prover_transcript(config, airs, challenger, traces), traces),
    ensures
        replays(
            verifier_transcript(config, airs, challenger, proof),
            prover_transcript(config, airs, challenger, traces),
            airs,
            proof,
        ),
{
    let p = prover_transcript(config, airs, challenger, traces);
    let v = verifier_transcript(config, airs, challenger, proof);
    let trace_claims = trace_claims_spec::<SC>(airs, proof, v.zeta);
    let quotient_claims = quotient_claims_spec::<SC>(airs, proof, v.zeta);
    assert(v.alpha == p.alpha);
    assert(v.zeta == p.zeta);
    assert forall|i: int| 0 <= i < airs.len() implies #[trigger] trace_claims.points[i]
        == p.trace_points[i] by {
        assert(proof.degree_bits@[i] == degree_bits_spec(traces, i));
    }
    assert(trace_claims.points =~= p.trace_points);
    assert forall|i: int| 0 <= i < airs.len() implies #[trigger] quotient_claims.points[i]
        == p.quotient_points[i] by {
        assert(airs[i].wf());
    }
    assert(quotient_claims.points =~= p.quotient_points);
    assert forall|i: int| 0 <= i < airs.len() implies {
        &&& (#[trigger] trace_claims.values[i]) == seq![
            p.opened.values[0][i][0],
            p.opened.values[0][i][1],
        ]
        &&& quotient_claims.values[i] == seq![p.opened.values[1][i][0]]
    } by {
        assert(proof.opened_values.trace_local@[i]@ == p.opened.values[0][i][0]);
        assert(trace_claims.values[i] =~= seq![
            p.opened.values[0][i][0],
            p.opened.values[0][i][1],
        ]);
        assert(quotient_claims.values[i] =~= seq![p.opened.values[1][i][0]]);
    }
    assert(replays(v, p, airs, proof));
}

/// Whether every element is well-formed.
pub fn all_canonical<E: ExtensionField>(values: &Vec<E>) -> (b: bool)
    ensures
        b == all_ext_wf(values@),
{
    let mut i: usize = 0;
    while i < values.len()
        invariant
            i <= values@.len(),
            forall|j: int| 0 <= j < i ==> (#[trigger] values@[j]).wf(),
        decreases values@.len() - i,
    {
        if !values[i].is_canonical() {
            return false;
        }
        i += 1;
    }
    true
}

/// Whether the opened values of one arithmetization fit it.
pub fn check_air_shape<E: ExtensionField>(
    air: &Air<E::Base>,
    degree_bits: usize,
    local: &Vec<E>,
    next: &Vec<E>,
    chunks: &Vec<E>,
) -> (b: bool)
    ensures
        b == air_shape_valid(*air, degree_bits, local@, next@, chunks@),
{
    proof {
        E::lemma_dimension();
    }
    if degree_bits > E::Base::max_two_adic_bits() {
        return false;
    }
    if checked_pow2(degree_bits).is_none() {
        return false;
    }
    if local.len() != air.width() || next.len() != air.width() {
        return false;
    }
    let log_quotient_degree = air.get_log_quotient_degree();
    let dimension = E::degree();
    let ghost k = pow2(log_quotient_degree as nat);
    let chunk_count = chunks.len();
    let fits = match checked_pow2(log_quotient_degree) {
        Some(quotient_degree) => {
            if quotient_degree > usize::MAX / dimension {
                proof {
                    assert(k * dimension > usize::MAX) by (nonlinear_arith)
                        requires
                            k > usize::MAX / dimension,
                            dimension >= 1,
                    ;
                }
                false
            } else {
                proof {
                    assert(k * dimension <= usize::MAX) by (nonlinear_arith)
                        requires
                            k <= usize::MAX / dimension,
                            dimension >= 1,
                            k >= 0,
                    ;
                }
                chunk_count == quotient_degree * dimension
            }
        },
        None => {
            proof {
                assert(k * dimension >= k) by (nonlinear_arith)
                    requires
                        dimension >= 1,
                        k >= 0,
                ;
            }
            false
        },
    };
    fits && all_canonical(local) && all_canonical(next) && all_canonical(chunks)
}

/// Whether the proof has the shape that the arithmetizations ask for.
pub fn check_proof_shape<SC: StarkConfig>(air: &Vec<Air<Val<SC>>>, proof: &Proof<SC>) -> (b: bool)
    ensures
        b == proof_shape_valid(air@, *proof),
{
    let count = air.len();
    if proof.degree_bits.len() != count || proof.opened_values.trace_local.len() != count
        || proof.opened_values.trace_next.len() != count
        || proof.opened_values.quotient_chunks.len() != count {
        return false;
    }
    let mut i: usize = 0;
    while i < count
        invariant
            i <= count,
            count == air@.len(),
            proof.degree_bits@.len() == count,
            proof.opened_values.trace_local@.len() == count,
            proof.opened_values.trace_next@.len() == count,
            proof.opened_values.quotient_chunks@.len() == count,
            forall|j: int|
                0 <= j < i ==> air_shape_valid(
                    #[trigger] air@[j],
                    proof.degree_bits@[j],
                    proof.opened_values.trace_local@[j]@,
                    proof.opened_values.trace_next@[j]@,
                    proof.opened_values.quotient_chunks@[j]@,
                ),
        decreases count - i,
    {
        if !check_air_shape(
            &air[i],
            proof.degree_bits[i],
            &proof.opened_values.trace_local[i],
            &proof.opened_values.trace_next[i],
            &proof.opened_values.quotient_chunks[i],
        ) {
            proof {
                assert(!air_shape_valid(
                    air@[i as int],
                    proof.degree_bits@[i as int],
                    proof.opened_values.trace_local@[i as int]@,
                    proof.opened_values.trace_next@[i as int]@,
                    proof.opened_values.quotient_chunks@[i as int]@,
                ));
            }
            return false;
        }
        i += 1;
    }
    true
}

/// The value of the quotient at `zeta`, recombined from the opened values of
/// the flattened columns of its `2^log_chunks` parts: each group of
/// `dimension` values is a part's value in the basis, and the parts, taken in
/// bit-reversed order, are the coefficients of a polynomial in `zeta`.
pub fn quotient_at<E: ExtensionField>(values: &Vec<E>, zeta: E, log_chunks: usize) -> (r: E)
    requires
        values@.len() == flattened_width::<E>(log_chunks as nat),
        all_ext_wf(values@),
        zeta.wf(),
    ensures
        r == quotient_at_spec(values@, zeta, log_chunks as nat),
        r.wf(),
{
    let dimension = E::degree();
    let total = values.len();
    proof {
        E::lemma_dimension();
        lemma_pow2_pos(log_chunks as nat);
        assert(pow2(log_chunks as nat) <= pow2(log_chunks as nat) * dimension) by (nonlinear_arith)
            requires
                dimension >= 1,
        ;
    }
    let chunks = pow2_usize(log_chunks);
    let mut basis: Vec<E> = Vec::new();
    let mut d: usize = 0;
    while d < dimension
        invariant
            d <= dimension,
            dimension == E::dimension(),
            basis@.len() == d,
            all_ext_wf(basis@),
            forall|e: int| 0 <= e < d ==> #[trigger] basis@[e] == monomial_spec::<E>(e as nat),
        decreases dimension - d,
    {
        basis.push(monomial::<E>(d));
        d += 1;
    }
    let mut parts: Vec<E> = Vec::new();
    let mut c: usize = 0;
    while c < chunks
        invariant
            c <= chunks,
            dimension == E::dimension(),
            chunks == pow2(log_chunks as nat),
            total == values@.len(),
            values@.len() == chunks * dimension,
            all_ext_wf(values@),
            basis@.len() == dimension,
            all_ext_wf(basis@),
            forall|e: int|
                0 <= e < dimension ==> #[trigger] basis@[e] == monomial_spec::<E>(e as nat),
            parts@.len() == c,
            all_ext_wf(parts@),
            forall|b: int| 0 <= b < c ==> #[trigger] parts@[b] == quotient_part_spec(values@, b as nat),
        decreases chunks - c,
    {
        let mut part = zero::<E>();
        let mut d: usize = 0;
        proof {
            assert(0 <= c * dimension && c * dimension + dimension <= chunks * dimension)
                by (nonlinear_arith)
                requires
                    0 <= c < chunks,
                    dimension >= 0,
            ;
        }
        let start = c * dimension;
        while d < dimension
            invariant
                d <= dimension,
                c < chunks,
                start == c * dimension,
                total == values@.len(),
                start + dimension <= values@.len(),
                dimension == E::dimension(),
                all_ext_wf(values@),
                basis@.len() == dimension,
                all_ext_wf(basis@),
                forall|e: int|
                    0 <= e < dimension ==> #[trigger] basis@[e] == monomial_spec::<E>(e as nat),
                part.wf(),
                part == unflatten_spec(values@, start as int, d as nat),
            decreases dimension - d,
        {
            let term = basis[d].mul(values[start + d]);
            proof {
                E::lemma_closed(basis@[d as int], values@[start + d]);
                E::lemma_closed(part, term);
            }
            part = part.add(term);
            d += 1;
        }
        parts.push(part);
        c += 1;
    }
    let mut sum = zero::<E>();
    let mut weight = one::<E>();
    let mut j: usize = 0;
    while j < chunks
        invariant
            j <= chunks,
            chunks == pow2(log_chunks as nat),
            zeta.wf(),
            parts@.len() == chunks,
            all_ext_wf(parts@),
            forall|b: int|
                0 <= b < chunks ==> #[trigger] parts@[b] == quotient_part_spec(values@, b as nat),
            weight.wf(),
            weight == ext_pow_spec(zeta, j as nat),
            sum.wf(),
            sum == quotient_sum_spec(values@, zeta, log_chunks as nat, j as nat),
        decreases chunks - j,
    {
        let index = reverse_bits_len(j, log_chunks);
        let term = parts[index].mul(weight);
        proof {
            E::lemma_closed(parts@[index as int], weight);
            E::lemma_closed(sum, term);
            E::lemma_closed(weight, zeta);
        }
        sum = sum.add(term);
        weight = weight.mul(zeta);
        j += 1;
    }
    sum
}

/// The out-of-domain check of one arithmetization, on opened values that
/// fit it.
pub fn check_ood<E: ExtensionField>(
    air: &Air<E::Base>,
    degree_bits: usize,
    local: &Vec<E>,
    next: &Vec<E>,
    chunks: &Vec<E>,
    alpha: E,
    zeta: E,
) -> (b: bool)
    requires
        air.wf(),
        air_shape_valid(*air, degree_bits, local@, next@, chunks@),
        alpha.wf(),
        zeta.wf(),
    ensures
        b == ood_check_spec(*air, degree_bits as nat, local@, next@, chunks@, alpha, zeta),
{
    proof {
        E::Base::lemma_generator(degree_bits as nat);
        lemma_generator_nonzero::<E::Base>(degree_bits as nat);
    }
    let one = one::<E>();
    let g = E::Base::two_adic_generator(degree_bits);
    let last = from_base::<E>(inverse(g));
    proof {
        E::lemma_closed(zeta, one);
        E::lemma_closed(zeta, last);
    }
    let to_first = zeta.sub(one);
    let to_last = zeta.sub(last);
    let (inv_first, inv_last) = match (to_first.try_inverse(), to_last.try_inverse()) {
        (Some(x), Some(y)) => (x, y),
        _ => {
            return false;
        },
    };
    let zeta_pow_n = exp_power_of_2(zeta, degree_bits);
    proof {
        E::lemma_closed(zeta_pow_n, one);
    }
    let z_h = zeta_pow_n.sub(one);
    proof {
        E::lemma_closed(z_h, inv_first);
        E::lemma_closed(z_h, inv_last);
    }
    let selectors = Selectors {
        is_first_row: z_h.mul(inv_first),
        is_last_row: z_h.mul(inv_last),
        is_transition: to_last,
    };
    proof {
        assert(selectors == selectors_at_spec(degree_bits as nat, zeta));
    }
    let mut folder = VerifierConstraintFolder::<E> {
        local: copy_vec(local),
        next: copy_vec(next),
        selectors,
        alpha,
        accumulator: zero::<E>(),
    };
    folder.eval(air);
    let quotient = quotient_at(chunks, zeta, air.get_log_quotient_degree());
    proof {
        E::lemma_closed(z_h, quotient);
    }
    folder.accumulator.is_equal(z_h.mul(quotient))
}

/// Verifies a proof that the traces committed to in it satisfy the
/// arithmetizations `air`.
///
/// The verdict and the state in which the transcript is left are those of
/// `verify_spec` and `verify_challenger_spec`. A proof of the wrong shape is
/// rejected before the transcript is touched.
pub fn verify<SC: StarkConfig>(
    config: &SC,
    air: &Vec<Air<Val<SC>>>,
    challenger: &mut SC::Challenger,
    proof: &Proof<SC>,
) -> (r: Result<(), VerificationError>)
    requires
        forall|i: int| 0 <= i < air@.len() ==> (#[trigger] air@[i]).wf(),
    ensures
        r == verify_spec(*config, air@, *old(challenger), *proof),
        *final(challenger) == verify_challenger_spec(*config, air@, *old(challenger), *proof),
        !proof_shape_valid(air@, *proof) ==> r == Err::<(), VerificationError>(
            VerificationError::InvalidProofShape,
        ) && *final(challenger) == *old(challenger),
{
    let ghost airs = air@;
    let ghost t = verifier_transcript(*config, airs, *challenger, *proof);
    if !check_proof_shape(air, proof) {
        return Err(VerificationError::InvalidProofShape);
    }
    let count = air.len();
    config.observe(challenger, &proof.commitments.trace);
    let alpha = config.sample_ext_element(challenger);
    config.observe(challenger, &proof.commitments.quotient_chunks);
    let zeta = config.sample_ext_element(challenger);

    let mut trace_points: Vec<Vec<SC::Challenge>> = Vec::new();
    let mut trace_dims: Vec<Dimensions> = Vec::new();
    let mut trace_values: Vec<Vec<Vec<SC::Challenge>>> = Vec::new();
    let mut quotient_points: Vec<Vec<SC::Challenge>> = Vec::new();
    let mut quotient_dims: Vec<Dimensions> = Vec::new();
    let mut quotient_values: Vec<Vec<Vec<SC::Challenge>>> = Vec::new();
    let ghost trace_claims = trace_claims_spec::<SC>(airs, *proof, zeta);
    let ghost quotient_claims = quotient_claims_spec::<SC>(airs, *proof, zeta);
    let mut i: usize = 0;
    while i < count
        invariant
            i <= count,
            count == airs.len(),
            airs == air@,
            proof_shape_valid(airs, *proof),
            zeta.wf(),
            trace_claims == trace_claims_spec::<SC>(airs, *proof, zeta),
            quotient_claims == quotient_claims_spec::<SC>(airs, *proof, zeta),
            trace_points@.len() == i,
            trace_dims@.len() == i,
            trace_values@.len() == i,
            quotient_points@.len() == i,
            quotient_dims@.len() == i,
            quotient_values@.len() == i,
            forall|j: int|
                0 <= j < i ==> {
                    &&& (#[trigger] trace_points@[j])@ == trace_claims.points[j]
                    &&& all_ext_wf(trace_points@[j]@)
                },
            forall|j: int| 0 <= j < i ==> #[trigger] trace_dims@[j] == trace_claims.dims[j],
            forall|j: int|
                0 <= j < i ==> {
                    &&& rows_view((#[trigger] trace_values@[j])@) == trace_claims.values[j]
                    &&& rows_wf(rows_view(trace_values@[j]@))
                },
            forall|j: int|
                0 <= j < i ==> {
                    &&& (#[trigger] quotient_points@[j])@ == quotient_claims.points[j]
                    &&& all_ext_wf(quotient_points@[j]@)
                },
            forall|j: int| 0 <= j < i ==> #[trigger] quotient_dims@[j] == quotient_claims.dims[j],
            forall|j: int|
                0 <= j < i ==> {
                    &&& rows_view((#[trigger] quotient_values@[j])@) == quotient_claims.values[j]
                    &&& rows_wf(rows_view(quotient_values@[j]@))
                },
        decreases count - i,
    {
        let degree_bits = proof.degree_bits[i];
        let ghost local = proof.opened_values.trace_local@[i as int]@;
        let ghost next = proof.opened_values.trace_next@[i as int]@;
        let ghost chunks = proof.opened_values.quotient_chunks@[i as int]@;
        proof {
            assert(air_shape_valid(airs[i as int], degree_bits, local, next, chunks));
            Val::<SC>::lemma_generator(degree_bits as nat);
        }
        let height = pow2_usize(degree_bits);
        let g = Val::<SC>::two_adic_generator(degree_bits);

        let mut at_trace: Vec<SC::Challenge> = Vec::new();
        at_trace.push(zeta);
        at_trace.push(scale(zeta, g));
        let mut rows: Vec<Vec<SC::Challenge>> = Vec::new();
        rows.push(copy_vec(&proof.opened_values.trace_local[i]));
        rows.push(copy_vec(&proof.opened_values.trace_next[i]));
        proof {
            assert(at_trace@ =~= trace_claims.points[i as int]);
            assert(rows_view(rows@) =~= trace_claims.values[i as int]);
        }
        trace_points.push(at_trace);
        trace_dims.push(Dimensions { width: air[i].width(), height });
        trace_values.push(rows);

        let log_quotient_degree = air[i].get_log_quotient_degree();
        let mut at_quotient: Vec<SC::Challenge> = Vec::new();
        at_quotient.push(exp_power_of_2(zeta, log_quotient_degree));
        let mut rows: Vec<Vec<SC::Challenge>> = Vec::new();
        rows.push(copy_vec(&proof.opened_values.quotient_chunks[i]));
        proof {
            assert(at_quotient@ =~= quotient_claims.points[i as int]);
            assert(rows_view(rows@) =~= quotient_claims.values[i as int]);
        }
        quotient_points.push(at_quotient);
        quotient_dims.push(
            Dimensions { width: proof.opened_values.quotient_chunks[i].len(), height },
        );
        quotient_values.push(rows);
        i += 1;
    }
    proof {
        assert(rows_view(trace_points@) =~= trace_claims.points);
        assert(trace_dims@ =~= trace_claims.dims);
        assert(batch_view(trace_values@) =~= trace_claims.values);
        assert(rows_view(quotient_points@) =~= quotient_claims.points);
        assert(quotient_dims@ =~= quotient_claims.dims);
        assert(batch_view(quotient_values@) =~= quotient_claims.values);
        assert(rows_wf(rows_view(trace_points@)));
        assert(rows_wf(rows_view(quotient_points@)));
    }
    let checked = config.verify_multi_batches(
        &proof.commitments.trace,
        &trace_points,
        &trace_dims,
        &trace_values,
        &proof.commitments.quotient_chunks,
        &quotient_points,
        &quotient_dims,
        &quotient_values,
        &proof.opening_proof,
        challenger,
    );
    proof {
        assert(checked == t.opening);
        assert(*challenger == t.challenger);
    }
    if checked.is_err() {
        return Err(VerificationError::InvalidOpeningArgument);
    }
    let mut i: usize = 0;
    while i < count
        invariant
            i <= count,
            count == airs.len(),
            airs == air@,
            forall|j: int| 0 <= j < airs.len() ==> (#[trigger] airs[j]).wf(),
            proof_shape_valid(airs, *proof),
            t == verifier_transcript(*config, airs, *old(challenger), *proof),
            t.opening is Ok,
            *challenger == t.challenger,
            alpha == t.alpha,
            zeta == t.zeta,
            alpha.wf(),
            zeta.wf(),
            forall|j: int| 0 <= j < i ==> #[trigger] ood_holds(airs, *proof, t.alpha, t.zeta, j),
        decreases count - i,
    {
        proof {
            assert(airs[i as int].wf());
            assert(air_shape_valid(
                airs[i as int],
                proof.degree_bits@[i as int],
                proof.opened_values.trace_local@[i as int]@,
                proof.opened_values.trace_next@[i as int]@,
                proof.opened_values.quotient_chunks@[i as int]@,
            ));
        }
        if !check_ood(
            &air[i],
            proof.degree_bits[i],
            &proof.opened_values.trace_local[i],
            &proof.opened_values.trace_next[i],
            &proof.opened_values.quotient_chunks[i],
            alpha,
            zeta,
        ) {
            proof {
                assert(!ood_holds(airs, *proof, t.alpha, t.zeta, i as int));
            }
            return Err(VerificationError::OodEvaluationMismatch);
        }
        i += 1;
    }
    Ok(())
}

} // verus!
