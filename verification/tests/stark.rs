//! End-to-end runs of the prover and the verifier, over the Baby Bear field
//! and its quartic extension, with a transparent commitment scheme (a
//! commitment is the committed polynomials themselves) and a Keccak
//! challenger.

use duo_stark::baby_bear::BabyBear;
use duo_stark::baby_bear_quartic::BabyBearExt4;
use duo_stark::config::{Dimensions, StarkConfig};
use duo_stark::extension::{from_base, zero, ExtensionField};
use duo_stark::field::{exp_u64, Field};
use duo_stark::matrix::RowMajorMatrix;
use duo_stark::prover::{
    check_prover_inputs, prove, quotient_matrix, trace_degree_bits, try_prove,
};
use duo_stark::quotient::quotient_values;
use duo_stark::stark_proof::Proof;
use duo_stark::symbolic::{Air, SymbolicExpression};
use duo_stark::verification::{check_ood, check_proof_shape, verify, VerificationError};
use p3_challenger::{CanObserve, CanSample, HashChallenger, SerializingChallenger32};
use p3_field::extension::BinomialExtensionField;
use p3_field::{BasedVectorSpace, PrimeField32};
use p3_keccak::Keccak256Hash;

type Monty = p3_baby_bear::BabyBear;
type Transcript = SerializingChallenger32<Monty, HashChallenger<u8, Keccak256Hash, 32>>;

fn bb(value: u32) -> BabyBear {
    BabyBear { value }
}

fn inverse(x: BabyBear) -> BabyBear {
    x.try_inverse().unwrap()
}

/// The coefficients of the columns of a committed matrix.
#[derive(Clone, Debug, PartialEq)]
struct Polynomials {
    width: usize,
    height: usize,
    columns: Vec<Vec<BabyBear>>,
}

fn eval_base(coeffs: &[BabyBear], x: BabyBear) -> BabyBear {
    let mut acc = BabyBear::zero();
    for c in coeffs.iter().rev() {
        acc = acc.mul(x).add(*c);
    }
    acc
}

fn eval_ext(coeffs: &[BabyBear], x: BabyBearExt4) -> BabyBearExt4 {
    let mut acc = zero::<BabyBearExt4>();
    for c in coeffs.iter().rev() {
        acc = acc.mul(x).add(from_base::<BabyBearExt4>(*c));
    }
    acc
}

/// The polynomial of degree below `n` with the values `values` on the coset
/// `shift * H`, `H` of order `n`.
fn interpolate(values: &[BabyBear], shift: BabyBear) -> Vec<BabyBear> {
    let n = values.len();
    let log_n = n.trailing_zeros() as usize;
    let g_inv = inverse(BabyBear::two_adic_generator(log_n));
    let n_inv = inverse(bb(n as u32));
    let shift_inv = inverse(shift);
    (0..n)
        .map(|j| {
            let point = exp_u64(g_inv, j as u64);
            let mut sum = BabyBear::zero();
            for (i, v) in values.iter().enumerate() {
                sum = sum.add(v.mul(exp_u64(point, i as u64)));
            }
            sum.mul(n_inv).mul(exp_u64(shift_inv, j as u64))
        })
        .collect()
}

fn commit(matrices: &[RowMajorMatrix<BabyBear>], shift: BabyBear) -> Vec<Polynomials> {
    matrices
        .iter()
        .map(|m| {
            let (width, height) = (m.width(), m.height());
            let columns = (0..width)
                .map(|col| {
                    let values: Vec<BabyBear> = (0..height).map(|row| m.get(row, col)).collect();
                    interpolate(&values, shift)
                })
                .collect();
            Polynomials { width, height, columns }
        })
        .collect()
}

fn open(data: &[Polynomials], points: &[Vec<BabyBearExt4>]) -> Vec<Vec<Vec<BabyBearExt4>>> {
    data.iter()
        .zip(points)
        .map(|(m, at)| {
            at.iter().map(|z| m.columns.iter().map(|c| eval_ext(c, *z)).collect()).collect()
        })
        .collect()
}

fn claims_hold(
    commitment: &[Polynomials],
    points: &[Vec<BabyBearExt4>],
    dims: &[Dimensions],
    values: &[Vec<Vec<BabyBearExt4>>],
) -> bool {
    commitment.len() == points.len()
        && commitment.len() == dims.len()
        && commitment.iter().zip(dims).all(|(m, d)| m.width == d.width && m.height == d.height)
        && open(commitment, points) == values
}

struct TransparentConfig {
    log_blowup: usize,
    pack_width: usize,
}

impl StarkConfig for TransparentConfig {
    type Challenge = BabyBearExt4;
    type Commitment = Vec<Polynomials>;
    type ProverData = Vec<Polynomials>;
    type OpeningProof = ();
    type Error = ();
    type Challenger = Transcript;

    fn log_blowup(&self) -> usize {
        self.log_blowup
    }

    fn coset_shift(&self) -> BabyBear {
        bb(31)
    }

    fn pack_width(&self) -> usize {
        self.pack_width
    }

    fn commit_batches(
        &self,
        matrices: Vec<RowMajorMatrix<BabyBear>>,
    ) -> (Vec<Polynomials>, Vec<Polynomials>) {
        let polys = commit(&matrices, BabyBear::one());
        (polys.clone(), polys)
    }

    fn commit_shifted_batches(
        &self,
        matrices: Vec<RowMajorMatrix<BabyBear>>,
        shift: BabyBear,
    ) -> (Vec<Polynomials>, Vec<Polynomials>) {
        let polys = commit(&matrices, shift);
        (polys.clone(), polys)
    }

    fn get_ldes(&self, data: &Vec<Polynomials>) -> Vec<RowMajorMatrix<BabyBear>> {
        data.iter()
            .map(|m| {
                let size = m.height << self.log_blowup;
                let w = BabyBear::two_adic_generator(size.trailing_zeros() as usize);
                let mut values = Vec::new();
                let mut x = self.coset_shift();
                for _ in 0..size {
                    for c in &m.columns {
                        values.push(eval_base(c, x));
                    }
                    x = x.mul(w);
                }
                RowMajorMatrix::new(values, m.width)
            })
            .collect()
    }

    fn open_multi_batches(
        &self,
        trace_data: &Vec<Polynomials>,
        trace_points: &Vec<Vec<BabyBearExt4>>,
        quotient_data: &Vec<Polynomials>,
        quotient_points: &Vec<Vec<BabyBearExt4>>,
        _challenger: &mut Transcript,
    ) -> (Vec<Vec<Vec<Vec<BabyBearExt4>>>>, ()) {
        (vec![open(trace_data, trace_points), open(quotient_data, quotient_points)], ())
    }

    fn verify_multi_batches(
        &self,
        trace_commitment: &Vec<Polynomials>,
        trace_points: &Vec<Vec<BabyBearExt4>>,
        trace_dims: &Vec<Dimensions>,
        trace_values: &Vec<Vec<Vec<BabyBearExt4>>>,
        quotient_commitment: &Vec<Polynomials>,
        quotient_points: &Vec<Vec<BabyBearExt4>>,
        quotient_dims: &Vec<Dimensions>,
        quotient_values: &Vec<Vec<Vec<BabyBearExt4>>>,
        _proof: &(),
        _challenger: &mut Transcript,
    ) -> Result<(), ()> {
        if claims_hold(trace_commitment, trace_points, trace_dims, trace_values)
            && claims_hold(quotient_commitment, quotient_points, quotient_dims, quotient_values)
        {
            Ok(())
        } else {
            Err(())
        }
    }

    fn observe(&self, challenger: &mut Transcript, commitment: &Vec<Polynomials>) {
        for m in commitment {
            challenger.observe(Monty::new(m.width as u32));
            challenger.observe(Monty::new(m.height as u32));
            for c in m.columns.iter().flatten() {
                challenger.observe(Monty::new(c.value));
            }
        }
    }

    fn sample_ext_element(&self, challenger: &mut Transcript) -> BabyBearExt4 {
        let e: BinomialExtensionField<Monty, 4> = challenger.sample();
        let c: &[Monty] = e.as_basis_coefficients_slice();
        BabyBearExt4 {
            c0: bb(c[0].as_canonical_u32()),
            c1: bb(c[1].as_canonical_u32()),
            c2: bb(c[2].as_canonical_u32()),
            c3: bb(c[3].as_canonical_u32()),
        }
    }
}

fn transcript() -> Transcript {
    Transcript::from_hasher(vec![], Keccak256Hash)
}

fn config() -> TransparentConfig {
    TransparentConfig { log_blowup: 2, pack_width: 4 }
}

fn var(is_next: bool, column: usize) -> Box<SymbolicExpression<BabyBear>> {
    Box::new(SymbolicExpression::Variable { is_next, column })
}

fn constant(v: u32) -> Box<SymbolicExpression<BabyBear>> {
    Box::new(SymbolicExpression::Constant(bb(v)))
}

/// One column that starts at `start` and goes up by 1 from row to row.
fn counter_air(start: u32) -> Air<BabyBear> {
    let step = SymbolicExpression::Mul(
        Box::new(SymbolicExpression::IsTransition),
        Box::new(SymbolicExpression::Sub(
            Box::new(SymbolicExpression::Sub(var(true, 0), var(false, 0))),
            constant(1),
        )),
    );
    let first = SymbolicExpression::Mul(
        Box::new(SymbolicExpression::IsFirstRow),
        Box::new(SymbolicExpression::Sub(var(false, 0), constant(start))),
    );
    Air { width: 1, constraints: vec![step, first] }
}

/// Two columns `a, b` with `a' = b` and `b' = a * a * b` from row to row: a
/// constraint of degree 3.
fn cubic_air() -> Air<BabyBear> {
    let next_a = SymbolicExpression::Mul(
        Box::new(SymbolicExpression::IsTransition),
        Box::new(SymbolicExpression::Sub(var(true, 0), var(false, 1))),
    );
    let next_b = SymbolicExpression::Mul(
        Box::new(SymbolicExpression::IsTransition),
        Box::new(SymbolicExpression::Sub(
            var(true, 1),
            Box::new(SymbolicExpression::Mul(
                Box::new(SymbolicExpression::Mul(var(false, 0), var(false, 0))),
                var(false, 1),
            )),
        )),
    );
    Air { width: 2, constraints: vec![next_a, next_b] }
}

fn counter_trace(start: u32, height: usize) -> RowMajorMatrix<BabyBear> {
    RowMajorMatrix::new((0..height as u32).map(|i| bb(start + i)).collect(), 1)
}

fn cubic_trace(height: usize) -> RowMajorMatrix<BabyBear> {
    let (mut a, mut b) = (bb(2), bb(3));
    let mut values = Vec::new();
    for _ in 0..height {
        values.push(a);
        values.push(b);
        let next_b = a.mul(a).mul(b);
        a = b;
        b = next_b;
    }
    RowMajorMatrix::new(values, 2)
}

fn copy(m: &RowMajorMatrix<BabyBear>) -> RowMajorMatrix<BabyBear> {
    RowMajorMatrix::new(m.values.clone(), m.width)
}

fn run(
    config: &TransparentConfig,
    airs: &Vec<Air<BabyBear>>,
    traces: Vec<RowMajorMatrix<BabyBear>>,
) -> Result<(), VerificationError> {
    let proof = prove(config, airs, &mut transcript(), traces);
    verify(config, airs, &mut transcript(), &proof)
}

#[test]
fn counter_of_height_eight_proves_and_verifies() {
    let airs = vec![counter_air(0)];
    assert_eq!(run(&config(), &airs, vec![counter_trace(0, 8)]), Ok(()));
}

#[test]
fn counter_with_a_changed_row_fails_verification() {
    let airs = vec![counter_air(0)];
    let mut trace = counter_trace(0, 8);
    trace.values[5] = bb(99);
    assert_eq!(
        run(&config(), &airs, vec![trace]),
        Err(VerificationError::OodEvaluationMismatch)
    );
}

#[test]
fn every_single_changed_cell_fails_verification() {
    let airs = vec![counter_air(0)];
    for row in 0..8 {
        let mut trace = counter_trace(0, 8);
        trace.values[row] = bb(1000 + row as u32);
        assert_eq!(
            run(&config(), &airs, vec![trace]),
            Err(VerificationError::OodEvaluationMismatch)
        );
    }
}

#[test]
fn an_unrelated_trace_fails_verification() {
    let airs = vec![counter_air(0)];
    assert_eq!(
        run(&config(), &airs, vec![counter_trace(5, 8)]),
        Err(VerificationError::OodEvaluationMismatch)
    );
}

#[test]
fn two_counters_prove_and_verify_together() {
    let airs = vec![counter_air(0), counter_air(7)];
    let traces = vec![counter_trace(0, 8), counter_trace(7, 16)];
    assert_eq!(run(&config(), &airs, traces), Ok(()));
}

#[test]
fn a_wrong_second_trace_fails_the_pair() {
    let airs = vec![counter_air(0), counter_air(7)];
    let traces = vec![counter_trace(0, 8), counter_trace(8, 16)];
    assert_eq!(run(&config(), &airs, traces), Err(VerificationError::OodEvaluationMismatch));
}

#[test]
fn cubic_constraints_prove_and_verify_with_two_quotient_parts() {
    let airs = vec![cubic_air()];
    assert_eq!(airs[0].get_log_quotient_degree(), 1);
    assert_eq!(run(&config(), &airs, vec![cubic_trace(8)]), Ok(()));
}

#[test]
fn cubic_constraints_with_a_changed_cell_fail() {
    let airs = vec![cubic_air()];
    let mut trace = cubic_trace(8);
    trace.values[6] = bb(12345);
    assert_eq!(
        run(&config(), &airs, vec![trace]),
        Err(VerificationError::OodEvaluationMismatch)
    );
}

#[test]
fn the_pack_width_does_not_change_the_proof() {
    let airs = vec![cubic_air()];
    let narrow = TransparentConfig { log_blowup: 2, pack_width: 1 };
    let wide = TransparentConfig { log_blowup: 2, pack_width: 64 };
    let odd = TransparentConfig { log_blowup: 2, pack_width: 3 };
    let a = prove(&narrow, &airs, &mut transcript(), vec![cubic_trace(8)]);
    let b = prove(&wide, &airs, &mut transcript(), vec![cubic_trace(8)]);
    let c = prove(&odd, &airs, &mut transcript(), vec![cubic_trace(8)]);
    assert_eq!(a.commitments.quotient_chunks, b.commitments.quotient_chunks);
    assert_eq!(a.commitments.quotient_chunks, c.commitments.quotient_chunks);
    assert_eq!(a.opened_values.quotient_chunks, b.opened_values.quotient_chunks);
    assert_eq!(verify(&wide, &airs, &mut transcript(), &a), Ok(()));
}

fn assert_same_proof(a: &Proof<TransparentConfig>, b: &Proof<TransparentConfig>) {
    assert_eq!(a.commitments.trace, b.commitments.trace);
    assert_eq!(a.commitments.quotient_chunks, b.commitments.quotient_chunks);
    assert_eq!(a.opened_values.trace_local, b.opened_values.trace_local);
    assert_eq!(a.opened_values.trace_next, b.opened_values.trace_next);
    assert_eq!(a.opened_values.quotient_chunks, b.opened_values.quotient_chunks);
    assert_eq!(a.degree_bits, b.degree_bits);
}

#[test]
fn two_runs_on_fresh_transcripts_give_the_same_proof() {
    let airs = vec![counter_air(0), cubic_air()];
    // The two arithmetizations do not share a number of quotient parts, so
    // each is proved alone.
    for (air, trace) in [(counter_air(0), counter_trace(0, 8)), (cubic_air(), cubic_trace(8))] {
        let airs = vec![air];
        let (mut first, mut second) = (transcript(), transcript());
        let a = prove(&config(), &airs, &mut first, vec![copy(&trace)]);
        let b = prove(&config(), &airs, &mut second, vec![copy(&trace)]);
        assert_same_proof(&a, &b);
        let x: BinomialExtensionField<Monty, 4> = first.sample();
        let y: BinomialExtensionField<Monty, 4> = second.sample();
        assert_eq!(x, y);
    }
    assert_eq!(airs.len(), 2);
}

#[test]
fn the_proof_records_the_logarithm_of_each_height() {
    let airs = vec![counter_air(0), counter_air(7)];
    let traces = vec![counter_trace(0, 8), counter_trace(7, 16)];
    assert_eq!(trace_degree_bits(&traces), vec![3, 4]);
    let proof = prove(&config(), &airs, &mut transcript(), traces);
    assert_eq!(proof.degree_bits, vec![3, 4]);
    assert_eq!(proof.opened_values.trace_local.len(), 2);
    assert_eq!(proof.opened_values.trace_local[0].len(), 1);
    assert_eq!(proof.opened_values.trace_next[1].len(), 1);
    assert_eq!(proof.opened_values.quotient_chunks[0].len(), 4);
}

#[test]
fn a_trace_local_of_the_wrong_length_is_rejected_before_the_transcript_is_touched() {
    let airs = vec![counter_air(0)];
    let mut proof = prove(&config(), &airs, &mut transcript(), vec![counter_trace(0, 8)]);
    proof.opened_values.trace_local[0].push(zero::<BabyBearExt4>());
    assert!(!check_proof_shape(&airs, &proof));
    let (mut used, mut fresh) = (transcript(), transcript());
    assert_eq!(
        verify(&config(), &airs, &mut used, &proof),
        Err(VerificationError::InvalidProofShape)
    );
    let x: BinomialExtensionField<Monty, 4> = used.sample();
    let y: BinomialExtensionField<Monty, 4> = fresh.sample();
    assert_eq!(x, y);
}

#[test]
fn each_wrong_dimension_is_a_shape_error() {
    let airs = vec![counter_air(0)];
    let fresh = || prove(&config(), &airs, &mut transcript(), vec![counter_trace(0, 8)]);
    let rejected = |proof: &Proof<TransparentConfig>| {
        verify(&config(), &airs, &mut transcript(), proof)
            == Err(VerificationError::InvalidProofShape)
    };

    let mut proof = fresh();
    proof.opened_values.trace_next[0].pop();
    assert!(rejected(&proof));

    let mut proof = fresh();
    proof.opened_values.quotient_chunks[0].pop();
    assert!(rejected(&proof));

    let mut proof = fresh();
    proof.degree_bits.push(3);
    assert!(rejected(&proof));

    let mut proof = fresh();
    proof.degree_bits[0] = 28;
    assert!(rejected(&proof));

    let mut proof = fresh();
    proof.opened_values.trace_local.clear();
    assert!(rejected(&proof));

    let mut proof = fresh();
    proof.opened_values.trace_local[0][0].c2 = bb(0x7800_0001);
    assert!(rejected(&proof));

    assert_eq!(verify(&config(), &airs, &mut transcript(), &fresh()), Ok(()));
}

#[test]
fn a_changed_opened_value_is_an_opening_error() {
    let airs = vec![counter_air(0)];
    let mut proof = prove(&config(), &airs, &mut transcript(), vec![counter_trace(0, 8)]);
    let v = proof.opened_values.trace_local[0][0];
    proof.opened_values.trace_local[0][0] = v.add(from_base::<BabyBearExt4>(bb(1)));
    assert_eq!(
        verify(&config(), &airs, &mut transcript(), &proof),
        Err(VerificationError::InvalidOpeningArgument)
    );
}

#[test]
fn a_wrong_declared_height_is_an_opening_error() {
    let airs = vec![counter_air(0)];
    let mut proof = prove(&config(), &airs, &mut transcript(), vec![counter_trace(0, 8)]);
    proof.degree_bits[0] = 4;
    assert_eq!(
        verify(&config(), &airs, &mut transcript(), &proof),
        Err(VerificationError::InvalidOpeningArgument)
    );
}

#[test]
fn a_proof_for_another_arithmetization_fails_the_identity() {
    let proved = vec![counter_air(0)];
    let checked = vec![counter_air(1)];
    let proof = prove(&config(), &proved, &mut transcript(), vec![counter_trace(0, 8)]);
    assert_eq!(
        verify(&config(), &checked, &mut transcript(), &proof),
        Err(VerificationError::OodEvaluationMismatch)
    );
}

#[test]
fn the_quotient_times_the_zerofier_is_the_folded_constraints() {
    // With the step constraint alone the folded constraints have the degree
    // of the zerofier, so on a valid trace the quotient is a constant: its
    // values on the coset are all equal.
    let config = config();
    let mut air = counter_air(0);
    air.constraints.pop();
    let alpha = BabyBearExt4 { c0: bb(5), c1: bb(6), c2: bb(7), c3: bb(8) };
    let (_, data) = config.commit_batches(vec![counter_trace(0, 8)]);
    let lde = config.get_ldes(&data).remove(0);
    let strided = lde.vertically_strided(4, 0);
    assert_eq!(strided.height(), 8);
    let values = quotient_values(&config, &air, 3, 0, &strided, alpha);
    assert_eq!(values.len(), 8);
    assert!(values.iter().all(|v| *v == values[0]));
    let matrix = quotient_matrix(&config, &air, 3, &lde, alpha);
    assert_eq!((matrix.width(), matrix.height()), (4, 8));
    assert_eq!(matrix.get(5, 2), values[5].c2);
}

#[test]
fn the_check_at_the_point_holds_for_a_proof_and_fails_at_another_point() {
    let airs = vec![counter_air(0)];
    let config = config();
    let proof = prove(&config, &airs, &mut transcript(), vec![counter_trace(0, 8)]);
    let mut replay = transcript();
    config.observe(&mut replay, &proof.commitments.trace);
    let alpha = config.sample_ext_element(&mut replay);
    config.observe(&mut replay, &proof.commitments.quotient_chunks);
    let zeta = config.sample_ext_element(&mut replay);
    let o = &proof.opened_values;
    assert!(check_ood(
        &airs[0],
        3,
        &o.trace_local[0],
        &o.trace_next[0],
        &o.quotient_chunks[0],
        alpha,
        zeta
    ));
    assert!(!check_ood(
        &airs[0],
        3,
        &o.trace_local[0],
        &o.trace_next[0],
        &o.quotient_chunks[0],
        alpha,
        zeta.add(from_base::<BabyBearExt4>(bb(1)))
    ));
    // The first point of the trace domain is refused outright.
    assert!(!check_ood(
        &airs[0],
        3,
        &o.trace_local[0],
        &o.trace_next[0],
        &o.quotient_chunks[0],
        alpha,
        from_base::<BabyBearExt4>(bb(1))
    ));
}

#[test]
fn the_inputs_of_the_prover_are_checked() {
    let config = config();
    let airs = vec![counter_air(0)];
    let valid = |airs: &Vec<Air<BabyBear>>, traces: &Vec<RowMajorMatrix<BabyBear>>| {
        check_prover_inputs(&config, airs, traces)
    };
    assert!(valid(&airs, &vec![counter_trace(0, 8)]));
    assert!(valid(&airs, &vec![counter_trace(0, 1)]));
    // As many traces as arithmetizations, and at least one.
    assert!(!valid(&airs, &vec![]));
    assert!(!valid(&vec![], &vec![]));
    assert!(!valid(&airs, &vec![counter_trace(0, 8), counter_trace(0, 8)]));
    // A height that is no power of two.
    assert!(!valid(&airs, &vec![counter_trace(0, 6)]));
    assert!(!valid(&airs, &vec![counter_trace(0, 0)]));
    // A trace wider than its arithmetization.
    assert!(!valid(&airs, &vec![cubic_trace(8)]));
    // A constraint on a column that the trace lacks.
    let reads_column_one = vec![Air { width: 1, constraints: vec![*var(false, 1)] }];
    assert!(!valid(&reads_column_one, &vec![counter_trace(0, 8)]));
    // Two numbers of quotient parts in one batch.
    assert!(!valid(&vec![counter_air(0), cubic_air()], &vec![counter_trace(0, 8), cubic_trace(8)]));
    // More quotient parts than the blow-up.
    let no_blowup = TransparentConfig { log_blowup: 0, pack_width: 4 };
    assert!(check_prover_inputs(&no_blowup, &airs, &vec![counter_trace(0, 8)]));
    assert!(!check_prover_inputs(&no_blowup, &vec![cubic_air()], &vec![cubic_trace(8)]));
    // A domain beyond the two-adicity of the field.
    let large = TransparentConfig { log_blowup: 25, pack_width: 4 };
    assert!(!check_prover_inputs(&large, &vec![cubic_air()], &vec![cubic_trace(1 << 3)]));
    // An entry that is no field element.
    let mut trace = counter_trace(0, 8);
    trace.values[3] = bb(u32::MAX);
    assert!(!valid(&airs, &vec![trace]));

    let mut used = transcript();
    assert!(try_prove(&config, &airs, &mut used, vec![counter_trace(0, 6)]).is_none());
    let x: BinomialExtensionField<Monty, 4> = used.sample();
    let y: BinomialExtensionField<Monty, 4> = transcript().sample();
    assert_eq!(x, y);
    let proof = try_prove(&config, &airs, &mut transcript(), vec![counter_trace(0, 8)]).unwrap();
    assert_same_proof(
        &proof,
        &prove(&config, &airs, &mut transcript(), vec![counter_trace(0, 8)]),
    );
    assert_eq!(verify(&config, &airs, &mut transcript(), &proof), Ok(()));
}

#[test]
fn a_trace_of_one_row_proves_and_verifies() {
    let airs = vec![counter_air(4)];
    assert_eq!(run(&config(), &airs, vec![counter_trace(4, 1)]), Ok(()));
    assert_eq!(
        run(&config(), &airs, vec![counter_trace(5, 1)]),
        Err(VerificationError::OodEvaluationMismatch)
    );
}

#[test]
fn the_blow_up_may_equal_the_number_of_quotient_parts() {
    let tight = TransparentConfig { log_blowup: 1, pack_width: 8 };
    let airs = vec![cubic_air()];
    assert_eq!(run(&tight, &airs, vec![cubic_trace(16)]), Ok(()));
    let wide = TransparentConfig { log_blowup: 3, pack_width: 8 };
    assert_eq!(run(&wide, &airs, vec![cubic_trace(4)]), Ok(()));
}
