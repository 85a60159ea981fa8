//! End-to-end runs of the prover and the verifier with the FRI commitment
//! scheme over Merkle trees of `p3_fri`, Poseidon2 hashing and a duplex
//! challenger.

use duo_stark::baby_bear::BabyBear;
use duo_stark::baby_bear_quartic::BabyBearExt4;
use duo_stark::config::{Dimensions, StarkConfig};
use duo_stark::field::Field;
use duo_stark::matrix::RowMajorMatrix;
use duo_stark::prover::{check_prover_inputs, prove};
use duo_stark::symbolic::{Air, SymbolicExpression};
use duo_stark::verification::{verify, VerificationError};
use p3_baby_bear::Poseidon2BabyBear;
use p3_challenger::{CanObserve, DuplexChallenger, FieldChallenger};
use p3_commit::{
    CommitmentOpening, ExtensionMmcs, MatrixOpening, OpeningRequest, Pcs, PointOpening,
    UnivariateStarkPcs,
};
use p3_dft::Radix2DitParallel;
use p3_field::coset::TwoAdicMultiplicativeCoset;
use p3_field::extension::BinomialExtensionField;
use p3_field::{BasedVectorSpace, Field as MontyField, PrimeCharacteristicRing, PrimeField32};
use p3_fri::{FriParameters, TwoAdicFriPcs};
use p3_matrix::Matrix;
use p3_merkle_tree::MerkleTreeMmcs;
use p3_symmetric::{PaddingFreeSponge, TruncatedPermutation};
use rand::rngs::SmallRng;
use rand::SeedableRng;

type Monty = p3_baby_bear::BabyBear;
type MontyExt = BinomialExtensionField<Monty, 4>;
type Perm = Poseidon2BabyBear<16>;
type Hash = PaddingFreeSponge<Perm, 16, 8, 8>;
type Compress = TruncatedPermutation<Perm, 2, 8, 16>;
type ValMmcs = MerkleTreeMmcs<
    <Monty as MontyField>::Packing,
    <Monty as MontyField>::Packing,
    Hash,
    Compress,
    2,
    8,
>;
type ChallengeMmcs = ExtensionMmcs<Monty, MontyExt, ValMmcs>;
type Challenger = DuplexChallenger<Monty, Perm, 16, 8>;
type FriPcs = TwoAdicFriPcs<Monty, Radix2DitParallel<Monty>, ValMmcs, ChallengeMmcs>;
type Domain = TwoAdicMultiplicativeCoset<Monty>;
type FriCommitment = <FriPcs as Pcs<MontyExt, Challenger>>::Commitment;
type FriData = <FriPcs as Pcs<MontyExt, Challenger>>::ProverData;
type FriProof = <FriPcs as Pcs<MontyExt, Challenger>>::Proof;
type FriError = <FriPcs as Pcs<MontyExt, Challenger>>::Error;

fn bb(value: u32) -> BabyBear {
    BabyBear { value }
}

fn val(x: Monty) -> BabyBear {
    bb(x.as_canonical_u32())
}

fn challenge(x: MontyExt) -> BabyBearExt4 {
    let c: &[Monty] = x.as_basis_coefficients_slice();
    BabyBearExt4 { c0: val(c[0]), c1: val(c[1]), c2: val(c[2]), c3: val(c[3]) }
}

fn monty_ext(x: BabyBearExt4) -> MontyExt {
    MontyExt::new([x.c0, x.c1, x.c2, x.c3].map(|c| Monty::new(c.value)))
}

fn points(rows: &[Vec<BabyBearExt4>]) -> Vec<Vec<MontyExt>> {
    rows.iter().map(|row| row.iter().map(|x| monty_ext(*x)).collect()).collect()
}

fn domain(shift: Monty, height: usize) -> Domain {
    Domain::new(shift, height.trailing_zeros() as usize).unwrap()
}

/// The scheme's data of a commitment, and the height of each committed
/// matrix.
struct Committed {
    data: FriData,
    heights: Vec<usize>,
}

struct FriConfig {
    pcs: FriPcs,
    log_blowup: usize,
}

impl FriConfig {
    fn commit_on(
        &self,
        matrices: Vec<RowMajorMatrix<BabyBear>>,
        shift: Monty,
    ) -> (FriCommitment, Committed) {
        let heights: Vec<usize> = matrices.iter().map(|m| m.height()).collect();
        let evaluations: Vec<_> = matrices
            .iter()
            .map(|m| {
                let values = m.values.iter().map(|x| Monty::new(x.value)).collect();
                (
                    domain(shift, m.height()),
                    p3_matrix::dense::RowMajorMatrix::new(values, m.width()),
                )
            })
            .collect();
        let (commitment, data) =
            <FriPcs as Pcs<MontyExt, Challenger>>::commit(&self.pcs, evaluations).unwrap();
        (commitment, Committed { data, heights })
    }
}

fn claims(
    points: &[Vec<BabyBearExt4>],
    dims: &[Dimensions],
    values: &[Vec<Vec<BabyBearExt4>>],
    shift: Monty,
) -> Vec<MatrixOpening<MontyExt, Domain>> {
    points
        .iter()
        .zip(dims)
        .zip(values)
        .map(|((at, dims), rows)| MatrixOpening {
            domain: domain(shift, dims.height),
            points: at
                .iter()
                .zip(rows)
                .map(|(z, row)| PointOpening {
                    point: monty_ext(*z),
                    values: row.iter().map(|x| monty_ext(*x)).collect(),
                })
                .collect(),
        })
        .collect()
}

impl StarkConfig for FriConfig {
    type Challenge = BabyBearExt4;
    type Commitment = FriCommitment;
    type ProverData = Committed;
    type OpeningProof = FriProof;
    type Error = FriError;
    type Challenger = Challenger;

    fn log_blowup(&self) -> usize {
        self.log_blowup
    }

    fn coset_shift(&self) -> BabyBear {
        val(Monty::GENERATOR)
    }

    fn pack_width(&self) -> usize {
        4
    }

    fn commit_batches(
        &self,
        matrices: Vec<RowMajorMatrix<BabyBear>>,
    ) -> (FriCommitment, Committed) {
        self.commit_on(matrices, Monty::ONE)
    }

    fn commit_shifted_batches(
        &self,
        matrices: Vec<RowMajorMatrix<BabyBear>>,
        shift: BabyBear,
    ) -> (FriCommitment, Committed) {
        self.commit_on(matrices, Monty::new(shift.value))
    }

    fn get_ldes(&self, data: &Committed) -> Vec<RowMajorMatrix<BabyBear>> {
        data.heights
            .iter()
            .enumerate()
            .map(|(idx, height)| {
                let extended = domain(Monty::GENERATOR, *height << self.log_blowup);
                let lde = <FriPcs as UnivariateStarkPcs<MontyExt, Challenger>>::get_evaluations_on_domain(
                    &self.pcs, &data.data, idx, extended,
                );
                let width = lde.width();
                let values = lde.to_row_major_matrix().values.into_iter().map(val).collect();
                RowMajorMatrix::new(values, width)
            })
            .collect()
    }

    fn open_multi_batches(
        &self,
        trace_data: &Committed,
        trace_points: &Vec<Vec<BabyBearExt4>>,
        quotient_data: &Committed,
        quotient_points: &Vec<Vec<BabyBearExt4>>,
        challenger: &mut Challenger,
    ) -> (Vec<Vec<Vec<Vec<BabyBearExt4>>>>, FriProof) {
        let requests = vec![
            OpeningRequest { prover_data: &trace_data.data, points: points(trace_points) },
            OpeningRequest { prover_data: &quotient_data.data, points: points(quotient_points) },
        ];
        let (values, proof) = self.pcs.open(requests, challenger).unwrap();
        let values = values
            .into_iter()
            .map(|batch| {
                batch
                    .into_iter()
                    .map(|m| {
                        m.into_iter().map(|row| row.into_iter().map(challenge).collect()).collect()
                    })
                    .collect()
            })
            .collect();
        (values, proof)
    }

    fn verify_multi_batches(
        &self,
        trace_commitment: &FriCommitment,
        trace_points: &Vec<Vec<BabyBearExt4>>,
        trace_dims: &Vec<Dimensions>,
        trace_values: &Vec<Vec<Vec<BabyBearExt4>>>,
        quotient_commitment: &FriCommitment,
        quotient_points: &Vec<Vec<BabyBearExt4>>,
        quotient_dims: &Vec<Dimensions>,
        quotient_values: &Vec<Vec<Vec<BabyBearExt4>>>,
        proof: &FriProof,
        challenger: &mut Challenger,
    ) -> Result<(), FriError> {
        let parts = quotient_dims.first().map_or(1, |d| d.width / 4);
        let quotient_shift = Monty::GENERATOR.exp_u64(parts as u64);
        let openings = vec![
            CommitmentOpening {
                commitment: trace_commitment.clone(),
                matrices: claims(trace_points, trace_dims, trace_values, Monty::ONE),
            },
            CommitmentOpening {
                commitment: quotient_commitment.clone(),
                matrices: claims(quotient_points, quotient_dims, quotient_values, quotient_shift),
            },
        ];
        self.pcs.verify(openings, proof, challenger)
    }

    fn observe(&self, challenger: &mut Challenger, commitment: &FriCommitment) {
        challenger.observe(commitment.clone());
    }

    fn sample_ext_element(&self, challenger: &mut Challenger) -> BabyBearExt4 {
        challenge(challenger.sample_algebra_element::<MontyExt>())
    }
}

fn setup(log_blowup: usize) -> (FriConfig, Challenger) {
    let perm = Perm::new_from_rng_128(&mut SmallRng::seed_from_u64(1));
    let mmcs = ValMmcs::new(Hash::new(perm.clone()), Compress::new(perm.clone()), 0);
    let fri = FriParameters {
        log_blowup,
        log_final_poly_len: 0,
        max_log_arity: 1,
        num_queries: 10,
        batch_proof_of_work_bits: 0,
        commit_proof_of_work_bits: 0,
        query_proof_of_work_bits: 4,
        mmcs: ChallengeMmcs::new(mmcs.clone()),
    };
    let pcs = FriPcs::new(Radix2DitParallel::default(), mmcs, fri);
    (FriConfig { pcs, log_blowup }, Challenger::new(perm))
}

fn var(is_next: bool, column: usize) -> Box<SymbolicExpression<BabyBear>> {
    Box::new(SymbolicExpression::Variable { is_next, column })
}

/// One column that starts at 0 and goes up by 1 from row to row.
fn counter_air() -> Air<BabyBear> {
    let step = SymbolicExpression::Mul(
        Box::new(SymbolicExpression::IsTransition),
        Box::new(SymbolicExpression::Sub(
            Box::new(SymbolicExpression::Sub(var(true, 0), var(false, 0))),
            Box::new(SymbolicExpression::Constant(bb(1))),
        )),
    );
    let first = SymbolicExpression::Mul(Box::new(SymbolicExpression::IsFirstRow), var(false, 0));
    Air { width: 1, constraints: vec![step, first] }
}

/// Two columns `a, b` with `a' = b` and `b' = a * a * b` from row to row.
fn cubic_air() -> Air<BabyBear> {
    let next_a = SymbolicExpression::Mul(
        Box::new(SymbolicExpression::IsTransition),
        Box::new(SymbolicExpression::Sub(var(true, 0), var(false, 1))),
    );
    let next_b = SymbolicExpression::Mul(
        Box::new(SymbolicExpression::IsTransition),
        Box::new(SymbolicExpression::Sub(
            var(true, 1),
            Box::new(SymbolicExpression::Mul(
                Box::new(SymbolicExpression::Mul(var(false, 0), var(false, 0))),
                var(false, 1),
            )),
        )),
    );
    Air { width: 2, constraints: vec![next_a, next_b] }
}

fn counter_trace(height: usize) -> RowMajorMatrix<BabyBear> {
    RowMajorMatrix::new((0..height as u32).map(bb).collect(), 1)
}

fn cubic_trace(height: usize) -> RowMajorMatrix<BabyBear> {
    let (mut a, mut b) = (bb(2), bb(3));
    let mut values = Vec::new();
    for _ in 0..height {
        values.push(a);
        values.push(b);
        let next_b = a.mul(a).mul(b);
        a = b;
        b = next_b;
    }
    RowMajorMatrix::new(values, 2)
}

fn run(
    log_blowup: usize,
    airs: &Vec<Air<BabyBear>>,
    traces: Vec<RowMajorMatrix<BabyBear>>,
) -> Result<(), VerificationError> {
    let (config, challenger) = setup(log_blowup);
    assert!(check_prover_inputs(&config, airs, &traces));
    let proof = prove(&config, airs, &mut challenger.clone(), traces);
    verify(&config, airs, &mut challenger.clone(), &proof)
}

#[test]
fn fri_counter_of_height_eight_proves_and_verifies() {
    assert_eq!(run(2, &vec![counter_air()], vec![counter_trace(8)]), Ok(()));
}

#[test]
fn fri_counter_with_a_changed_row_fails_verification() {
    let mut trace = counter_trace(8);
    trace.values[5] = bb(99);
    assert_eq!(
        run(2, &vec![counter_air()], vec![trace]),
        Err(VerificationError::OodEvaluationMismatch)
    );
}

#[test]
fn fri_two_counters_of_different_heights_prove_and_verify() {
    let airs = vec![counter_air(), counter_air()];
    assert_eq!(run(1, &airs, vec![counter_trace(16), counter_trace(64)]), Ok(()));
}

#[test]
fn fri_cubic_constraints_prove_and_verify() {
    assert_eq!(run(1, &vec![cubic_air()], vec![cubic_trace(32)]), Ok(()));
    assert_eq!(run(3, &vec![cubic_air()], vec![cubic_trace(8)]), Ok(()));
}

#[test]
fn fri_cubic_constraints_with_a_changed_cell_fail() {
    let mut trace = cubic_trace(16);
    trace.values[9] = bb(7);
    assert_eq!(
        run(2, &vec![cubic_air()], vec![trace]),
        Err(VerificationError::OodEvaluationMismatch)
    );
}

#[test]
fn fri_rejects_a_changed_opened_value() {
    let (config, challenger) = setup(2);
    let airs = vec![counter_air()];
    let mut proof = prove(&config, &airs, &mut challenger.clone(), vec![counter_trace(8)]);
    proof.opened_values.trace_next[0][0].c1 = bb(5);
    assert_eq!(
        verify(&config, &airs, &mut challenger.clone(), &proof),
        Err(VerificationError::InvalidOpeningArgument)
    );
}

#[test]
fn fri_rejects_a_proof_under_another_transcript() {
    let (config, challenger) = setup(2);
    let airs = vec![counter_air()];
    let proof = prove(&config, &airs, &mut challenger.clone(), vec![counter_trace(8)]);
    let mut other = challenger.clone();
    other.observe(Monty::new(1));
    assert!(verify(&config, &airs, &mut other, &proof).is_err());
    assert_eq!(verify(&config, &airs, &mut challenger.clone(), &proof), Ok(()));
}

#[test]
fn fri_two_runs_give_the_same_commitments_and_openings() {
    let (config, challenger) = setup(2);
    let airs = vec![cubic_air()];
    let (mut first, mut second) = (challenger.clone(), challenger.clone());
    let a = prove(&config, &airs, &mut first, vec![cubic_trace(8)]);
    let b = prove(&config, &airs, &mut second, vec![cubic_trace(8)]);
    assert_eq!(a.commitments.trace, b.commitments.trace);
    assert_eq!(a.commitments.quotient_chunks, b.commitments.quotient_chunks);
    assert_eq!(a.opened_values.trace_local, b.opened_values.trace_local);
    assert_eq!(a.opened_values.trace_next, b.opened_values.trace_next);
    assert_eq!(a.opened_values.quotient_chunks, b.opened_values.quotient_chunks);
    assert_eq!(a.degree_bits, vec![3]);
    let x: MontyExt = first.sample_algebra_element();
    let y: MontyExt = second.sample_algebra_element();
    assert_eq!(x, y);
}
