//! The configuration of a proof: the extension field of the challenges, a
//! polynomial commitment scheme and a Fiat-Shamir challenger.
//!
//! The commitment scheme and the challenger are the implementation's. Each
//! of their operations has a specification function of the same name, which
//! stands for the result as a function of the arguments: the operations are
//! deterministic. Nothing else is assumed of the results but their shape.
//! An implementation says what its specification functions are; one that
//! does not leaves them unspecified.
use crate::extension::{all_ext_wf, ExtensionField};
use crate::field::{all_wf, Field};
use crate::matrix::RowMajorMatrix;
use vstd::arithmetic::power2::pow2;
use vstd::prelude::*;

verus! {

/// The base field of a configuration.
pub type Val<SC> = <<SC as StarkConfig>::Challenge as ExtensionField>::Base;

/// The width and the height of a committed matrix.
#[derive(Clone, Copy, Debug)]
pub struct Dimensions {
    pub width: usize,
    pub height: usize,
}

/// A matrix as a mathematical value: its entries row by row, and its width.
pub struct MatrixData<T> {
    pub values: Seq<T>,
    pub width: nat,
}

impl<T: Copy> RowMajorMatrix<T> {
    pub open spec fn data(&self) -> MatrixData<T> {
        MatrixData { values: self.values@, width: self.width as nat }
    }
}

/// The matrices as mathematical values.
pub open spec fn matrices_data<T: Copy>(matrices: Seq<RowMajorMatrix<T>>) -> Seq<MatrixData<T>> {
    Seq::new(matrices.len(), |i: int| matrices[i].data())
}

/// Every matrix has complete rows of well-formed entries.
pub open spec fn matrices_wf<F: Field>(matrices: Seq<RowMajorMatrix<F>>) -> bool {
    forall|i: int|
        0 <= i < matrices.len() ==> (#[trigger] matrices[i]).wf() && all_wf(matrices[i].values@)
}

/// Whether the matrix has complete rows of well-formed entries.
pub fn is_matrix_wf<F: Field>(matrix: &RowMajorMatrix<F>) -> (b: bool)
    ensures
        b == (matrix.wf() && all_wf(matrix.values@)),
{
    let complete = if matrix.width == 0 {
        matrix.values.len() == 0
    } else {
        matrix.values.len() % matrix.width == 0
    };
    if !complete {
        return false;
    }
    let mut i: usize = 0;
    while i < matrix.values.len()
        invariant
            i <= matrix.values@.len(),
            forall|j: int| 0 <= j < i ==> (#[trigger] matrix.values@[j]).wf(),
        decreases matrix.values@.len() - i,
    {
        if !matrix.values[i].is_canonical() {
            return false;
        }
        i += 1;
    }
    true
}

/// The rows of points or of values as sequences.
pub open spec fn rows_view<T>(rows: Seq<Vec<T>>) -> Seq<Seq<T>> {
    Seq::new(rows.len(), |i: int| rows[i]@)
}

/// The opened values of one batch, by matrix, point and column.
pub open spec fn batch_view<T>(batch: Seq<Vec<Vec<T>>>) -> Seq<Seq<Seq<T>>> {
    Seq::new(batch.len(), |i: int| rows_view(batch[i]@))
}

/// The opened values of all batches, by batch, matrix, point and column.
pub open spec fn opening_view<T>(batches: Seq<Vec<Vec<Vec<T>>>>) -> Seq<Seq<Seq<Seq<T>>>> {
    Seq::new(batches.len(), |i: int| batch_view(batches[i]@))
}

/// Every point or value is well-formed.
pub open spec fn rows_wf<E: ExtensionField>(rows: Seq<Seq<E>>) -> bool {
    forall|i: int| 0 <= i < rows.len() ==> all_ext_wf(#[trigger] rows[i])
}

/// What a commitment operation returns.
pub struct Committed<Commitment, ProverData> {
    pub commitment: Commitment,
    pub data: ProverData,
}

/// What the opening operation returns and leaves behind.
pub struct Opened<E, OpeningProof, Challenger> {
    pub values: Seq<Seq<Seq<Seq<E>>>>,
    pub proof: OpeningProof,
    pub challenger: Challenger,
}

/// The claims of one batch of an opening: for each matrix its points, its
/// dimensions, and the claimed values by point and column.
pub struct BatchClaims<E> {
    pub points: Seq<Seq<E>>,
    pub dims: Seq<Dimensions>,
    pub values: Seq<Seq<Seq<E>>>,
}

/// The configuration of a proof.
pub trait StarkConfig: Sized {
    /// The field of the challenges, an extension of the field of the trace.
    type Challenge: ExtensionField;

    type Commitment;

    type ProverData;

    type OpeningProof;

    type Error;

    type Challenger;

    closed spec fn log_blowup_spec(&self) -> nat {
        arbitrary()
    }

    closed spec fn coset_shift_spec(&self) -> <Self::Challenge as ExtensionField>::Base {
        arbitrary()
    }

    closed spec fn pack_width_spec(&self) -> nat {
        arbitrary()
    }

    closed spec fn commit_batches_spec(
        &self,
        matrices: Seq<MatrixData<<Self::Challenge as ExtensionField>::Base>>,
    ) -> Committed<Self::Commitment, Self::ProverData> {
        arbitrary()
    }

    closed spec fn commit_shifted_batches_spec(
        &self,
        matrices: Seq<MatrixData<<Self::Challenge as ExtensionField>::Base>>,
        shift: <Self::Challenge as ExtensionField>::Base,
    ) -> Committed<Self::Commitment, Self::ProverData> {
        arbitrary()
    }

    closed spec fn ldes_spec(&self, data: Self::ProverData) -> Seq<
        MatrixData<<Self::Challenge as ExtensionField>::Base>,
    > {
        arbitrary()
    }

    closed spec fn open_multi_batches_spec(
        &self,
        trace_data: Self::ProverData,
        trace_points: Seq<Seq<Self::Challenge>>,
        quotient_data: Self::ProverData,
        quotient_points: Seq<Seq<Self::Challenge>>,
        challenger: Self::Challenger,
    ) -> Opened<Self::Challenge, Self::OpeningProof, Self::Challenger> {
        arbitrary()
    }

    closed spec fn verify_multi_batches_spec(
        &self,
        trace_commitment: Self::Commitment,
        trace: BatchClaims<Self::Challenge>,
        quotient_commitment: Self::Commitment,
        quotient: BatchClaims<Self::Challenge>,
        proof: Self::OpeningProof,
        challenger: Self::Challenger,
    ) -> (Result<(), Self::Error>, Self::Challenger) {
        arbitrary()
    }

    closed spec fn observe_spec(
        &self,
        challenger: Self::Challenger,
        commitment: Self::Commitment,
    ) -> Self::Challenger {
        arbitrary()
    }

    closed spec fn sample_ext_element_spec(&self, challenger: Self::Challenger) -> (
        Self::Challenge,
        Self::Challenger,
    ) {
        arbitrary()
    }

    /// The logarithm of the factor by which the scheme extends the domain
    /// of a committed matrix.
    fn log_blowup(&self) -> (r: usize)
        ensures
            r == self.log_blowup_spec(),
    ;

    /// The shift of the coset on which the scheme evaluates its extensions.
    fn coset_shift(&self) -> (r: <Self::Challenge as ExtensionField>::Base)
        ensures
            r == self.coset_shift_spec(),
            r.wf(),
    ;

    /// The number of points that are worked on together.
    fn pack_width(&self) -> (r: usize)
        ensures
            r == self.pack_width_spec(),
            r >= 1,
    ;

    /// Commits to matrices of values on subgroups. The low-degree extensions
    /// that `get_ldes` gives for the data are as many as the matrices, as
    /// wide, and `2^log_blowup` times as high.
    fn commit_batches(
        &self,
        matrices: Vec<RowMajorMatrix<<Self::Challenge as ExtensionField>::Base>>,
    ) -> (r: (Self::Commitment, Self::ProverData))
        requires
            matrices_wf(matrices@),
        ensures
            r.0 == self.commit_batches_spec(matrices_data(matrices@)).commitment,
            r.1 == self.commit_batches_spec(matrices_data(matrices@)).data,
            self.ldes_spec(r.1).len() == matrices@.len(),
            forall|i: int|
                0 <= i < matrices@.len() ==> (#[trigger] self.ldes_spec(r.1)[i]).width
                    == matrices@[i].width && self.ldes_spec(r.1)[i].values.len()
                    == matrices@[i].values@.len() * pow2(self.log_blowup_spec()),
    ;

    /// Commits to matrices of values on the cosets `shift * H` of subgroups.
    fn commit_shifted_batches(
        &self,
        matrices: Vec<RowMajorMatrix<<Self::Challenge as ExtensionField>::Base>>,
        shift: <Self::Challenge as ExtensionField>::Base,
    ) -> (r: (Self::Commitment, Self::ProverData))
        requires
            matrices_wf(matrices@),
            shift.wf(),
        ensures
            r.0 == self.commit_shifted_batches_spec(matrices_data(matrices@), shift).commitment,
            r.1 == self.commit_shifted_batches_spec(matrices_data(matrices@), shift).data,
    ;

    /// The low-degree extensions of the committed matrices, each by its
    /// values on the coset in the order of the coset's points.
    fn get_ldes(&self, data: &Self::ProverData) -> (r: Vec<
        RowMajorMatrix<<Self::Challenge as ExtensionField>::Base>,
    >)
        ensures
            matrices_data(r@) == self.ldes_spec(*data),
            matrices_wf(r@),
    ;

    /// Opens the matrices of the two commitments, each at its own points,
    /// with one opening proof. The values come by batch (trace, quotient),
    /// matrix, point and column.
    fn open_multi_batches(
        &self,
        trace_data: &Self::ProverData,
        trace_points: &Vec<Vec<Self::Challenge>>,
        quotient_data: &Self::ProverData,
        quotient_points: &Vec<Vec<Self::Challenge>>,
        challenger: &mut Self::Challenger,
    ) -> (r: (Vec<Vec<Vec<Vec<Self::Challenge>>>>, Self::OpeningProof))
        requires
            rows_wf(rows_view(trace_points@)),
            rows_wf(rows_view(quotient_points@)),
        ensures
            opening_view(r.0@) == self.open_multi_batches_spec(
                *trace_data,
                rows_view(trace_points@),
                *quotient_data,
                rows_view(quotient_points@),
                *old(challenger),
            ).values,
            r.1 == self.open_multi_batches_spec(
                *trace_data,
                rows_view(trace_points@),
                *quotient_data,
                rows_view(quotient_points@),
                *old(challenger),
            ).proof,
            *final(challenger) == self.open_multi_batches_spec(
                *trace_data,
                rows_view(trace_points@),
                *quotient_data,
                rows_view(quotient_points@),
                *old(challenger),
            ).challenger,
            r.0@.len() == 2,
            r.0@[0]@.len() == trace_points@.len(),
            r.0@[1]@.len() == quotient_points@.len(),
            forall|i: int|
                0 <= i < trace_points@.len() ==> (#[trigger] r.0@[0]@[i])@.len()
                    == trace_points@[i]@.len(),
            forall|i: int|
                0 <= i < quotient_points@.len() ==> (#[trigger] r.0@[1]@[i])@.len()
                    == quotient_points@[i]@.len(),
    ;

    /// Checks an opening proof against the claimed values of the matrices of
    /// the two commitments.
    fn verify_multi_batches(
        &self,
        trace_commitment: &Self::Commitment,
        trace_points: &Vec<Vec<Self::Challenge>>,
        trace_dims: &Vec<Dimensions>,
        trace_values: &Vec<Vec<Vec<Self::Challenge>>>,
        quotient_commitment: &Self::Commitment,
        quotient_points: &Vec<Vec<Self::Challenge>>,
        quotient_dims: &Vec<Dimensions>,
        quotient_values: &Vec<Vec<Vec<Self::Challenge>>>,
        proof: &Self::OpeningProof,
        challenger: &mut Self::Challenger,
    ) -> (r: Result<(), Self::Error>)
        requires
            rows_wf(rows_view(trace_points@)),
            rows_wf(rows_view(quotient_points@)),
            forall|i: int|
                0 <= i < trace_values@.len() ==> rows_wf(rows_view((#[trigger] trace_values@[i])@)),
            forall|i: int|
                0 <= i < quotient_values@.len() ==> rows_wf(
                    rows_view((#[trigger] quotient_values@[i])@),
                ),
        ensures
            (r, *final(challenger)) == self.verify_multi_batches_spec(
                *trace_commitment,
                BatchClaims {
                    points: rows_view(trace_points@),
                    dims: trace_dims@,
                    values: batch_view(trace_values@),
                },
                *quotient_commitment,
                BatchClaims {
                    points: rows_view(quotient_points@),
                    dims: quotient_dims@,
                    values: batch_view(quotient_values@),
                },
                *proof,
                *old(challenger),
            ),
    ;

    /// Absorbs a commitment into the transcript.
    fn observe(&self, challenger: &mut Self::Challenger, commitment: &Self::Commitment)
        ensures
            *final(challenger) == self.observe_spec(*old(challenger), *commitment),
    ;

    /// Draws a challenge from the transcript.
    fn sample_ext_element(&self, challenger: &mut Self::Challenger) -> (r: Self::Challenge)
        ensures
            r == self.sample_ext_element_spec(*old(challenger)).0,
            *final(challenger) == self.sample_ext_element_spec(*old(challenger)).1,
            r.wf(),
    ;
}

} // verus!
