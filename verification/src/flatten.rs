//! The decomposition of a vector of extension-field values into a matrix of
//! base-field columns, one column for each part and each basis coefficient,
//! and its inverse.
use crate::decompose::{
    decompose, decompose_spec, divisors_invertible, lemma_decompose_round_trip,
    lemma_decompose_shape, recompose, recompose_spec, views,
};
use crate::extension::{all_ext_wf, ExtensionField};
use crate::field::{all_wf, Field};
use crate::matrix::{lemma_entry_in_bounds, lemma_entry_index, RowMajorMatrix};
use crate::util::{is_power_of_two, lemma_log2_pow2, log2_spec, pow2_usize};
use vstd::arithmetic::div_mod::{lemma_div_multiples_vanish, lemma_mod_multiples_basic};
use vstd::arithmetic::power2::{lemma_pow2_adds, lemma_pow2_pos, pow2};
use vstd::prelude::*;

verus! {

/// The `d`-th basis coefficients of the elements of `v`.
pub open spec fn coefficient_column<E: ExtensionField>(v: Seq<E>, d: int) -> Seq<E::Base> {
    Seq::new(v.len(), |i: int| v[i].coeffs()[d])
}

/// The entry of the flattened matrix in row `row` and column `col`: the value
/// at index `row` of part `col / D` of the coefficient `col % D`.
pub open spec fn flattened_entry<E: ExtensionField>(
    v: Seq<E>,
    shift: E::Base,
    log_chunks: nat,
    row: int,
    col: int,
) -> E::Base {
    let d = E::dimension() as int;
    decompose_spec(coefficient_column(v, col % d), shift, log_chunks)[col / d][row]
}

/// The number of columns of the flattened matrix.
pub open spec fn flattened_width<E: ExtensionField>(log_chunks: nat) -> nat {
    pow2(log_chunks) * E::dimension()
}

/// The entries of the flattened matrix, row by row.
pub open spec fn decompose_and_flatten_spec<E: ExtensionField>(
    v: Seq<E>,
    shift: E::Base,
    log_chunks: nat,
) -> Seq<E::Base> {
    let width = flattened_width::<E>(log_chunks) as int;
    let rows = v.len() / pow2(log_chunks);
    Seq::new((rows * width) as nat, |idx: int| flattened_entry(v, shift, log_chunks, idx / width, idx % width))
}

/// Column `col` of the matrix with the entries `values` in rows of `width`.
pub open spec fn matrix_column<T>(values: Seq<T>, width: int, col: int) -> Seq<T> {
    Seq::new((values.len() as int / width) as nat, |row: int| values[row * width + col])
}

/// The parts of the `d`-th coefficient, as the flattened matrix holds them.
pub open spec fn coefficient_parts<E: ExtensionField>(
    values: Seq<E::Base>,
    log_chunks: nat,
    d: int,
) -> Seq<Seq<E::Base>> {
    let width = flattened_width::<E>(log_chunks) as int;
    Seq::new(pow2(log_chunks), |c: int| matrix_column(values, width, c * E::dimension() + d))
}

/// The vector of extension-field values that the flattened matrix with the
/// entries `values` stands for: the inverse of `decompose_and_flatten_spec`.
pub open spec fn unflatten_and_recompose_spec<E: ExtensionField>(
    values: Seq<E::Base>,
    shift: E::Base,
    log_chunks: nat,
) -> Seq<E> {
    let width = flattened_width::<E>(log_chunks) as int;
    let rows = values.len() as int / width;
    Seq::new(
        (rows * pow2(log_chunks)) as nat,
        |i: int|
            E::from_coeffs(
                Seq::new(
                    E::dimension(),
                    |d: int|
                        recompose_spec(
                            coefficient_parts::<E>(values, log_chunks, d),
                            shift,
                            log_chunks,
                        )[i],
                ),
            ),
    )
}

/// The shape of the flattened matrix of a vector of `2^log_n` values.
pub proof fn lemma_flattened_shape<E: ExtensionField>(log_n: nat, log_chunks: nat)
    requires
        log_chunks <= log_n,
    ensures
        pow2(log_n) / pow2(log_chunks) == pow2((log_n - log_chunks) as nat),
        pow2((log_n - log_chunks) as nat) * pow2(log_chunks) == pow2(log_n),
        flattened_width::<E>(log_chunks) > 0,
        (pow2((log_n - log_chunks) as nat) * flattened_width::<E>(log_chunks))
            / flattened_width::<E>(log_chunks) == pow2((log_n - log_chunks) as nat),
        (pow2((log_n - log_chunks) as nat) * flattened_width::<E>(log_chunks))
            % flattened_width::<E>(log_chunks) == 0,
{
    let rows = pow2((log_n - log_chunks) as nat) as int;
    let k = pow2(log_chunks) as int;
    let width = flattened_width::<E>(log_chunks) as int;
    E::lemma_dimension();
    lemma_pow2_pos(log_chunks);
    lemma_pow2_adds((log_n - log_chunks) as nat, log_chunks);
    lemma_div_multiples_vanish(rows, k);
    assert(k * rows == rows * k) by (nonlinear_arith);
    assert(width > 0) by (nonlinear_arith)
        requires
            width == k * E::dimension(),
            k > 0,
            E::dimension() >= 1,
    ;
    lemma_div_multiples_vanish(rows, width);
    lemma_mod_multiples_basic(rows, width);
    assert(width * rows == rows * width) by (nonlinear_arith);
}

/// The flattened matrix holds, in the columns of the `d`-th coefficient, the
/// parts of that coefficient's column.
pub proof fn lemma_coefficient_parts<E: ExtensionField>(
    v: Seq<E>,
    log_n: nat,
    shift: E::Base,
    log_chunks: nat,
    d: int,
)
    requires
        v.len() == pow2(log_n),
        log_chunks <= log_n,
        0 <= d < E::dimension(),
        decompose_spec(coefficient_column(v, d), shift, log_chunks).len() == pow2(log_chunks),
        forall|c: int|
            0 <= c < pow2(log_chunks) ==> (#[trigger] decompose_spec(
                coefficient_column(v, d),
                shift,
                log_chunks,
            )[c]).len() == pow2((log_n - log_chunks) as nat),
    ensures
        coefficient_parts::<E>(decompose_and_flatten_spec(v, shift, log_chunks), log_chunks, d)
            =~= decompose_spec(coefficient_column(v, d), shift, log_chunks),
{
    let values = decompose_and_flatten_spec(v, shift, log_chunks);
    let parts = decompose_spec(coefficient_column(v, d), shift, log_chunks);
    let width = flattened_width::<E>(log_chunks) as int;
    let rows = pow2((log_n - log_chunks) as nat) as int;
    let dim = E::dimension() as int;
    let k = pow2(log_chunks) as int;
    lemma_flattened_shape::<E>(log_n, log_chunks);
    assert(values.len() == rows * width);
    assert forall|c: int| 0 <= c < k implies (#[trigger] coefficient_parts::<E>(
        values,
        log_chunks,
        d,
    )[c]) =~= parts[c] by {
        let col = c * dim + d;
        let column = matrix_column(values, width, col);
        lemma_entry_index(dim, c, d);
        lemma_entry_in_bounds(dim, k, c, d);
        assert(column.len() == rows);
        assert forall|row: int| 0 <= row < rows implies column[row] == parts[c][row] by {
            lemma_entry_index(width, row, col);
            lemma_entry_in_bounds(width, rows, row, col);
        }
    }
}

/// Flattening and its inverse give a vector back, where the decomposition of
/// each coefficient column can be recomposed.
pub proof fn lemma_flatten_round_trip<E: ExtensionField>(
    v: Seq<E>,
    log_n: nat,
    shift: E::Base,
    log_chunks: nat,
)
    requires
        v.len() == pow2(log_n),
        log_chunks <= log_n,
        all_ext_wf(v),
        forall|d: int|
            0 <= d < E::dimension() ==> {
                let parts = #[trigger] decompose_spec(coefficient_column(v, d), shift, log_chunks);
                &&& parts.len() == pow2(log_chunks)
                &&& forall|c: int|
                    0 <= c < pow2(log_chunks) ==> (#[trigger] parts[c]).len() == pow2(
                        (log_n - log_chunks) as nat,
                    )
                &&& recompose_spec(parts, shift, log_chunks) == coefficient_column(v, d)
            },
    ensures
        unflatten_and_recompose_spec::<E>(
            decompose_and_flatten_spec(v, shift, log_chunks),
            shift,
            log_chunks,
        ) =~= v,
{
    let values = decompose_and_flatten_spec(v, shift, log_chunks);
    let back = unflatten_and_recompose_spec::<E>(values, shift, log_chunks);
    lemma_flattened_shape::<E>(log_n, log_chunks);
    assert(back.len() == v.len());
    assert forall|i: int| 0 <= i < v.len() implies back[i] == v[i] by {
        let coeffs = Seq::new(
            E::dimension(),
            |d: int|
                recompose_spec(coefficient_parts::<E>(values, log_chunks, d), shift, log_chunks)[i],
        );
        E::lemma_coeffs(v[i]);
        assert forall|d: int| 0 <= d < E::dimension() implies coeffs[d] == v[i].coeffs()[d] by {
            let parts = decompose_spec(coefficient_column(v, d), shift, log_chunks);
            assert(parts.len() == pow2(log_chunks));
            lemma_coefficient_parts(v, log_n, shift, log_chunks, d);
            assert(coefficient_parts::<E>(values, log_chunks, d) == parts);
            assert(coefficient_column(v, d)[i] == v[i].coeffs()[d]);
        }
        assert(coeffs =~= v[i].coeffs());
    }
}

/// Unflattening and recomposing the flattened matrix of a vector gives the
/// vector back, where every element that the decomposition divides by has
/// its inverse.
pub proof fn lemma_unflatten_flatten<E: ExtensionField>(
    v: Seq<E>,
    log_n: nat,
    shift: E::Base,
    log_chunks: nat,
)
    requires
        v.len() == pow2(log_n),
        log_chunks <= log_n,
        all_ext_wf(v),
        divisors_invertible(shift, log_n, log_chunks),
    ensures
        unflatten_and_recompose_spec::<E>(
            decompose_and_flatten_spec(v, shift, log_chunks),
            shift,
            log_chunks,
        ) == v,
{
    assert forall|d: int| 0 <= d < E::dimension() implies {
        let parts = #[trigger] decompose_spec(coefficient_column(v, d), shift, log_chunks);
        &&& parts.len() == pow2(log_chunks)
        &&& forall|c: int|
            0 <= c < pow2(log_chunks) ==> (#[trigger] parts[c]).len() == pow2(
                (log_n - log_chunks) as nat,
            )
        &&& recompose_spec(parts, shift, log_chunks) == coefficient_column(v, d)
    } by {
        let column = coefficient_column(v, d);
        assert forall|i: int| 0 <= i < column.len() implies (#[trigger] column[i]).wf() by {
            E::lemma_coeffs(v[i]);
        }
        lemma_decompose_shape(column, log_n, shift, log_chunks);
        lemma_decompose_round_trip(column, log_n, shift, log_chunks);
    }
    lemma_flatten_round_trip(v, log_n, shift, log_chunks);
}

/// The basis coefficients of each element of `v`.
fn coefficient_rows<E: ExtensionField>(v: &Vec<E>) -> (r: Vec<Vec<E::Base>>)
    requires
        all_ext_wf(v@),
    ensures
        r@.len() == v@.len(),
        forall|i: int| 0 <= i < v@.len() ==> (#[trigger] r@[i])@ == v@[i].coeffs(),
{
    let mut r: Vec<Vec<E::Base>> = Vec::new();
    let mut i: usize = 0;
    while i < v.len()
        invariant
            i <= v@.len(),
            all_ext_wf(v@),
            r@.len() == i,
            forall|j: int| 0 <= j < i ==> (#[trigger] r@[j])@ == v@[j].coeffs(),
        decreases v@.len() - i,
    {
        r.push(v[i].as_base_slice());
        i += 1;
    }
    r
}

/// The parts of each coefficient column of `v`.
fn coefficient_chunks<E: ExtensionField>(v: &Vec<E>, shift: E::Base, log_chunks: usize) -> (r:
    Vec<Vec<Vec<E::Base>>>)
    requires
        is_power_of_two(v@.len()),
        log_chunks <= log2_spec(v@.len()) <= E::Base::two_adicity(),
        all_ext_wf(v@),
        shift.wf(),
        shift != E::Base::zero_spec(),
    ensures
        r@.len() == E::dimension(),
        forall|d: int|
            0 <= d < E::dimension() ==> {
                &&& views((#[trigger] r@[d])@) == decompose_spec(
                    coefficient_column(v@, d),
                    shift,
                    log_chunks as nat,
                )
                &&& recompose_spec(views(r@[d]@), shift, log_chunks as nat) == coefficient_column(
                    v@,
                    d,
                )
                &&& r@[d]@.len() == pow2(log_chunks as nat)
                &&& forall|c: int|
                    0 <= c < r@[d]@.len() ==> (#[trigger] r@[d]@[c])@.len() == v@.len() / pow2(
                        log_chunks as nat,
                    ) && all_wf(r@[d]@[c]@)
            },
{
    let dimension = E::degree();
    let n = v.len();
    let coeffs = coefficient_rows(v);
    let mut r: Vec<Vec<Vec<E::Base>>> = Vec::new();
    let mut d: usize = 0;
    while d < dimension
        invariant
            d <= dimension,
            dimension == E::dimension(),
            n == v@.len(),
            is_power_of_two(v@.len()),
            log_chunks <= log2_spec(v@.len()) <= E::Base::two_adicity(),
            all_ext_wf(v@),
            shift.wf(),
            shift != E::Base::zero_spec(),
            coeffs@.len() == n,
            forall|i: int| 0 <= i < n ==> (#[trigger] coeffs@[i])@ == v@[i].coeffs(),
            r@.len() == d,
            forall|e: int|
                0 <= e < d ==> {
                    &&& views((#[trigger] r@[e])@) == decompose_spec(
                        coefficient_column(v@, e),
                        shift,
                        log_chunks as nat,
                    )
                    &&& recompose_spec(views(r@[e]@), shift, log_chunks as nat)
                        == coefficient_column(v@, e)
                    &&& r@[e]@.len() == pow2(log_chunks as nat)
                    &&& forall|c: int|
                        0 <= c < r@[e]@.len() ==> (#[trigger] r@[e]@[c])@.len() == v@.len()
                            / pow2(log_chunks as nat) && all_wf(r@[e]@[c]@)
                },
        decreases dimension - d,
    {
        let mut column: Vec<E::Base> = Vec::new();
        let mut i: usize = 0;
        while i < n
            invariant
                i <= n,
                d < dimension,
                dimension == E::dimension(),
                n == v@.len(),
                all_ext_wf(v@),
                coeffs@.len() == n,
                forall|j: int| 0 <= j < n ==> (#[trigger] coeffs@[j])@ == v@[j].coeffs(),
                column@.len() == i,
                all_wf(column@),
                forall|j: int|
                    0 <= j < i ==> #[trigger] column@[j] == coefficient_column(v@, d as int)[j],
            decreases n - i,
        {
            proof {
                E::lemma_coeffs(v@[i as int]);
            }
            column.push(coeffs[i][d]);
            i += 1;
        }
        proof {
            assert(column@ =~= coefficient_column(v@, d as int));
        }
        r.push(decompose(column, shift, log_chunks));
        d += 1;
    }
    r
}

/// Decomposes the vector of values `quotient_poly` of a polynomial on the
/// coset `shift <g>` into `2^log_chunks` parts, and lays the parts out as a
/// matrix over the base field: row `i` holds, part by part, the basis
/// coefficients of the parts' values at index `i`.
///
/// `unflatten_and_recompose_spec` gives the vector back from the matrix.
pub fn decompose_and_flatten<E: ExtensionField>(
    quotient_poly: Vec<E>,
    shift: E::Base,
    log_chunks: usize,
) -> (r: RowMajorMatrix<E::Base>)
    requires
        is_power_of_two(quotient_poly@.len()),
        log_chunks <= log2_spec(quotient_poly@.len()) <= E::Base::two_adicity(),
        all_ext_wf(quotient_poly@),
        shift.wf(),
        shift != E::Base::zero_spec(),
        flattened_width::<E>(log_chunks as nat) <= usize::MAX,
    ensures
        r.wf(),
        r.width == flattened_width::<E>(log_chunks as nat),
        r.height_spec() == quotient_poly@.len() / pow2(log_chunks as nat),
        r.values@ == decompose_and_flatten_spec(quotient_poly@, shift, log_chunks as nat),
        all_wf(r.values@),
        unflatten_and_recompose_spec::<E>(r.values@, shift, log_chunks as nat) == quotient_poly@,
{
    let ghost v = quotient_poly@;
    let ghost log_n = log2_spec(v.len());
    let ghost target = decompose_and_flatten_spec(v, shift, log_chunks as nat);
    proof {
        lemma_log2_pow2(log_n);
        lemma_flattened_shape::<E>(log_n, log_chunks as nat);
        E::lemma_dimension();
        lemma_pow2_pos(log_chunks as nat);
        assert(pow2(log_chunks as nat) <= flattened_width::<E>(log_chunks as nat))
            by (nonlinear_arith)
            requires
                flattened_width::<E>(log_chunks as nat) == pow2(log_chunks as nat)
                    * E::dimension(),
                E::dimension() >= 1,
        ;
    }
    let dimension = E::degree();
    let chunks = pow2_usize(log_chunks);
    let width = chunks * dimension;
    let rows = quotient_poly.len() / chunks;
    let parts = coefficient_chunks(&quotient_poly, shift, log_chunks);
    let mut values: Vec<E::Base> = Vec::new();
    let mut row: usize = 0;
    while row < rows
        invariant
            row <= rows,
            dimension == E::dimension(),
            chunks == pow2(log_chunks as nat),
            width == chunks * dimension,
            width > 0,
            rows == v.len() / pow2(log_chunks as nat),
            target == decompose_and_flatten_spec(v, shift, log_chunks as nat),
            target.len() == rows * width,
            parts@.len() == dimension,
            forall|d: int|
                0 <= d < dimension ==> {
                    &&& views((#[trigger] parts@[d])@) == decompose_spec(
                        coefficient_column(v, d),
                        shift,
                        log_chunks as nat,
                    )
                    &&& parts@[d]@.len() == chunks
                    &&& forall|c: int|
                        0 <= c < chunks ==> (#[trigger] parts@[d]@[c])@.len() == rows && all_wf(
                            parts@[d]@[c]@,
                        )
                },
            values@.len() == row * width,
            all_wf(values@),
            values@ == target.subrange(0, values@.len() as int),
        decreases rows - row,
    {
        let mut c: usize = 0;
        proof {
            assert(0 * dimension == 0);
        }
        while c < chunks
            invariant
                c <= chunks,
                row < rows,
                dimension == E::dimension(),
                chunks == pow2(log_chunks as nat),
                width == chunks * dimension,
                width > 0,
                rows == v.len() / pow2(log_chunks as nat),
                target == decompose_and_flatten_spec(v, shift, log_chunks as nat),
                target.len() == rows * width,
                parts@.len() == dimension,
                forall|d: int|
                    0 <= d < dimension ==> {
                        &&& views((#[trigger] parts@[d])@) == decompose_spec(
                            coefficient_column(v, d),
                            shift,
                            log_chunks as nat,
                        )
                        &&& parts@[d]@.len() == chunks
                        &&& forall|c: int|
                            0 <= c < chunks ==> (#[trigger] parts@[d]@[c])@.len() == rows
                                && all_wf(parts@[d]@[c]@)
                    },
                values@.len() == row * width + c * dimension,
                all_wf(values@),
                values@ == target.subrange(0, values@.len() as int),
            decreases chunks - c,
        {
            let mut d: usize = 0;
            while d < dimension
                invariant
                    d <= dimension,
                    c < chunks,
                    row < rows,
                    dimension == E::dimension(),
                    chunks == pow2(log_chunks as nat),
                    width == chunks * dimension,
                    width > 0,
                    rows == v.len() / pow2(log_chunks as nat),
                    target == decompose_and_flatten_spec(v, shift, log_chunks as nat),
                    target.len() == rows * width,
                    parts@.len() == dimension,
                    forall|d: int|
                        0 <= d < dimension ==> {
                            &&& views((#[trigger] parts@[d])@) == decompose_spec(
                                coefficient_column(v, d),
                                shift,
                                log_chunks as nat,
                            )
                            &&& parts@[d]@.len() == chunks
                            &&& forall|c: int|
                                0 <= c < chunks ==> (#[trigger] parts@[d]@[c])@.len() == rows
                                    && all_wf(parts@[d]@[c]@)
                        },
                    values@.len() == row * width + c * dimension + d,
                    all_wf(values@),
                    values@ == target.subrange(0, values@.len() as int),
                decreases dimension - d,
            {
                let ghost before = values@;
                let ghost col = c * dimension + d;
                proof {
                    lemma_entry_index(dimension as int, c as int, d as int);
                    lemma_entry_in_bounds(dimension as int, chunks as int, c as int, d as int);
                    lemma_entry_index(width as int, row as int, col as int);
                    lemma_entry_in_bounds(width as int, rows as int, row as int, col as int);
                    assert(views(parts@[d as int]@)[c as int] == parts@[d as int]@[c as int]@);
                }
                values.push(parts[d][c][row]);
                proof {
                    assert(values@ =~= target.subrange(0, values@.len() as int));
                }
                d += 1;
            }
            proof {
                assert((c + 1) * dimension == c * dimension + dimension) by (nonlinear_arith);
            }
            c += 1;
        }
        proof {
            assert((row + 1) * width == row * width + width) by (nonlinear_arith);
        }
        row += 1;
    }
    proof {
        assert(values@ =~= target);
        assert forall|d: int| 0 <= d < E::dimension() implies {
            let chunks_of = #[trigger] decompose_spec(
                coefficient_column(v, d),
                shift,
                log_chunks as nat,
            );
            &&& chunks_of.len() == pow2(log_chunks as nat)
            &&& forall|c: int|
                0 <= c < pow2(log_chunks as nat) ==> (#[trigger] chunks_of[c]).len() == pow2(
                    (log_n - log_chunks) as nat,
                )
            &&& recompose_spec(chunks_of, shift, log_chunks as nat) == coefficient_column(v, d)
        } by {
            let chunks_of = decompose_spec(coefficient_column(v, d), shift, log_chunks as nat);
            assert(views(parts@[d]@) == chunks_of);
            assert forall|c: int| 0 <= c < pow2(log_chunks as nat) implies (
            #[trigger] chunks_of[c]).len() == pow2((log_n - log_chunks) as nat) by {
                assert(chunks_of[c] == parts@[d]@[c]@);
            }
        }
        lemma_flatten_round_trip(v, log_n, shift, log_chunks as nat);
    }
    RowMajorMatrix::new(values, width)
}

/// The vector of extension-field values that the flattened matrix `matrix`
/// stands for: the inverse of `decompose_and_flatten`.
pub fn unflatten_and_recompose<E: ExtensionField>(
    matrix: &RowMajorMatrix<E::Base>,
    shift: E::Base,
    log_chunks: usize,
) -> (r: Vec<E>)
    requires
        matrix.wf(),
        matrix.width == flattened_width::<E>(log_chunks as nat),
        is_power_of_two(matrix.height_spec()),
        log2_spec(matrix.height_spec()) + log_chunks <= E::Base::two_adicity(),
        matrix.height_spec() * pow2(log_chunks as nat) <= usize::MAX,
        all_wf(matrix.values@),
        shift.wf(),
    ensures
        r@ == unflatten_and_recompose_spec::<E>(matrix.values@, shift, log_chunks as nat),
        all_ext_wf(r@),
{
    let ghost values = matrix.values@;
    let ghost target = unflatten_and_recompose_spec::<E>(values, shift, log_chunks as nat);
    proof {
        E::lemma_dimension();
        lemma_pow2_pos(log_chunks as nat);
        matrix.lemma_len();
        assert(pow2(log_chunks as nat) <= flattened_width::<E>(log_chunks as nat))
            by (nonlinear_arith)
            requires
                flattened_width::<E>(log_chunks as nat) == pow2(log_chunks as nat)
                    * E::dimension(),
                E::dimension() >= 1,
        ;
        assert(flattened_width::<E>(log_chunks as nat) > 0);
    }
    let dimension = E::degree();
    let chunks = pow2_usize(log_chunks);
    let rows = matrix.height();
    let mut columns: Vec<Vec<E::Base>> = Vec::new();
    let mut d: usize = 0;
    while d < dimension
        invariant
            d <= dimension,
            dimension == E::dimension(),
            chunks == pow2(log_chunks as nat),
            rows == matrix.height_spec(),
            values == matrix.values@,
            matrix.wf(),
            matrix.width == chunks * dimension,
            matrix.width > 0,
            is_power_of_two(rows as nat),
            log2_spec(rows as nat) + log_chunks <= E::Base::two_adicity(),
            rows * pow2(log_chunks as nat) <= usize::MAX,
            all_wf(values),
            shift.wf(),
            columns@.len() == d,
            forall|e: int|
                0 <= e < d ==> (#[trigger] columns@[e])@ == recompose_spec(
                    coefficient_parts::<E>(values, log_chunks as nat, e),
                    shift,
                    log_chunks as nat,
                ) && columns@[e]@.len() == rows * chunks && all_wf(columns@[e]@),
        decreases dimension - d,
    {
        let mut parts: Vec<Vec<E::Base>> = Vec::new();
        let mut c: usize = 0;
        while c < chunks
            invariant
                c <= chunks,
                d < dimension,
                dimension == E::dimension(),
                chunks == pow2(log_chunks as nat),
                rows == matrix.height_spec(),
                values == matrix.values@,
                matrix.wf(),
                matrix.width == chunks * dimension,
                matrix.width > 0,
                all_wf(values),
                parts@.len() == c,
                forall|b: int|
                    0 <= b < c ==> (#[trigger] parts@[b])@ == matrix_column(
                        values,
                        matrix.width as int,
                        b * dimension + d,
                    ) && parts@[b]@.len() == rows && all_wf(parts@[b]@),
            decreases chunks - c,
        {
            let mut column: Vec<E::Base> = Vec::new();
            let mut row: usize = 0;
            proof {
                lemma_entry_in_bounds(dimension as int, chunks as int, c as int, d as int);
            }
            let col = c * dimension + d;
            while row < rows
                invariant
                    row <= rows,
                    col < matrix.width,
                    rows == matrix.height_spec(),
                    values == matrix.values@,
                    matrix.wf(),
                    all_wf(values),
                    column@.len() == row,
                    all_wf(column@),
                    forall|i: int|
                        0 <= i < row ==> #[trigger] column@[i] == values[i * matrix.width + col],
                decreases rows - row,
            {
                proof {
                    matrix.lemma_len();
                    lemma_entry_in_bounds(
                        matrix.width as int,
                        rows as int,
                        row as int,
                        col as int,
                    );
                }
                column.push(matrix.get(row, col));
                row += 1;
            }
            proof {
                assert(column@ =~= matrix_column(values, matrix.width as int, col as int));
            }
            parts.push(column);
            c += 1;
        }
        proof {
            assert(views(parts@) =~= coefficient_parts::<E>(values, log_chunks as nat, d as int));
        }
        columns.push(recompose(&parts, shift, log_chunks));
        d += 1;
    }
    let total = rows * chunks;
    let mut r: Vec<E> = Vec::new();
    let mut i: usize = 0;
    while i < total
        invariant
            i <= total,
            total == rows * chunks,
            dimension == E::dimension(),
            chunks == pow2(log_chunks as nat),
            rows == values.len() as int / (flattened_width::<E>(log_chunks as nat) as int),
            target == unflatten_and_recompose_spec::<E>(values, shift, log_chunks as nat),
            columns@.len() == dimension,
            forall|e: int|
                0 <= e < dimension ==> (#[trigger] columns@[e])@ == recompose_spec(
                    coefficient_parts::<E>(values, log_chunks as nat, e),
                    shift,
                    log_chunks as nat,
                ) && columns@[e]@.len() == total && all_wf(columns@[e]@),
            r@.len() == i,
            all_ext_wf(r@),
            forall|j: int| 0 <= j < i ==> #[trigger] r@[j] == target[j],
        decreases total - i,
    {
        let mut coeffs: Vec<E::Base> = Vec::new();
        let mut e: usize = 0;
        while e < dimension
            invariant
                e <= dimension,
                i < total,
                columns@.len() == dimension,
                forall|b: int|
                    0 <= b < dimension ==> (#[trigger] columns@[b])@.len() == total && all_wf(
                        columns@[b]@,
                    ),
                coeffs@.len() == e,
                all_wf(coeffs@),
                forall|b: int| 0 <= b < e ==> #[trigger] coeffs@[b] == columns@[b]@[i as int],
            decreases dimension - e,
        {
            coeffs.push(columns[e][i]);
            e += 1;
        }
        proof {
            assert(coeffs@ =~= Seq::new(
                E::dimension(),
                |b: int|
                    recompose_spec(
                        coefficient_parts::<E>(values, log_chunks as nat, b),
                        shift,
                        log_chunks as nat,
                    )[i as int],
            ));
            E::lemma_from_coeffs(coeffs@);
        }
        r.push(E::from_base_slice(&coeffs));
        i += 1;
    }
    proof {
        assert(r@ =~= target);
    }
    r
}

} // verus!
