//! The values of the quotient `constraints(x) / Z_H(x)` of an arithmetization
//! on the extended coset.
use crate::config::{MatrixData, StarkConfig, Val};
use crate::extension::{all_ext_wf, scale, scale_spec, zero, zero_spec, ExtensionField};
use crate::field::{
    all_wf, cyclic_subgroup_coset, exp_power_of_2, inverse, lemma_generator_nonzero, pow, Field,
};
use crate::folder::{fold_base_spec, ProverConstraintFolder, Selectors};
use crate::matrix::RowMajorMatrix;
use crate::symbolic::{Air, SymbolicExpression};
use crate::util::{checked_pow2, lemma_pow2_fits, pow2_usize};
use crate::zerofier_coset::{
    extended_point, lagrange_on_coset_spec, zerofier_on_coset_spec, ZerofierOnCoset,
};
use vstd::arithmetic::div_mod::{lemma_fundamental_div_mod_converse, lemma_small_mod};
use vstd::arithmetic::power2::{lemma_pow2_adds, lemma_pow2_pos, pow2};
use vstd::prelude::*;

verus! {

/// Row `row` of the matrix.
pub open spec fn matrix_row<T>(matrix: MatrixData<T>, row: int) -> Seq<T> {
    matrix.values.subrange(row * matrix.width, row * matrix.width + matrix.width)
}

/// The selectors at the `i`-th point `x` of the extended coset:
/// `Z_H(x) / (x - 1)` for the first row, `Z_H(x) / (x - g^(n - 1))` for the
/// last row, and `x - g^(-1)` for the transitions.
pub open spec fn selectors_spec<F: Field>(
    degree_bits: nat,
    quotient_degree_bits: nat,
    shift: F,
    i: nat,
) -> Selectors<F> {
    Selectors {
        is_first_row: lagrange_on_coset_spec(degree_bits, quotient_degree_bits, shift, 0, i),
        is_last_row: lagrange_on_coset_spec(
            degree_bits,
            quotient_degree_bits,
            shift,
            (pow2(degree_bits) - 1) as nat,
            i,
        ),
        is_transition: extended_point(degree_bits + quotient_degree_bits, shift, i).sub_spec(
            F::generator_spec(degree_bits).inv_spec(),
        ),
    }
}

/// The value of the quotient at the `i`-th point of the extended coset: the
/// constraints, evaluated on the rows `i` and `i + k` of the extended trace
/// and folded with `alpha`, divided by `Z_H`.
pub open spec fn quotient_value_spec<E: ExtensionField>(
    constraints: Seq<SymbolicExpression<E::Base>>,
    degree_bits: nat,
    quotient_degree_bits: nat,
    shift: E::Base,
    trace_lde: MatrixData<E::Base>,
    alpha: E,
    i: nat,
) -> E {
    let size = pow2(degree_bits + quotient_degree_bits) as int;
    let next_step = pow2(quotient_degree_bits) as int;
    scale_spec(
        fold_base_spec(
            constraints,
            constraints.len(),
            matrix_row(trace_lde, (i as int) % size),
            matrix_row(trace_lde, (i + next_step) % size),
            selectors_spec(degree_bits, quotient_degree_bits, shift, i),
            alpha,
            zero_spec::<E>(),
        ),
        zerofier_on_coset_spec(degree_bits, quotient_degree_bits, shift, i).inv_spec(),
    )
}

/// The values of the quotient on the extended coset, in coset order.
pub open spec fn quotient_values_spec<E: ExtensionField>(
    constraints: Seq<SymbolicExpression<E::Base>>,
    degree_bits: nat,
    quotient_degree_bits: nat,
    shift: E::Base,
    trace_lde: MatrixData<E::Base>,
    alpha: E,
) -> Seq<E> {
    Seq::new(
        pow2(degree_bits + quotient_degree_bits),
        |i: int|
            quotient_value_spec(
                constraints,
                degree_bits,
                quotient_degree_bits,
                shift,
                trace_lde,
                alpha,
                i as nat,
            ),
    )
}

/// The extended domain of a trace of `2^degree_bits` rows and its quotient
/// of `2^quotient_degree_bits` parts exists in the field, fits the machine,
/// and its coset is disjoint from the subgroup.
pub open spec fn domain_valid<F: Field>(
    degree_bits: nat,
    quotient_degree_bits: nat,
    shift: F,
) -> bool {
    &&& degree_bits + quotient_degree_bits <= F::two_adicity()
    &&& pow2(degree_bits + quotient_degree_bits) <= usize::MAX
    &&& shift.wf()
    &&& pow(shift, pow2(degree_bits + quotient_degree_bits)) != F::one_spec()
}

/// Whether the extended domain is valid.
pub fn is_domain_valid<F: Field>(degree_bits: usize, quotient_degree_bits: usize, shift: F) -> (b:
    bool)
    ensures
        b == domain_valid(degree_bits as nat, quotient_degree_bits as nat, shift),
{
    if degree_bits > usize::MAX - quotient_degree_bits {
        proof {
            if pow2((degree_bits + quotient_degree_bits) as nat) <= usize::MAX {
                lemma_pow2_fits((degree_bits + quotient_degree_bits) as nat);
            }
        }
        return false;
    }
    let size_bits = degree_bits + quotient_degree_bits;
    if size_bits > F::max_two_adic_bits() || checked_pow2(size_bits).is_none()
        || !shift.is_canonical() {
        return false;
    }
    proof {
        F::lemma_constants();
    }
    !exp_power_of_2(shift, size_bits).is_equal(F::one())
}

/// Computes the values of the quotient of `air` on the extended coset from
/// the low-degree extension `trace_lde` of the trace on that coset, which
/// has `2^(degree_bits + quotient_degree_bits)` rows.
///
/// The points are worked on in batches of the configuration's pack width;
/// the result does not depend on it.
pub fn quotient_values<SC: StarkConfig>(
    config: &SC,
    air: &Air<Val<SC>>,
    degree_bits: usize,
    quotient_degree_bits: usize,
    trace_lde: &RowMajorMatrix<Val<SC>>,
    alpha: SC::Challenge,
) -> (r: Vec<SC::Challenge>)
    requires
        air.wf(),
        trace_lde.wf(),
        all_wf(trace_lde.values@),
        trace_lde.width == air.width,
        trace_lde.height_spec() == pow2((degree_bits + quotient_degree_bits) as nat),
        domain_valid(degree_bits as nat, quotient_degree_bits as nat, config.coset_shift_spec()),
        alpha.wf(),
    ensures
        r@ == quotient_values_spec(
            air.constraints@,
            degree_bits as nat,
            quotient_degree_bits as nat,
            config.coset_shift_spec(),
            trace_lde.data(),
            alpha,
        ),
        r@.len() == pow2((degree_bits + quotient_degree_bits) as nat),
        all_ext_wf(r@),
{
    let ghost log_n = degree_bits as nat;
    let ghost log_k = quotient_degree_bits as nat;
    let ghost target = quotient_values_spec(
        air.constraints@,
        log_n,
        log_k,
        config.coset_shift_spec(),
        trace_lde.data(),
        alpha,
    );
    proof {
        lemma_pow2_fits(log_n + log_k);
        lemma_pow2_adds(log_n, log_k);
        lemma_pow2_pos(log_n);
        lemma_pow2_pos(log_k);
        assert(pow2(log_n) <= pow2(log_n) * pow2(log_k) && pow2(log_k) <= pow2(log_n) * pow2(
            log_k,
        )) by (nonlinear_arith)
            requires
                pow2(log_n) >= 1,
                pow2(log_k) >= 1,
        ;
        Val::<SC>::lemma_generator(log_n);
        Val::<SC>::lemma_generator(log_n + log_k);
        lemma_generator_nonzero::<Val<SC>>(log_n);
    }
    let degree = pow2_usize(degree_bits);
    let quotient_size_bits = degree_bits + quotient_degree_bits;
    let quotient_size = pow2_usize(quotient_size_bits);
    let next_step = pow2_usize(quotient_degree_bits);
    let g_subgroup = Val::<SC>::two_adic_generator(degree_bits);
    let g_extended = Val::<SC>::two_adic_generator(quotient_size_bits);
    let subgroup_last = inverse(g_subgroup);
    let coset_shift = config.coset_shift();
    let coset = cyclic_subgroup_coset(g_extended, coset_shift, quotient_size);
    let zerofier_on_coset = ZerofierOnCoset::new(degree_bits, quotient_degree_bits, coset_shift);
    let lagrange_first_evals = zerofier_on_coset.lagrange_basis_unnormalized(0);
    let lagrange_last_evals = zerofier_on_coset.lagrange_basis_unnormalized(degree - 1);
    let width = config.pack_width();
    let mut values: Vec<SC::Challenge> = Vec::new();
    let mut i_local_start: usize = 0;
    while i_local_start < quotient_size
        invariant
            i_local_start <= quotient_size,
            width >= 1,
            air.wf(),
            trace_lde.wf(),
            all_wf(trace_lde.values@),
            trace_lde.width == air.width,
            trace_lde.height_spec() == quotient_size,
            alpha.wf(),
            log_n == degree_bits,
            log_k == quotient_degree_bits,
            quotient_size == pow2(log_n + log_k),
            next_step == pow2(log_k),
            next_step <= quotient_size,
            coset_shift == config.coset_shift_spec(),
            subgroup_last == Val::<SC>::generator_spec(log_n).inv_spec(),
            subgroup_last.wf(),
            zerofier_on_coset.wf(),
            zerofier_on_coset.log_n == degree_bits,
            zerofier_on_coset.rate_bits == quotient_degree_bits,
            zerofier_on_coset.coset_shift == coset_shift,
            coset@.len() == quotient_size,
            all_wf(coset@),
            forall|i: int|
                0 <= i < quotient_size ==> #[trigger] coset@[i] == extended_point(
                    log_n + log_k,
                    coset_shift,
                    i as nat,
                ),
            lagrange_first_evals@.len() == quotient_size,
            lagrange_last_evals@.len() == quotient_size,
            all_wf(lagrange_first_evals@),
            all_wf(lagrange_last_evals@),
            forall|i: int|
                0 <= i < quotient_size ==> #[trigger] lagrange_first_evals@[i]
                    == lagrange_on_coset_spec(log_n, log_k, coset_shift, 0, i as nat),
            forall|i: int|
                0 <= i < quotient_size ==> #[trigger] lagrange_last_evals@[i]
                    == lagrange_on_coset_spec(
                    log_n,
                    log_k,
                    coset_shift,
                    (pow2(log_n) - 1) as nat,
                    i as nat,
                ),
            target == quotient_values_spec(
                air.constraints@,
                log_n,
                log_k,
                coset_shift,
                trace_lde.data(),
                alpha,
            ),
            values@.len() == i_local_start,
            all_ext_wf(values@),
            forall|i: int| 0 <= i < i_local_start ==> #[trigger] values@[i] == target[i],
        decreases quotient_size - i_local_start,
    {
        let remaining = quotient_size - i_local_start;
        let limit = if width < remaining {
            width
        } else {
            remaining
        };
        let zerofier_inv = zerofier_on_coset.eval_inverse_packed(i_local_start, limit);
        let mut offset: usize = 0;
        while offset < limit
            invariant
                offset <= limit,
                i_local_start + limit <= quotient_size,
                air.wf(),
                trace_lde.wf(),
                all_wf(trace_lde.values@),
                trace_lde.width == air.width,
                trace_lde.height_spec() == quotient_size,
                alpha.wf(),
                log_n == degree_bits,
                log_k == quotient_degree_bits,
                quotient_size == pow2(log_n + log_k),
                next_step == pow2(log_k),
                next_step <= quotient_size,
                subgroup_last == Val::<SC>::generator_spec(log_n).inv_spec(),
                subgroup_last.wf(),
                zerofier_on_coset.log_n == degree_bits,
                zerofier_on_coset.rate_bits == quotient_degree_bits,
                zerofier_on_coset.coset_shift == coset_shift,
                coset@.len() == quotient_size,
                all_wf(coset@),
                forall|i: int|
                    0 <= i < quotient_size ==> #[trigger] coset@[i] == extended_point(
                        log_n + log_k,
                        coset_shift,
                        i as nat,
                    ),
                lagrange_first_evals@.len() == quotient_size,
                lagrange_last_evals@.len() == quotient_size,
                all_wf(lagrange_first_evals@),
                all_wf(lagrange_last_evals@),
                forall|i: int|
                    0 <= i < quotient_size ==> #[trigger] lagrange_first_evals@[i]
                        == lagrange_on_coset_spec(log_n, log_k, coset_shift, 0, i as nat),
                forall|i: int|
                    0 <= i < quotient_size ==> #[trigger] lagrange_last_evals@[i]
                        == lagrange_on_coset_spec(
                        log_n,
                        log_k,
                        coset_shift,
                        (pow2(log_n) - 1) as nat,
                        i as nat,
                    ),
                zerofier_inv@.len() == limit,
                all_wf(zerofier_inv@),
                forall|j: int|
                    0 <= j < limit ==> #[trigger] zerofier_inv@[j] == zerofier_on_coset_spec(
                        log_n,
                        log_k,
                        coset_shift,
                        (i_local_start + j) as nat,
                    ).inv_spec(),
                target == quotient_values_spec(
                    air.constraints@,
                    log_n,
                    log_k,
                    coset_shift,
                    trace_lde.data(),
                    alpha,
                ),
                values@.len() == i_local_start + offset,
                all_ext_wf(values@),
                forall|i: int|
                    0 <= i < i_local_start + offset ==> #[trigger] values@[i] == target[i],
            decreases limit - offset,
        {
            let i = i_local_start + offset;
            let i_next = if i >= quotient_size - next_step {
                i - (quotient_size - next_step)
            } else {
                i + next_step
            };
            proof {
                lemma_small_mod(i as nat, quotient_size as nat);
                if i >= quotient_size - next_step {
                    lemma_fundamental_div_mod_converse(
                        i + next_step,
                        quotient_size as int,
                        1,
                        i_next as int,
                    );
                } else {
                    lemma_small_mod((i + next_step) as nat, quotient_size as nat);
                }
                Val::<SC>::lemma_closed(coset@[i as int], subgroup_last);
            }
            let x = coset[i];
            let selectors = Selectors {
                is_first_row: lagrange_first_evals[i],
                is_last_row: lagrange_last_evals[i],
                is_transition: x.sub(subgroup_last),
            };
            let local = trace_lde.row_vec(i);
            let next = trace_lde.row_vec(i_next);
            proof {
                assert(local@ == matrix_row(trace_lde.data(), i as int));
                assert(next@ == matrix_row(trace_lde.data(), i_next as int));
                assert(selectors == selectors_spec(log_n, log_k, coset_shift, i as nat));
                assert(all_wf(local@)) by {
                    assert forall|c: int| 0 <= c < local@.len() implies (#[trigger] local@[c]).wf() by {
                        assert(local@[c] == trace_lde.values@[i * trace_lde.width + c]);
                    }
                }
                assert(all_wf(next@)) by {
                    assert forall|c: int| 0 <= c < next@.len() implies (#[trigger] next@[c]).wf() by {
                        assert(next@[c] == trace_lde.values@[i_next * trace_lde.width + c]);
                    }
                }
            }
            let mut folder = ProverConstraintFolder::<SC::Challenge> {
                local,
                next,
                selectors,
                alpha,
                accumulator: zero::<SC::Challenge>(),
            };
            folder.eval(air);
            let quotient = scale(folder.accumulator, zerofier_inv[offset]);
            proof {
                assert(quotient == target[i as int]);
            }
            values.push(quotient);
            offset += 1;
        }
        i_local_start += limit;
    }
    proof {
        assert(values@ =~= target);
    }
    values
}

} // verus!
