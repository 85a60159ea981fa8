//! The parts of a decomposition as the coefficients of a polynomial in `x`.
//!
//! A polynomial `p` in `2^log_chunks` parts is
//! `p(x) = sum of x^j p_(rev j)(x^k)` over `j < k = 2^log_chunks`, with `rev`
//! the reversal of `log_chunks` binary digits: recomposing evaluates this
//! sum at every point of the coset. The verifier evaluates the same sum at
//! its out-of-domain point.
use crate::decompose::{merge_parts, recompose_spec};
use crate::field::{
    all_wf, coset_point, lemma_add_interchange, lemma_coset_point_opposite,
    lemma_coset_point_squared, lemma_mul_interchange, lemma_neg_one_squared, lemma_one_mul,
    lemma_pow_pow, lemma_pow_unfold_square, lemma_pow_wf, lemma_sub_as_add, lemma_zero_add,
    lemma_zero_mul, neg_one_spec, pow, Field,
};
use crate::util::{lemma_log2_pow2, lemma_reverse_bits_bound, reverse_bits_spec};
use vstd::arithmetic::div_mod::{lemma_mod_multiples_vanish, lemma_small_mod};
use vstd::arithmetic::power2::{lemma2_to64, lemma_pow2_adds, lemma_pow2_pos, lemma_pow2_unfold, pow2};
use vstd::prelude::*;

verus! {

/// The sum of `x^j * chunks[rev j][row]` over `j < count`.
pub open spec fn part_sum<F: Field>(
    chunks: Seq<Seq<F>>,
    x: F,
    log_chunks: nat,
    row: int,
    count: nat,
) -> F
    decreases count,
{
    if count == 0 {
        F::zero_spec()
    } else {
        part_sum(chunks, x, log_chunks, row, (count - 1) as nat).add_spec(
            pow(x, (count - 1) as nat).mul_spec(
                chunks[reverse_bits_spec((count - 1) as nat, log_chunks) as int][row],
            ),
        )
    }
}

pub proof fn lemma_part_sum_wf<F: Field>(
    chunks: Seq<Seq<F>>,
    x: F,
    log_chunks: nat,
    row: int,
    count: nat,
)
    ensures
        part_sum(chunks, x, log_chunks, row, count).wf(),
{
    F::lemma_constants();
    if count > 0 {
        F::lemma_closed(
            part_sum(chunks, x, log_chunks, row, (count - 1) as nat),
            pow(x, (count - 1) as nat).mul_spec(
                chunks[reverse_bits_spec((count - 1) as nat, log_chunks) as int][row],
            ),
        );
    }
}

/// The sum over the parts splits into the sums over the parts with even and
/// with odd exponents, which the first and the second half of the parts
/// hold: `S(x) = S_first(x^2) + x S_second(x^2)`.
pub proof fn lemma_part_sum_split<F: Field>(
    first: Seq<Seq<F>>,
    second: Seq<Seq<F>>,
    x: F,
    log_chunks: nat,
    row: int,
    j: nat,
)
    requires
        log_chunks >= 1,
        first.len() == pow2((log_chunks - 1) as nat),
        second.len() == pow2((log_chunks - 1) as nat),
        j <= pow2((log_chunks - 1) as nat),
        x.wf(),
    ensures
        part_sum(first + second, x, log_chunks, row, 2 * j) == part_sum(
            first,
            x.mul_spec(x),
            (log_chunks - 1) as nat,
            row,
            j,
        ).add_spec(
            x.mul_spec(part_sum(second, x.mul_spec(x), (log_chunks - 1) as nat, row, j)),
        ),
    decreases j,
{
    let lower = (log_chunks - 1) as nat;
    let whole = first + second;
    let y = x.mul_spec(x);
    F::lemma_constants();
    if j == 0 {
        lemma_zero_mul(x);
        F::lemma_mul_comm(F::zero_spec(), x);
        F::lemma_add_zero(F::zero_spec());
    } else {
        let m = (j - 1) as nat;
        lemma_part_sum_split(first, second, x, log_chunks, row, m);
        let r = reverse_bits_spec(m, lower);
        lemma_reverse_bits_bound(m, lower);
        // The two new exponents 2m and 2m + 1 reverse to r and to c + r.
        assert(reverse_bits_spec(2 * m, log_chunks) == r) by {
            assert((2 * m) % 2 == 0 && (2 * m) / 2 == m);
            assert(0 * pow2(lower) == 0);
        }
        assert(reverse_bits_spec(2 * m + 1, log_chunks) == pow2(lower) + r) by {
            assert((2 * m + 1) % 2 == 1 && (2 * m + 1) / 2 == m);
            assert(1 * pow2(lower) == pow2(lower));
        }
        assert(whole[r as int] == first[r as int]);
        assert(whole[(pow2(lower) + r) as int] == second[r as int]);
        let u = first[r as int][row];
        let v = second[r as int][row];
        let w = pow(y, m);
        let p = part_sum(first, y, lower, row, m);
        let q = part_sum(second, y, lower, row, m);
        // x^(2m) = (x^2)^m and x^(2m + 1) = x * (x^2)^m
        lemma_pow_unfold_square(x);
        lemma_pow_pow(x, 2, m);
        assert(pow(x, 2 * m) == w);
        assert(pow(x, 2 * m + 1) == x.mul_spec(w));
        assert(part_sum(whole, x, log_chunks, row, 2 * j) == p.add_spec(x.mul_spec(q)).add_spec(
            w.mul_spec(u),
        ).add_spec(x.mul_spec(w).mul_spec(v))) by {
            assert(2 * j - 1 == 2 * m + 1);
            assert(2 * j - 2 == 2 * m);
            assert(part_sum(whole, x, log_chunks, row, (2 * m + 1) as nat) == part_sum(
                whole,
                x,
                log_chunks,
                row,
                2 * m,
            ).add_spec(pow(x, 2 * m).mul_spec(whole[r as int][row])));
        }
        F::lemma_mul_assoc(x, w, v);
        F::lemma_distributive(x, q, w.mul_spec(v));
        F::lemma_add_assoc(p.add_spec(x.mul_spec(q)), w.mul_spec(u), x.mul_spec(w.mul_spec(v)));
        lemma_add_interchange(p, x.mul_spec(q), w.mul_spec(u), x.mul_spec(w.mul_spec(v)));
    }
}

/// The chunks are `2^log_chunks` vectors of `2^log_rows` well-formed values.
pub open spec fn chunks_wf<F: Field>(chunks: Seq<Seq<F>>, log_rows: nat, log_chunks: nat) -> bool {
    &&& chunks.len() == pow2(log_chunks)
    &&& forall|c: int|
        0 <= c < chunks.len() ==> (#[trigger] chunks[c]).len() == pow2(log_rows) && all_wf(
            chunks[c],
        )
}

/// Recomposing evaluates the polynomial whose coefficients are the parts in
/// bit-reversed order: at the `i`-th point `x` of the coset `shift <g>`, the
/// recomposed value is the sum of `x^j * parts[rev j]` over `j < 2^log_chunks`,
/// each part taken at the point `x^(2^log_chunks)` of its own coset, which
/// has the index `i mod 2^log_rows`.
pub proof fn lemma_recompose_evaluates<F: Field>(
    chunks: Seq<Seq<F>>,
    log_rows: nat,
    shift: F,
    log_chunks: nat,
    i: nat,
)
    requires
        chunks_wf(chunks, log_rows, log_chunks),
        log_rows + log_chunks <= F::two_adicity(),
        shift.wf(),
        i < pow2(log_rows + log_chunks),
    ensures
        recompose_spec(chunks, shift, log_chunks).len() == pow2(log_rows + log_chunks),
        recompose_spec(chunks, shift, log_chunks)[i as int] == part_sum(
            chunks,
            coset_point(shift, F::generator_spec(log_rows + log_chunks), i),
            log_chunks,
            (i % pow2(log_rows)) as int,
            pow2(log_chunks),
        ),
    decreases log_chunks,
{
    let log_size = log_rows + log_chunks;
    let g = F::generator_spec(log_size);
    let x = coset_point(shift, g, i);
    let rows = pow2(log_rows);
    lemma2_to64();
    lemma_pow2_pos(log_rows);
    F::lemma_constants();
    if log_chunks == 0 {
        let value = chunks[0][i as int];
        lemma_small_mod(i, rows);
        assert(reverse_bits_spec(0, 0) == 0);
        assert(part_sum(chunks, x, 0, i as int, 0) == F::zero_spec());
        assert(part_sum(chunks, x, 0, i as int, 1) == F::zero_spec().add_spec(
            pow(x, 0).mul_spec(value),
        ));
        lemma_one_mul(value);
        lemma_zero_add(value);
    } else {
        let lower = (log_chunks - 1) as nat;
        let count = pow2(lower);
        let half = pow2((log_size - 1) as nat);
        let squared = shift.mul_spec(shift);
        let first = chunks.subrange(0, count as int);
        let second = chunks.subrange(count as int, chunks.len() as int);
        let even = recompose_spec(first, squared, lower);
        let odd = recompose_spec(second, squared, lower);
        lemma_pow2_unfold(log_chunks);
        lemma_pow2_unfold(log_size);
        lemma_pow2_adds(log_rows, lower);
        lemma_log2_pow2(log_size);
        assert(chunks.len() / 2 == count);
        assert(chunks_wf(first, log_rows, lower));
        assert(chunks_wf(second, log_rows, lower));
        let below: nat = if i < half {
            i
        } else {
            (i - half) as nat
        };
        F::lemma_closed(shift, shift);
        lemma_recompose_evaluates(first, log_rows, squared, lower, below);
        lemma_recompose_evaluates(second, log_rows, squared, lower, below);
        assert(even.len() == half && odd.len() == half);
        assert(recompose_spec(chunks, shift, log_chunks) == merge_parts(even, odd, shift));
        assert(merge_parts(even, odd, shift).len() == pow2(log_size));
        let t = coset_point(shift, g, below);
        let y = coset_point(squared, F::generator_spec((log_size - 1) as nat), below);
        let row = (below % rows) as int;
        let p = part_sum(first, y, lower, row, count);
        let q = part_sum(second, y, lower, row, count);
        assert(even[below as int] == p);
        assert(odd[below as int] == q);
        lemma_coset_point_squared(shift, log_size, below);
        lemma_pow_wf(g, below);
        F::lemma_closed(shift, pow(g, below));
        F::lemma_closed(t, t);
        lemma_part_sum_wf(first, y, lower, row, count);
        lemma_part_sum_wf(second, y, lower, row, count);
        // The row of the parts is that of the point itself.
        assert(row == i % rows) by {
            if i >= half {
                assert(half == rows * count) by {
                    vstd::arithmetic::mul::lemma_mul_is_commutative(rows as int, count as int);
                }
                lemma_mod_multiples_vanish(count as int, below as int, rows as int);
            }
        }
        assert(first + second =~= chunks);
        if i < half {
            assert(x.mul_spec(x) == y);
            lemma_part_sum_split(first, second, x, log_chunks, row, count);
        } else {
            let m = neg_one_spec::<F>();
            lemma_coset_point_opposite(shift, log_size, below);
            assert(x == t.mul_spec(m));
            lemma_neg_one_squared::<F>();
            lemma_mul_interchange(t, m, t, m);
            F::lemma_mul_one(t.mul_spec(t));
            assert(x.mul_spec(x) == y);
            F::lemma_closed(t, m);
            lemma_part_sum_split(first, second, x, log_chunks, row, count);
            // p - t q = p + (t q) (-1) = p + (t (-1)) q
            F::lemma_closed(t, q);
            lemma_sub_as_add(p, t.mul_spec(q));
            F::lemma_mul_assoc(t, q, m);
            F::lemma_mul_comm(q, m);
            F::lemma_mul_assoc(t, m, q);
        }
    }
}

} // verus!
