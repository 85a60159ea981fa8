//! The vanishing polynomial `Z_H(X) = X^n - 1` of the trace domain `H`,
//! evaluated on a coset `s K` of a larger subgroup `K` that contains `H`.
use crate::field::{
    all_wf, coset_point, cyclic_subgroup_coset, exp_power_of_2, exp_u64, lemma_generator_order,
    lemma_generator_tower, lemma_pow_mul_base, lemma_pow_of_one,
    lemma_pow_periodic, lemma_pow_pow, lemma_pow_wf, lemma_sub_self, lemma_sub_zero, pow, Field,
};
use crate::util::{lemma_pow2_fits, pow2_usize};
use vstd::arithmetic::mul::lemma_mul_is_commutative;
use vstd::arithmetic::power2::{lemma_pow2_adds, lemma_pow2_pos, pow2};
use vstd::prelude::*;

verus! {

/// `Z_H(x) = x^(2^log_n) - 1`.
pub open spec fn zerofier_spec<F: Field>(log_n: nat, x: F) -> F {
    pow(x, pow2(log_n)).sub_spec(F::one_spec())
}

/// The `i`-th point of the coset `shift * K`, with `K` the subgroup of order
/// `2^log_size`.
pub open spec fn extended_point<F: Field>(log_size: nat, shift: F, i: nat) -> F {
    coset_point(shift, F::generator_spec(log_size), i)
}

/// `Z_H` at the `i`-th point of the coset, for `H` of order `2^log_n` and `K`
/// of order `2^(log_n + rate_bits)`.
pub open spec fn zerofier_on_coset_spec<F: Field>(
    log_n: nat,
    rate_bits: nat,
    shift: F,
    i: nat,
) -> F {
    zerofier_spec(log_n, extended_point(log_n + rate_bits, shift, i))
}

/// The denominator of the unnormalized Lagrange basis polynomial of the
/// `point_index`-th point of `H` at the `j`-th coset point:
/// `x_j - g^point_index`, with `g` the generator of `H`.
pub open spec fn lagrange_denominator_spec<F: Field>(
    log_n: nat,
    rate_bits: nat,
    shift: F,
    point_index: nat,
    j: nat,
) -> F {
    extended_point(log_n + rate_bits, shift, j).sub_spec(
        pow(F::generator_spec(log_n), point_index),
    )
}

/// The unnormalized Lagrange basis polynomial of the `point_index`-th point
/// of `H` at the `j`-th coset point: `Z_H(x_j) / (x_j - g^point_index)`.
pub open spec fn lagrange_on_coset_spec<F: Field>(
    log_n: nat,
    rate_bits: nat,
    shift: F,
    point_index: nat,
    j: nat,
) -> F {
    zerofier_on_coset_spec(log_n, rate_bits, shift, j).mul_spec(
        lagrange_denominator_spec(log_n, rate_bits, shift, point_index, j).inv_spec(),
    )
}

/// The precomputed values of `Z_H` on the coset `s K`, and their inverses.
///
/// `Z_H` takes only `|K| / |H|` values on the coset, which repeat with that
/// period; `evals` and `inverses` hold one period.
pub struct ZerofierOnCoset<F: Field> {
    /// `log2 |H|`.
    pub log_n: usize,
    /// `log2 (|K| / |H|)`.
    pub rate_bits: usize,
    pub coset_shift: F,
    pub evals: Vec<F>,
    pub inverses: Vec<F>,
}

/// `x^n = s^n * v^i` at the `i`-th coset point `x`, with `v` the generator of
/// order `|K| / |H|`.
pub proof fn lemma_point_power<F: Field>(log_n: nat, rate_bits: nat, shift: F, i: nat)
    requires
        log_n + rate_bits <= F::two_adicity(),
    ensures
        pow(extended_point(log_n + rate_bits, shift, i), pow2(log_n)) == pow(
            shift,
            pow2(log_n),
        ).mul_spec(pow(F::generator_spec(rate_bits), i)),
{
    let n = pow2(log_n);
    let w = F::generator_spec(log_n + rate_bits);
    lemma_pow_mul_base(shift, pow(w, i), n);
    lemma_pow_pow(w, i, n);
    lemma_pow_pow(w, n, i);
    lemma_mul_is_commutative(i as int, n as int);
    lemma_generator_tower::<F>(rate_bits, log_n);
}

/// `Z_H` repeats on the coset with period `|K| / |H|`.
pub proof fn lemma_zerofier_periodic<F: Field>(log_n: nat, rate_bits: nat, shift: F, i: nat)
    requires
        log_n + rate_bits <= F::two_adicity(),
    ensures
        zerofier_on_coset_spec(log_n, rate_bits, shift, i) == zerofier_on_coset_spec(
            log_n,
            rate_bits,
            shift,
            i % pow2(rate_bits),
        ),
{
    let k = pow2(rate_bits);
    lemma_pow2_pos(rate_bits);
    lemma_point_power(log_n, rate_bits, shift, i);
    lemma_point_power(log_n, rate_bits, shift, i % k);
    lemma_generator_order::<F>(rate_bits);
    lemma_pow_periodic(F::generator_spec(rate_bits), k, i);
}

/// Where the coset is disjoint from `K`, `Z_H` has no zero on it.
pub proof fn lemma_zerofier_nonzero<F: Field>(log_n: nat, rate_bits: nat, shift: F, i: nat)
    requires
        log_n + rate_bits <= F::two_adicity(),
        shift.wf(),
        pow(shift, pow2(log_n + rate_bits)) != F::one_spec(),
    ensures
        zerofier_on_coset_spec(log_n, rate_bits, shift, i) != F::zero_spec(),
{
    let n = pow2(log_n);
    let k = pow2(rate_bits);
    let size = pow2(log_n + rate_bits);
    let w = F::generator_spec(log_n + rate_bits);
    let x = extended_point(log_n + rate_bits, shift, i);
    if zerofier_on_coset_spec(log_n, rate_bits, shift, i) == F::zero_spec() {
        F::lemma_constants();
        lemma_pow_wf(x, n);
        lemma_sub_zero(pow(x, n), F::one_spec());
        // x^(n k) = 1 ...
        lemma_pow_of_one::<F>(k);
        lemma_pow_pow(x, n, k);
        lemma_pow2_adds(log_n, rate_bits);
        assert(pow(x, size) == F::one_spec());
        // ... but x^(n k) = s^(n k) (w^(n k))^i = s^(n k).
        lemma_pow_mul_base(shift, pow(w, i), size);
        lemma_pow_pow(w, i, size);
        lemma_pow_pow(w, size, i);
        lemma_mul_is_commutative(i as int, size as int);
        lemma_generator_order::<F>(log_n + rate_bits);
        lemma_pow_of_one::<F>(i);
        lemma_pow_wf(shift, size);
        F::lemma_mul_one(pow(shift, size));
        assert(false);
    }
}

/// The points of `H` are roots of `Z_H`.
pub proof fn lemma_subgroup_root<F: Field>(log_n: nat, i: nat)
    requires
        log_n <= F::two_adicity(),
    ensures
        pow(pow(F::generator_spec(log_n), i), pow2(log_n)) == F::one_spec(),
{
    let g = F::generator_spec(log_n);
    let n = pow2(log_n);
    lemma_pow_pow(g, i, n);
    lemma_pow_pow(g, n, i);
    lemma_mul_is_commutative(i as int, n as int);
    lemma_generator_order::<F>(log_n);
    lemma_pow_of_one::<F>(i);
}

impl<F: Field> ZerofierOnCoset<F> {
    /// `log2 |K|`.
    pub open spec fn log_size(&self) -> nat {
        (self.log_n + self.rate_bits) as nat
    }

    /// The `i`-th point of the coset.
    pub open spec fn point(&self, i: nat) -> F {
        extended_point(self.log_size(), self.coset_shift, i)
    }

    /// `Z_H` at the `i`-th point of the coset.
    pub open spec fn eval_spec(&self, i: nat) -> F {
        zerofier_on_coset_spec(self.log_n as nat, self.rate_bits as nat, self.coset_shift, i)
    }

    /// The tables hold one period of `Z_H` on the coset, none of it zero, and
    /// the inverses of those values.
    pub open spec fn wf(&self) -> bool {
        &&& self.log_n + self.rate_bits <= F::two_adicity()
        &&& pow2(self.log_size()) <= usize::MAX
        &&& self.coset_shift.wf()
        &&& self.evals@.len() == pow2(self.rate_bits as nat)
        &&& self.inverses@.len() == pow2(self.rate_bits as nat)
        &&& forall|j: int|
            0 <= j < self.evals@.len() ==> {
                &&& (#[trigger] self.evals@[j]) == self.eval_spec(j as nat)
                &&& self.evals@[j].wf()
                &&& self.evals@[j] != F::zero_spec()
            }
        &&& forall|j: int|
            0 <= j < self.inverses@.len() ==> {
                &&& (#[trigger] self.inverses@[j]) == self.evals@[j].inv_spec()
                &&& self.inverses@[j].wf()
                &&& self.evals@[j].mul_spec(self.inverses@[j]) == F::one_spec()
            }
    }

    /// Precomputes `Z_H` on the coset `coset_shift * K`, for `|H| = 2^log_n`
    /// and `|K| = 2^(log_n + rate_bits)`. The coset has to be disjoint from
    /// `K`, so that `Z_H` can be inverted on it.
    pub fn new(log_n: usize, rate_bits: usize, coset_shift: F) -> (r: Self)
        requires
            log_n + rate_bits <= F::two_adicity(),
            pow2((log_n + rate_bits) as nat) <= usize::MAX,
            coset_shift.wf(),
            pow(coset_shift, pow2((log_n + rate_bits) as nat)) != F::one_spec(),
        ensures
            r.wf(),
            r.log_n == log_n,
            r.rate_bits == rate_bits,
            r.coset_shift == coset_shift,
    {
        proof {
            lemma_pow2_adds(log_n as nat, rate_bits as nat);
            lemma_pow2_pos(log_n as nat);
            lemma_pow2_pos(rate_bits as nat);
            assert(pow2(rate_bits as nat) <= pow2(log_n as nat) * pow2(rate_bits as nat))
                by (nonlinear_arith)
                requires
                    pow2(log_n as nat) > 0,
                    pow2(rate_bits as nat) > 0,
            ;
            F::lemma_generator(rate_bits as nat);
            F::lemma_constants();
        }
        let s_pow_n = exp_power_of_2(coset_shift, log_n);
        let v = F::two_adic_generator(rate_bits);
        let rate = pow2_usize(rate_bits);
        let one = F::one();
        let mut evals: Vec<F> = Vec::new();
        let mut power = one;
        let mut j: usize = 0;
        while j < rate
            invariant
                j <= rate,
                rate == pow2(rate_bits as nat),
                log_n + rate_bits <= F::two_adicity(),
                coset_shift.wf(),
                pow(coset_shift, pow2((log_n + rate_bits) as nat)) != F::one_spec(),
                s_pow_n == pow(coset_shift, pow2(log_n as nat)),
                s_pow_n.wf(),
                v == F::generator_spec(rate_bits as nat),
                v.wf(),
                one == F::one_spec(),
                one.wf(),
                power == pow(v, j as nat),
                power.wf(),
                evals@.len() == j,
                forall|i: int|
                    0 <= i < j ==> {
                        &&& (#[trigger] evals@[i]) == zerofier_on_coset_spec(
                            log_n as nat,
                            rate_bits as nat,
                            coset_shift,
                            i as nat,
                        )
                        &&& evals@[i].wf()
                        &&& evals@[i] != F::zero_spec()
                    },
            decreases rate - j,
        {
            proof {
                lemma_point_power(log_n as nat, rate_bits as nat, coset_shift, j as nat);
                lemma_zerofier_nonzero(log_n as nat, rate_bits as nat, coset_shift, j as nat);
                F::lemma_closed(s_pow_n, power);
                F::lemma_closed(s_pow_n.mul_spec(power), one);
                F::lemma_closed(power, v);
                F::lemma_mul_comm(power, v);
            }
            evals.push(s_pow_n.mul(power).sub(one));
            power = power.mul(v);
            j += 1;
        }
        let inverses = F::batch_inverse(&evals);
        ZerofierOnCoset { log_n, rate_bits, coset_shift, evals, inverses }
    }

    /// `Z_H` at the `i`-th point of the coset.
    pub fn eval(&self, i: usize) -> (r: F)
        requires
            self.wf(),
        ensures
            r == self.eval_spec(i as nat),
            r == zerofier_spec(self.log_n as nat, self.point(i as nat)),
            r.wf(),
            r != F::zero_spec(),
    {
        proof {
            lemma_pow2_pos(self.rate_bits as nat);
            lemma_zerofier_periodic(
                self.log_n as nat,
                self.rate_bits as nat,
                self.coset_shift,
                i as nat,
            );
        }
        self.evals[i % self.evals.len()]
    }

    /// The inverse of `Z_H` at the `i`-th point of the coset.
    pub fn eval_inverse(&self, i: usize) -> (r: F)
        requires
            self.wf(),
        ensures
            r == self.eval_spec(i as nat).inv_spec(),
            self.eval_spec(i as nat).mul_spec(r) == F::one_spec(),
            r.wf(),
    {
        proof {
            lemma_pow2_pos(self.rate_bits as nat);
            lemma_zerofier_periodic(
                self.log_n as nat,
                self.rate_bits as nat,
                self.coset_shift,
                i as nat,
            );
        }
        self.inverses[i % self.inverses.len()]
    }

    /// The inverses of `Z_H` at the `width` consecutive coset points that
    /// start at index `i_start`.
    pub fn eval_inverse_packed(&self, i_start: usize, width: usize) -> (r: Vec<F>)
        requires
            self.wf(),
            i_start + width <= usize::MAX,
        ensures
            r@.len() == width,
            all_wf(r@),
            forall|j: int|
                0 <= j < width ==> {
                    &&& (#[trigger] r@[j]) == self.eval_spec((i_start + j) as nat).inv_spec()
                    &&& self.eval_spec((i_start + j) as nat).mul_spec(r@[j]) == F::one_spec()
                },
    {
        let mut packed: Vec<F> = Vec::new();
        let mut j: usize = 0;
        while j < width
            invariant
                j <= width,
                self.wf(),
                i_start + width <= usize::MAX,
                packed@.len() == j,
                all_wf(packed@),
                forall|l: int|
                    0 <= l < j ==> {
                        &&& (#[trigger] packed@[l]) == self.eval_spec(
                            (i_start + l) as nat,
                        ).inv_spec()
                        &&& self.eval_spec((i_start + l) as nat).mul_spec(packed@[l])
                            == F::one_spec()
                    },
            decreases width - j,
        {
            packed.push(self.eval_inverse(i_start + j));
            j += 1;
        }
        packed
    }

    /// The number of points of the coset.
    pub fn coset_size(&self) -> (r: usize)
        requires
            self.wf(),
        ensures
            r == pow2(self.log_size()),
    {
        proof {
            lemma_pow2_fits(self.log_size());
        }
        pow2_usize(self.log_n + self.rate_bits)
    }

    /// The denominator of the `point_index`-th Lagrange basis polynomial at
    /// the `j`-th coset point: `x_j - g^point_index`, with `g` the generator
    /// of `H`.
    pub open spec fn lagrange_denominator(&self, point_index: nat, j: nat) -> F {
        lagrange_denominator_spec(
            self.log_n as nat,
            self.rate_bits as nat,
            self.coset_shift,
            point_index,
            j,
        )
    }

    /// The unnormalized Lagrange basis polynomial of the `point_index`-th
    /// point of `H` at the `j`-th coset point: `Z_H(x_j) / (x_j - g^point_index)`.
    pub open spec fn lagrange_spec(&self, point_index: nat, j: nat) -> F {
        lagrange_on_coset_spec(
            self.log_n as nat,
            self.rate_bits as nat,
            self.coset_shift,
            point_index,
            j,
        )
    }

    /// No coset point is a point of `H`.
    pub proof fn lemma_denominator_nonzero(&self, point_index: nat, j: nat)
        requires
            self.wf(),
        ensures
            self.lagrange_denominator(point_index, j) != F::zero_spec(),
    {
        let g = F::generator_spec(self.log_n as nat);
        let t = pow(g, point_index);
        let x = self.point(j);
        let k = pow2(self.rate_bits as nat);
        if self.lagrange_denominator(point_index, j) == F::zero_spec() {
            lemma_pow_wf(g, point_index);
            F::lemma_closed(self.coset_shift, pow(F::generator_spec(self.log_size()), j));
            lemma_sub_zero(x, t);
            lemma_subgroup_root::<F>(self.log_n as nat, point_index);
            F::lemma_constants();
            lemma_sub_self(F::one_spec());
            assert(self.eval_spec(j) == F::zero_spec());
            lemma_pow2_pos(self.rate_bits as nat);
            lemma_zerofier_periodic(
                self.log_n as nat,
                self.rate_bits as nat,
                self.coset_shift,
                j,
            );
            assert(self.evals@[(j % k) as int] == self.eval_spec(j % k));
            assert(false);
        }
    }

    /// The unnormalized Lagrange basis polynomial
    /// `L_i(x) = Z_H(x) / (x - g^i)` of the `point_index`-th point of `H`, at
    /// every point of the coset in order.
    pub fn lagrange_basis_unnormalized(&self, point_index: usize) -> (r: Vec<F>)
        requires
            self.wf(),
        ensures
            r@.len() == pow2(self.log_size()),
            all_wf(r@),
            forall|j: int|
                0 <= j < r@.len() ==> {
                    &&& (#[trigger] r@[j]) == self.lagrange_spec(point_index as nat, j as nat)
                    &&& r@[j].mul_spec(self.lagrange_denominator(point_index as nat, j as nat))
                        == self.eval_spec(j as nat)
                },
    {
        let coset_size = self.coset_size();
        proof {
            F::lemma_generator(self.log_n as nat);
            F::lemma_generator(self.log_size());
            lemma_pow2_fits(self.log_size());
        }
        let g_h = F::two_adic_generator(self.log_n);
        let g_k = F::two_adic_generator(self.log_n + self.rate_bits);
        let target_point = exp_u64(g_h, point_index as u64);
        let coset = cyclic_subgroup_coset(g_k, self.coset_shift, coset_size);
        let mut denominators: Vec<F> = Vec::new();
        let mut j: usize = 0;
        while j < coset_size
            invariant
                j <= coset_size,
                self.wf(),
                coset@.len() == coset_size,
                all_wf(coset@),
                forall|i: int| 0 <= i < coset_size ==> #[trigger] coset@[i] == self.point(i as nat),
                target_point == pow(F::generator_spec(self.log_n as nat), point_index as nat),
                target_point.wf(),
                denominators@.len() == j,
                forall|i: int|
                    0 <= i < j ==> {
                        &&& (#[trigger] denominators@[i]) == self.lagrange_denominator(
                            point_index as nat,
                            i as nat,
                        )
                        &&& denominators@[i].wf()
                        &&& denominators@[i] != F::zero_spec()
                    },
            decreases coset_size - j,
        {
            proof {
                self.lemma_denominator_nonzero(point_index as nat, j as nat);
                F::lemma_closed(coset@[j as int], target_point);
            }
            denominators.push(coset[j].sub(target_point));
            j += 1;
        }
        let inverses = F::batch_inverse(&denominators);
        let mut r: Vec<F> = Vec::new();
        let mut j: usize = 0;
        while j < coset_size
            invariant
                j <= coset_size,
                self.wf(),
                coset_size == pow2(self.log_size()),
                denominators@.len() == coset_size,
                inverses@.len() == coset_size,
                forall|i: int|
                    0 <= i < coset_size ==> (#[trigger] denominators@[i])
                        == self.lagrange_denominator(point_index as nat, i as nat),
                forall|i: int|
                    0 <= i < coset_size ==> (#[trigger] inverses@[i])
                        == denominators@[i].inv_spec() && inverses@[i].wf()
                        && denominators@[i].mul_spec(inverses@[i]) == F::one_spec(),
                r@.len() == j,
                all_wf(r@),
                forall|i: int|
                    0 <= i < j ==> {
                        &&& (#[trigger] r@[i]) == self.lagrange_spec(point_index as nat, i as nat)
                        &&& r@[i].mul_spec(
                            self.lagrange_denominator(point_index as nat, i as nat),
                        ) == self.eval_spec(i as nat)
                    },
            decreases coset_size - j,
        {
            let z_h = self.eval(j);
            let inv = inverses[j];
            proof {
                let d = denominators@[j as int];
                F::lemma_closed(z_h, inv);
                F::lemma_mul_assoc(z_h, inv, d);
                F::lemma_mul_comm(inv, d);
                F::lemma_mul_one(z_h);
            }
            r.push(z_h.mul(inv));
            j += 1;
        }
        r
    }
}

} // verus!
