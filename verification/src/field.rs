//! The base-field interface: a commutative ring with inverses of nonzero
//! elements and a tower of two-adic roots of unity, together with the
//! algebra that the rest of the crate derives from it.
use vstd::arithmetic::div_mod::lemma_fundamental_div_mod;
use vstd::arithmetic::power2::{lemma2_to64, lemma_pow2_pos, lemma_pow2_unfold, pow2};
use vstd::prelude::*;

verus! {

/// A finite field whose multiplicative group contains a subgroup of order
/// `2^two_adicity()`.
///
/// The `*_spec` functions are the mathematical operations; the proof
/// functions are the ring laws, which every implementation has to prove of
/// them; the executable functions compute the operations on well-formed
/// elements.
pub trait Field: Sized + Copy {
    /// The element is a canonical representative, so that equal field elements
    /// are equal values.
    spec fn wf(self) -> bool;

    spec fn zero_spec() -> Self;

    spec fn one_spec() -> Self;

    spec fn add_spec(self, rhs: Self) -> Self;

    spec fn sub_spec(self, rhs: Self) -> Self;

    spec fn mul_spec(self, rhs: Self) -> Self;

    /// The value that `try_inverse` returns on a nonzero element.
    spec fn inv_spec(self) -> Self;

    /// The largest `bits` for which `generator_spec(bits)` is defined.
    spec fn two_adicity() -> nat;

    /// The chosen generator of the subgroup of order `2^bits`.
    spec fn generator_spec(bits: nat) -> Self;

    proof fn lemma_constants()
        ensures
            Self::zero_spec().wf(),
            Self::one_spec().wf(),
            Self::zero_spec() != Self::one_spec(),
            Self::one_spec().add_spec(Self::one_spec()) != Self::zero_spec(),
    ;

    proof fn lemma_closed(a: Self, b: Self)
        ensures
            a.add_spec(b).wf(),
            a.sub_spec(b).wf(),
            a.mul_spec(b).wf(),
    ;

    proof fn lemma_add_comm(a: Self, b: Self)
        ensures
            a.add_spec(b) == b.add_spec(a),
    ;

    proof fn lemma_add_assoc(a: Self, b: Self, c: Self)
        ensures
            a.add_spec(b).add_spec(c) == a.add_spec(b.add_spec(c)),
    ;

    proof fn lemma_add_zero(a: Self)
        requires
            a.wf(),
        ensures
            a.add_spec(Self::zero_spec()) == a,
    ;

    /// Subtraction undoes addition: `(a - b) + b = a` and `(a + b) - b = a`.
    proof fn lemma_sub_add(a: Self, b: Self)
        requires
            a.wf(),
        ensures
            a.sub_spec(b).add_spec(b) == a,
            a.add_spec(b).sub_spec(b) == a,
    ;

    proof fn lemma_mul_comm(a: Self, b: Self)
        ensures
            a.mul_spec(b) == b.mul_spec(a),
    ;

    proof fn lemma_mul_assoc(a: Self, b: Self, c: Self)
        ensures
            a.mul_spec(b).mul_spec(c) == a.mul_spec(b.mul_spec(c)),
    ;

    proof fn lemma_mul_one(a: Self)
        requires
            a.wf(),
        ensures
            a.mul_spec(Self::one_spec()) == a,
    ;

    proof fn lemma_distributive(a: Self, b: Self, c: Self)
        ensures
            a.mul_spec(b.add_spec(c)) == a.mul_spec(b).add_spec(a.mul_spec(c)),
            a.mul_spec(b.sub_spec(c)) == a.mul_spec(b).sub_spec(a.mul_spec(c)),
    ;

    /// The generators form a tower: squaring the generator of order
    /// `2^(bits + 1)` gives the generator of order `2^bits`, down to -1 and
    /// to 1.
    proof fn lemma_generator(bits: nat)
        requires
            bits <= Self::two_adicity(),
        ensures
            Self::generator_spec(bits).wf(),
            bits == 0 ==> Self::generator_spec(bits) == Self::one_spec(),
            bits == 1 ==> Self::generator_spec(bits).add_spec(Self::one_spec())
                == Self::zero_spec(),
            bits > 0 ==> Self::generator_spec(bits).mul_spec(Self::generator_spec(bits))
                == Self::generator_spec((bits - 1) as nat),
    ;

    fn zero() -> (r: Self)
        ensures
            r == Self::zero_spec(),
    ;

    fn one() -> (r: Self)
        ensures
            r == Self::one_spec(),
    ;

    fn add(self, rhs: Self) -> (r: Self)
        requires
            self.wf(),
            rhs.wf(),
        ensures
            r == self.add_spec(rhs),
    ;

    fn sub(self, rhs: Self) -> (r: Self)
        requires
            self.wf(),
            rhs.wf(),
        ensures
            r == self.sub_spec(rhs),
    ;

    fn mul(self, rhs: Self) -> (r: Self)
        requires
            self.wf(),
            rhs.wf(),
        ensures
            r == self.mul_spec(rhs),
    ;

    /// `None` on zero; on any other element its inverse.
    fn try_inverse(self) -> (r: Option<Self>)
        requires
            self.wf(),
        ensures
            r is None <==> self == Self::zero_spec(),
            r matches Some(x) ==> x == self.inv_spec() && x.wf() && self.mul_spec(x)
                == Self::one_spec(),
    ;

    /// The inverses of a sequence of nonzero elements, position by position.
    fn batch_inverse(xs: &Vec<Self>) -> (r: Vec<Self>)
        requires
            forall|i: int| 0 <= i < xs@.len() ==> (#[trigger] xs@[i]).wf() && xs@[i] != Self::zero_spec(),
        ensures
            r@.len() == xs@.len(),
            forall|i: int|
                0 <= i < xs@.len() ==> (#[trigger] r@[i]) == xs@[i].inv_spec() && r@[i].wf()
                    && xs@[i].mul_spec(r@[i]) == Self::one_spec(),
    ;

    fn two_adic_generator(bits: usize) -> (r: Self)
        requires
            bits <= Self::two_adicity(),
        ensures
            r == Self::generator_spec(bits as nat),
    ;

    fn is_equal(self, rhs: Self) -> (b: bool)
        requires
            self.wf(),
            rhs.wf(),
        ensures
            b == (self == rhs),
    ;

    /// Whether the value is a canonical representative.
    fn is_canonical(self) -> (b: bool)
        ensures
            b == self.wf(),
    ;

    /// The largest `bits` that `two_adic_generator` accepts.
    fn max_two_adic_bits() -> (r: usize)
        ensures
            r == Self::two_adicity(),
    ;
}

/// `base` multiplied by itself `exp` times.
pub open spec fn pow<F: Field>(base: F, exp: nat) -> F
    decreases exp,
{
    if exp == 0 {
        F::one_spec()
    } else {
        base.mul_spec(pow(base, (exp - 1) as nat))
    }
}

/// Every element of `s` is well-formed.
pub open spec fn all_wf<F: Field>(s: Seq<F>) -> bool {
    forall|i: int| 0 <= i < s.len() ==> (#[trigger] s[i]).wf()
}

pub proof fn lemma_pow_wf<F: Field>(base: F, exp: nat)
    ensures
        pow(base, exp).wf(),
    decreases exp,
{
    F::lemma_constants();
    if exp > 0 {
        F::lemma_closed(base, pow(base, (exp - 1) as nat));
    }
}

pub proof fn lemma_one_mul<F: Field>(a: F)
    requires
        a.wf(),
    ensures
        F::one_spec().mul_spec(a) == a,
{
    F::lemma_mul_comm(F::one_spec(), a);
    F::lemma_mul_one(a);
}

pub proof fn lemma_pow_one<F: Field>(base: F)
    requires
        base.wf(),
    ensures
        pow(base, 1) == base,
{
    assert(pow(base, 0) == F::one_spec());
    assert(pow(base, 1) == base.mul_spec(pow(base, 0)));
    F::lemma_mul_one(base);
}

/// `base^(m + n) = base^m * base^n`.
pub proof fn lemma_pow_add<F: Field>(base: F, m: nat, n: nat)
    ensures
        pow(base, m + n) == pow(base, m).mul_spec(pow(base, n)),
    decreases m,
{
    if m == 0 {
        lemma_pow_wf(base, n);
        lemma_one_mul(pow(base, n));
    } else {
        lemma_pow_add(base, (m - 1) as nat, n);
        assert((m + n - 1) as nat == (m - 1) as nat + n);
        F::lemma_mul_assoc(base, pow(base, (m - 1) as nat), pow(base, n));
    }
}

/// `(a * b) * (c * d) = (a * c) * (b * d)`.
pub proof fn lemma_mul_interchange<F: Field>(a: F, b: F, c: F, d: F)
    ensures
        a.mul_spec(b).mul_spec(c.mul_spec(d)) == a.mul_spec(c).mul_spec(b.mul_spec(d)),
{
    F::lemma_mul_assoc(a, b, c.mul_spec(d));
    F::lemma_mul_assoc(b, c, d);
    F::lemma_mul_comm(b, c);
    F::lemma_mul_assoc(c, b, d);
    F::lemma_mul_assoc(a, c, b.mul_spec(d));
}

/// `(a * b)^n = a^n * b^n`.
pub proof fn lemma_pow_mul_base<F: Field>(a: F, b: F, n: nat)
    ensures
        pow(a.mul_spec(b), n) == pow(a, n).mul_spec(pow(b, n)),
    decreases n,
{
    if n == 0 {
        F::lemma_constants();
        F::lemma_mul_one(F::one_spec());
    } else {
        lemma_pow_mul_base(a, b, (n - 1) as nat);
        lemma_mul_interchange(a, b, pow(a, (n - 1) as nat), pow(b, (n - 1) as nat));
    }
}

/// `(base^m)^n = base^(m * n)`.
pub proof fn lemma_pow_pow<F: Field>(base: F, m: nat, n: nat)
    ensures
        pow(pow(base, m), n) == pow(base, m * n),
    decreases n,
{
    if n == 0 {
        assert(m * n == 0) by (nonlinear_arith)
            requires
                n == 0,
        ;
    } else {
        lemma_pow_pow(base, m, (n - 1) as nat);
        assert(m * n == m + m * (n - 1)) by (nonlinear_arith)
            requires
                n > 0,
        ;
        assert(m * (n - 1) >= 0) by (nonlinear_arith)
            requires
                n > 0,
                m >= 0,
        ;
        lemma_pow_add(base, m, (m * (n - 1)) as nat);
    }
}

/// `1^n = 1`.
pub proof fn lemma_pow_of_one<F: Field>(n: nat)
    ensures
        pow(F::one_spec(), n) == F::one_spec(),
    decreases n,
{
    if n > 0 {
        lemma_pow_of_one::<F>((n - 1) as nat);
        F::lemma_constants();
        F::lemma_mul_one(F::one_spec());
    }
}

/// The generator of order `2^bits` raised to `2^bits` is 1.
pub proof fn lemma_generator_order<F: Field>(bits: nat)
    requires
        bits <= F::two_adicity(),
    ensures
        pow(F::generator_spec(bits), pow2(bits)) == F::one_spec(),
    decreases bits,
{
    let g = F::generator_spec(bits);
    F::lemma_generator(bits);
    lemma2_to64();
    if bits == 0 {
        lemma_pow_one(g);
    } else {
        let h = F::generator_spec((bits - 1) as nat);
        lemma_generator_order::<F>((bits - 1) as nat);
        lemma_pow_unfold_square(g);
        lemma_pow_pow(g, 2, pow2((bits - 1) as nat));
        lemma_pow2_unfold(bits);
    }
}

/// `base^2 = base * base`.
pub proof fn lemma_pow_unfold_square<F: Field>(base: F)
    requires
        base.wf(),
    ensures
        pow(base, 2) == base.mul_spec(base),
{
    lemma_pow_one(base);
    assert(pow(base, 2) == base.mul_spec(pow(base, 1)));
}

/// The inverse of a nonzero element.
pub fn inverse<F: Field>(x: F) -> (r: F)
    requires
        x.wf(),
        x != F::zero_spec(),
    ensures
        r == x.inv_spec(),
        r.wf(),
        x.mul_spec(r) == F::one_spec(),
{
    x.try_inverse().unwrap()
}

/// `x^(2^k)` by `k` squarings.
pub fn exp_power_of_2<F: Field>(x: F, power_log: usize) -> (r: F)
    requires
        x.wf(),
    ensures
        r == pow(x, pow2(power_log as nat)),
        r.wf(),
{
    let mut res = x;
    let mut i: usize = 0;
    proof {
        lemma2_to64();
        lemma_pow_one(x);
    }
    while i < power_log
        invariant
            i <= power_log,
            res.wf(),
            res == pow(x, pow2(i as nat)),
        decreases power_log - i,
    {
        proof {
            lemma_pow_unfold_square(res);
            lemma_pow_pow(x, pow2(i as nat), 2);
            lemma_pow2_unfold((i + 1) as nat);
            F::lemma_closed(res, res);
            assert(pow2(i as nat) * 2 == pow2((i + 1) as nat));
        }
        res = res.mul(res);
        i += 1;
    }
    res
}

/// `0 + a = a`.
pub proof fn lemma_zero_add<F: Field>(a: F)
    requires
        a.wf(),
    ensures
        F::zero_spec().add_spec(a) == a,
{
    F::lemma_add_comm(F::zero_spec(), a);
    F::lemma_add_zero(a);
}

/// `a - a = 0`.
pub proof fn lemma_sub_self<F: Field>(a: F)
    requires
        a.wf(),
    ensures
        a.sub_spec(a) == F::zero_spec(),
{
    F::lemma_constants();
    lemma_zero_add(a);
    F::lemma_sub_add(F::zero_spec(), a);
}

/// `a - b = 0` only if `a = b`.
pub proof fn lemma_sub_zero<F: Field>(a: F, b: F)
    requires
        a.wf(),
        b.wf(),
        a.sub_spec(b) == F::zero_spec(),
    ensures
        a == b,
{
    F::lemma_sub_add(a, b);
    lemma_zero_add(b);
}

/// Where `base^order = 1`, the powers of `base` repeat with period `order`.
pub proof fn lemma_pow_periodic<F: Field>(base: F, order: nat, i: nat)
    requires
        order > 0,
        pow(base, order) == F::one_spec(),
    ensures
        pow(base, i) == pow(base, i % order),
{
    let q = i / order;
    let r = i % order;
    assert(i == order * q + r) by {
        lemma_fundamental_div_mod(i as int, order as int);
    }
    lemma_pow_add(base, order * q, r);
    lemma_pow_pow(base, order, q);
    lemma_pow_of_one::<F>(q);
    lemma_pow_wf(base, r);
    lemma_one_mul(pow(base, r));
}

/// Raising the generator of order `2^(bits + m)` to `2^m` gives the generator
/// of order `2^bits`.
pub proof fn lemma_generator_tower<F: Field>(bits: nat, m: nat)
    requires
        bits + m <= F::two_adicity(),
    ensures
        pow(F::generator_spec(bits + m), pow2(m)) == F::generator_spec(bits),
    decreases m,
{
    let g = F::generator_spec(bits + m);
    F::lemma_generator(bits + m);
    lemma2_to64();
    if m == 0 {
        lemma_pow_one(g);
    } else {
        lemma_generator_tower::<F>(bits, (m - 1) as nat);
        lemma_pow_unfold_square(g);
        lemma_pow_pow(g, 2, pow2((m - 1) as nat));
        lemma_pow2_unfold(m);
    }
}

/// The `i`-th point of the coset `shift * <generator>`.
pub open spec fn coset_point<F: Field>(shift: F, generator: F, i: nat) -> F {
    shift.mul_spec(pow(generator, i))
}

/// `x^power` by squaring and multiplying.
pub fn exp_u64<F: Field>(x: F, power: u64) -> (r: F)
    requires
        x.wf(),
    ensures
        r == pow(x, power as nat),
        r.wf(),
{
    let mut current = x;
    let mut product = F::one();
    let mut p: u64 = power;
    proof {
        F::lemma_constants();
        lemma_pow_wf(x, power as nat);
        lemma_one_mul(pow(x, power as nat));
    }
    while p > 0
        invariant
            current.wf(),
            product.wf(),
            pow(x, power as nat) == product.mul_spec(pow(current, p as nat)),
        decreases p,
    {
        let ghost half = (p / 2) as nat;
        proof {
            F::lemma_closed(current, current);
            F::lemma_closed(product, current);
            lemma_pow_unfold_square(current);
            lemma_pow_pow(current, 2, half);
            if p % 2 == 1 {
                assert(p as nat == 1 + 2 * half);
                lemma_pow_add(current, 1, 2 * half);
                lemma_pow_one(current);
                F::lemma_mul_assoc(product, current, pow(current, 2 * half));
            } else {
                assert(p as nat == 2 * half);
            }
        }
        if p % 2 == 1 {
            product = product.mul(current);
        }
        current = current.mul(current);
        p = p / 2;
    }
    proof {
        F::lemma_mul_one(product);
    }
    product
}

/// The first `size` points of the coset `shift * <generator>`, in order.
pub fn cyclic_subgroup_coset<F: Field>(generator: F, shift: F, size: usize) -> (r: Vec<F>)
    requires
        generator.wf(),
        shift.wf(),
    ensures
        r@.len() == size,
        all_wf(r@),
        forall|i: int| 0 <= i < size ==> #[trigger] r@[i] == coset_point(shift, generator, i as nat),
{
    let mut r: Vec<F> = Vec::new();
    let mut current = shift;
    let mut i: usize = 0;
    proof {
        F::lemma_mul_one(shift);
    }
    while i < size
        invariant
            i <= size,
            generator.wf(),
            current.wf(),
            current == coset_point(shift, generator, i as nat),
            r@.len() == i,
            all_wf(r@),
            forall|j: int| 0 <= j < i ==> #[trigger] r@[j] == coset_point(shift, generator, j as nat),
        decreases size - i,
    {
        r.push(current);
        proof {
            F::lemma_closed(current, generator);
            F::lemma_mul_assoc(shift, pow(generator, i as nat), generator);
            F::lemma_mul_comm(pow(generator, i as nat), generator);
        }
        current = current.mul(generator);
        i += 1;
    }
    r
}

/// `x` has the inverse that `inv_spec` names.
pub open spec fn invertible<F: Field>(x: F) -> bool {
    x.inv_spec().wf() && x.mul_spec(x.inv_spec()) == F::one_spec()
}

/// `1 + 1`.
pub open spec fn two_spec<F: Field>() -> F {
    F::one_spec().add_spec(F::one_spec())
}

/// `0 * a = 0`.
pub proof fn lemma_zero_mul<F: Field>(a: F)
    ensures
        F::zero_spec().mul_spec(a) == F::zero_spec(),
{
    let z = F::zero_spec();
    let az = a.mul_spec(z);
    F::lemma_constants();
    F::lemma_add_zero(z);
    F::lemma_distributive(a, z, z);
    F::lemma_closed(a, z);
    F::lemma_sub_add(az, az);
    lemma_sub_self(az);
    F::lemma_mul_comm(z, a);
}

/// A positive power of zero is zero.
pub proof fn lemma_pow_of_zero<F: Field>(n: nat)
    requires
        n > 0,
    ensures
        pow(F::zero_spec(), n) == F::zero_spec(),
{
    lemma_zero_mul(pow(F::zero_spec(), (n - 1) as nat));
}

/// No generator is zero.
pub proof fn lemma_generator_nonzero<F: Field>(bits: nat)
    requires
        bits <= F::two_adicity(),
    ensures
        F::generator_spec(bits) != F::zero_spec(),
{
    lemma_generator_order::<F>(bits);
    lemma_pow2_pos(bits);
    lemma_pow_of_zero::<F>(pow2(bits));
    F::lemma_constants();
}

/// The product of two elements with inverses is not zero.
pub proof fn lemma_product_nonzero<F: Field>(a: F, b: F, a_inv: F, b_inv: F)
    requires
        a.mul_spec(a_inv) == F::one_spec(),
        b.mul_spec(b_inv) == F::one_spec(),
    ensures
        a.mul_spec(b) != F::zero_spec(),
{
    lemma_mul_interchange(a, b, a_inv, b_inv);
    lemma_zero_mul(a_inv.mul_spec(b_inv));
    F::lemma_constants();
    F::lemma_mul_one(F::one_spec());
}

/// The points of the cosets `s <g>` and `s^-1 <g^-1>` are inverse to each
/// other, index by index.
pub proof fn lemma_coset_point_inverse<F: Field>(s: F, s_inv: F, g: F, g_inv: F, i: nat)
    requires
        s.mul_spec(s_inv) == F::one_spec(),
        g.mul_spec(g_inv) == F::one_spec(),
    ensures
        coset_point(s, g, i).mul_spec(coset_point(s_inv, g_inv, i)) == F::one_spec(),
{
    lemma_mul_interchange(s, pow(g, i), s_inv, pow(g_inv, i));
    lemma_pow_mul_base(g, g_inv, i);
    lemma_pow_of_one::<F>(i);
    F::lemma_constants();
    F::lemma_mul_one(F::one_spec());
}

/// `(a + b) * c = a * c + b * c` and `(a - b) * c = a * c - b * c`.
pub proof fn lemma_distributive_right<F: Field>(a: F, b: F, c: F)
    ensures
        a.add_spec(b).mul_spec(c) == a.mul_spec(c).add_spec(b.mul_spec(c)),
        a.sub_spec(b).mul_spec(c) == a.mul_spec(c).sub_spec(b.mul_spec(c)),
{
    F::lemma_distributive(c, a, b);
    F::lemma_mul_comm(c, a.add_spec(b));
    F::lemma_mul_comm(c, a.sub_spec(b));
    F::lemma_mul_comm(c, a);
    F::lemma_mul_comm(c, b);
}

/// `(a + a) / 2 = a`.
pub proof fn lemma_halve_double<F: Field>(a: F, half: F)
    requires
        a.wf(),
        two_spec::<F>().mul_spec(half) == F::one_spec(),
    ensures
        a.add_spec(a).mul_spec(half) == a,
{
    let one = F::one_spec();
    F::lemma_mul_one(a);
    F::lemma_distributive(a, one, one);
    F::lemma_mul_assoc(a, two_spec::<F>(), half);
}

/// `(a + b) + (a - b) = a + a` and `(a + b) - (a - b) = b + b`.
pub proof fn lemma_sum_and_difference<F: Field>(a: F, b: F)
    requires
        a.wf(),
        b.wf(),
    ensures
        a.add_spec(b).add_spec(a.sub_spec(b)) == a.add_spec(a),
        a.add_spec(b).sub_spec(a.sub_spec(b)) == b.add_spec(b),
{
    let d = a.sub_spec(b);
    F::lemma_sub_add(a, b);
    F::lemma_closed(a, b);
    F::lemma_closed(b, b);
    // (a + b) + d = a + (b + d) = a + (d + b) = a + a
    F::lemma_add_assoc(a, b, d);
    F::lemma_add_comm(b, d);
    // (a + b) - d = ((d + b) + b) - d = ((b + b) + d) - d = b + b
    F::lemma_add_assoc(d, b, b);
    F::lemma_add_comm(d, b.add_spec(b));
    F::lemma_sub_add(b.add_spec(b), d);
}

/// One step of the even-odd decomposition is undone by recombining: with
/// `e = (a + b) / 2` and `o = (a - b) / (2 t)`, `e + t o = a` and
/// `e - t o = b`.
pub proof fn lemma_split_merge<F: Field>(a: F, b: F, half: F, t: F, t_inv: F)
    requires
        a.wf(),
        b.wf(),
        two_spec::<F>().mul_spec(half) == F::one_spec(),
        t.mul_spec(t_inv) == F::one_spec(),
    ensures
        a.add_spec(b).mul_spec(half).add_spec(
            t.mul_spec(a.sub_spec(b).mul_spec(half).mul_spec(t_inv)),
        ) == a,
        a.add_spec(b).mul_spec(half).sub_spec(
            t.mul_spec(a.sub_spec(b).mul_spec(half).mul_spec(t_inv)),
        ) == b,
{
    let s = a.add_spec(b);
    let d = a.sub_spec(b);
    let dh = d.mul_spec(half);
    // t * (dh * t_inv) = dh
    F::lemma_mul_comm(t, dh.mul_spec(t_inv));
    F::lemma_mul_assoc(dh, t_inv, t);
    F::lemma_mul_comm(t_inv, t);
    F::lemma_closed(d, half);
    F::lemma_mul_one(dh);
    assert(t.mul_spec(dh.mul_spec(t_inv)) == dh);
    lemma_distributive_right(s, d, half);
    lemma_sum_and_difference(a, b);
    lemma_halve_double(a, half);
    lemma_halve_double(b, half);
}

/// `-1`.
pub open spec fn neg_one_spec<F: Field>() -> F {
    F::zero_spec().sub_spec(F::one_spec())
}

/// `(a + b) + (c + d) = (a + c) + (b + d)`.
pub proof fn lemma_add_interchange<F: Field>(a: F, b: F, c: F, d: F)
    ensures
        a.add_spec(b).add_spec(c.add_spec(d)) == a.add_spec(c).add_spec(b.add_spec(d)),
{
    F::lemma_add_assoc(a, b, c.add_spec(d));
    F::lemma_add_assoc(b, c, d);
    F::lemma_add_comm(b, c);
    F::lemma_add_assoc(c, b, d);
    F::lemma_add_assoc(a, c, b.add_spec(d));
}

/// `b + b * (-1) = 0` and `a - b = a + b * (-1)`.
pub proof fn lemma_sub_as_add<F: Field>(a: F, b: F)
    requires
        a.wf(),
        b.wf(),
    ensures
        b.mul_spec(neg_one_spec::<F>()).add_spec(b) == F::zero_spec(),
        a.sub_spec(b) == a.add_spec(b.mul_spec(neg_one_spec::<F>())),
{
    let m = neg_one_spec::<F>();
    let one = F::one_spec();
    let zero = F::zero_spec();
    F::lemma_constants();
    F::lemma_sub_add(zero, one);
    F::lemma_mul_one(b);
    F::lemma_distributive(b, m, one);
    lemma_zero_mul(b);
    F::lemma_mul_comm(zero, b);
    assert(b.mul_spec(m).add_spec(b) == zero);
    let y = a.add_spec(b.mul_spec(m));
    F::lemma_add_assoc(a, b.mul_spec(m), b);
    F::lemma_add_zero(a);
    F::lemma_closed(a, b.mul_spec(m));
    F::lemma_sub_add(y, b);
}

/// `(-1) * (-1) = 1`.
pub proof fn lemma_neg_one_squared<F: Field>()
    ensures
        neg_one_spec::<F>().mul_spec(neg_one_spec::<F>()) == F::one_spec(),
        neg_one_spec::<F>().wf(),
{
    let m = neg_one_spec::<F>();
    let one = F::one_spec();
    let zero = F::zero_spec();
    F::lemma_constants();
    F::lemma_closed(zero, one);
    // 1 = (1 + m) - m = 0 - m
    F::lemma_sub_add(zero, one);
    F::lemma_add_comm(m, one);
    F::lemma_sub_add(one, m);
    assert(zero.sub_spec(m) == one);
    // m * (0 - 1) = m * 0 - m * 1 = 0 - m
    F::lemma_distributive(m, zero, one);
    lemma_zero_mul(m);
    F::lemma_mul_comm(zero, m);
    F::lemma_mul_one(m);
}

/// Half way round the subgroup a coset point turns into its negative:
/// `s g^(i + m) = (s g^i) * (-1)` for `g` of order `2 m`.
pub proof fn lemma_coset_point_opposite<F: Field>(shift: F, log_size: nat, i: nat)
    requires
        1 <= log_size <= F::two_adicity(),
    ensures
        coset_point(shift, F::generator_spec(log_size), i + pow2((log_size - 1) as nat))
            == coset_point(shift, F::generator_spec(log_size), i).mul_spec(neg_one_spec::<F>()),
{
    let g = F::generator_spec(log_size);
    let half = pow2((log_size - 1) as nat);
    let minus = F::generator_spec(1);
    lemma_pow_add(g, i, half);
    lemma_generator_tower::<F>(1, (log_size - 1) as nat);
    F::lemma_generator(1);
    F::lemma_constants();
    // g^half = -1
    F::lemma_sub_add(minus, F::one_spec());
    assert(minus == neg_one_spec::<F>());
    F::lemma_mul_assoc(shift, pow(g, i), pow(g, half));
}

/// The square of a coset point is the point of the squared coset with the
/// same index: `(s g^i)^2 = s^2 (g^2)^i`.
pub proof fn lemma_coset_point_squared<F: Field>(shift: F, log_size: nat, i: nat)
    requires
        1 <= log_size <= F::two_adicity(),
    ensures
        coset_point(shift, F::generator_spec(log_size), i).mul_spec(
            coset_point(shift, F::generator_spec(log_size), i),
        ) == coset_point(
            shift.mul_spec(shift),
            F::generator_spec((log_size - 1) as nat),
            i,
        ),
{
    let g = F::generator_spec(log_size);
    F::lemma_generator(log_size);
    lemma_mul_interchange(shift, pow(g, i), shift, pow(g, i));
    lemma_pow_mul_base(g, g, i);
}

} // verus!
