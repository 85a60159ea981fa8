//! The Baby Bear prime field, `p = 2^31 - 2^27 + 1`, with its arithmetic
//! computed by `p3_baby_bear` and its ring laws proved here.
use crate::field::Field;
use p3_baby_bear::BabyBear as MontyBabyBear;
use p3_field::{batch_multiplicative_inverse, Field as MontyField, PrimeField32, TwoAdicField};
use vstd::arithmetic::div_mod::{
    lemma_add_mod_noop, lemma_mul_mod_noop_general, lemma_small_mod, lemma_sub_mod_noop,
};
use vstd::arithmetic::mul::{
    lemma_mul_is_associative, lemma_mul_is_commutative, lemma_mul_is_distributive_add,
    lemma_mul_is_distributive_sub,
};
use vstd::prelude::*;

verus! {

/// The Baby Bear prime.
pub const PRIME: u32 = 0x7800_0001;

/// An element of the Baby Bear field, held as its canonical representative.
#[derive(Clone, Copy, Debug, PartialEq, Eq, Structural)]
pub struct BabyBear {
    pub value: u32,
}

/// `x` is an inverse of `a` modulo the prime.
pub open spec fn is_inverse_value(a: int, x: int) -> bool {
    0 <= x < PRIME && (a * x) % (PRIME as int) == 1
}

/// The inverse of `a` modulo the prime, where it has one.
pub open spec fn inverse_value(a: int) -> int {
    choose|x: int| is_inverse_value(a, x)
}

/// The generators of the two-adic subgroups, by the logarithm of their order.
pub open spec fn two_adic_generator_value(bits: nat) -> int {
    if bits == 0 {
        0x1
    } else if bits == 1 {
        0x78000000
    } else if bits == 2 {
        0x67055c21
    } else if bits == 3 {
        0x5ee99486
    } else if bits == 4 {
        0xbb4c4e4
    } else if bits == 5 {
        0x2d4cc4da
    } else if bits == 6 {
        0x669d6090
    } else if bits == 7 {
        0x17b56c64
    } else if bits == 8 {
        0x67456167
    } else if bits == 9 {
        0x688442f9
    } else if bits == 10 {
        0x145e952d
    } else if bits == 11 {
        0x4fe61226
    } else if bits == 12 {
        0x4c734715
    } else if bits == 13 {
        0x11c33e2a
    } else if bits == 14 {
        0x62c3d2b1
    } else if bits == 15 {
        0x77cad399
    } else if bits == 16 {
        0x54c131f4
    } else if bits == 17 {
        0x4cabd6a6
    } else if bits == 18 {
        0x5cf5713f
    } else if bits == 19 {
        0x3e9430e8
    } else if bits == 20 {
        0xba067a3
    } else if bits == 21 {
        0x18adc27d
    } else if bits == 22 {
        0x21fd55bc
    } else if bits == 23 {
        0x4b859b3d
    } else if bits == 24 {
        0x3bd57996
    } else if bits == 25 {
        0x4483d85a
    } else if bits == 26 {
        0x3a26eef8
    } else {
        0x1a427a41
    }
}

/// Addition of `p3_baby_bear::BabyBear` (`+`), on canonical representatives:
/// the sum reduced modulo the prime.
#[verifier::external_body]
fn monty_add(a: u32, b: u32) -> (r: u32)
    requires
        a < PRIME,
        b < PRIME,
    ensures
        r as int == (a as int + b as int) % (PRIME as int),
{
    (MontyBabyBear::new(a) + MontyBabyBear::new(b)).as_canonical_u32()
}

/// Subtraction of `p3_baby_bear::BabyBear` (`-`), on canonical
/// representatives: the difference reduced modulo the prime into `[0, p)`.
#[verifier::external_body]
fn monty_sub(a: u32, b: u32) -> (r: u32)
    requires
        a < PRIME,
        b < PRIME,
    ensures
        r as int == (a as int - b as int) % (PRIME as int),
{
    (MontyBabyBear::new(a) - MontyBabyBear::new(b)).as_canonical_u32()
}

/// Multiplication of `p3_baby_bear::BabyBear` (`*`), on canonical
/// representatives: the product reduced modulo the prime.
#[verifier::external_body]
fn monty_mul(a: u32, b: u32) -> (r: u32)
    requires
        a < PRIME,
        b < PRIME,
    ensures
        r as int == (a as int * b as int) % (PRIME as int),
{
    (MontyBabyBear::new(a) * MontyBabyBear::new(b)).as_canonical_u32()
}

/// `p3_field::Field::try_inverse` on `p3_baby_bear::BabyBear`: `None` on zero,
/// and on any other element the canonical representative of its inverse.
#[verifier::external_body]
fn monty_try_inverse(a: u32) -> (r: Option<u32>)
    requires
        a < PRIME,
    ensures
        r is None <==> a == 0,
        r matches Some(x) ==> is_inverse_value(a as int, x as int),
{
    MontyBabyBear::new(a).try_inverse().map(|x| x.as_canonical_u32())
}

/// `p3_field::batch_multiplicative_inverse` on `p3_baby_bear::BabyBear`: the
/// inverse of each element, in the order given. It panics on a zero, which
/// the precondition excludes.
#[verifier::external_body]
fn monty_batch_inverse(xs: &Vec<BabyBear>) -> (r: Vec<BabyBear>)
    requires
        forall|i: int| 0 <= i < xs@.len() ==> 0 < (#[trigger] xs@[i]).value < PRIME,
    ensures
        r@.len() == xs@.len(),
        forall|i: int|
            0 <= i < xs@.len() ==> is_inverse_value(
                xs@[i].value as int,
                (#[trigger] r@[i]).value as int,
            ),
{
    let monty: Vec<MontyBabyBear> = xs.iter().map(|x| MontyBabyBear::new(x.value)).collect();
    let inverses = batch_multiplicative_inverse(&monty);
    inverses.iter().map(|x| BabyBear { value: x.as_canonical_u32() }).collect()
}

/// `p3_field::TwoAdicField::two_adic_generator` on `p3_baby_bear::BabyBear`:
/// the entry of its table of generators at `bits`. It panics above the
/// two-adicity, which the precondition excludes.
#[verifier::external_body]
fn monty_two_adic_generator(bits: usize) -> (r: u32)
    requires
        bits <= 27,
    ensures
        r as int == two_adic_generator_value(bits as nat),
{
    MontyBabyBear::two_adic_generator(bits).as_canonical_u32()
}

/// An element has at most one inverse.
pub proof fn lemma_inverse_unique(a: int, x: int, y: int)
    requires
        is_inverse_value(a, x),
        is_inverse_value(a, y),
    ensures
        x == y,
{
    let p = PRIME as int;
    // x = x * (a * y) = (x * a) * y = y  (mod p)
    lemma_mul_mod_noop_general(x, a * y, p);
    lemma_mul_mod_noop_general(x * a, y, p);
    lemma_mul_is_associative(x, a, y);
    lemma_mul_is_commutative(x, a);
    assert((x * ((a * y) % p)) % p == (x * (a * y)) % p);
    assert((((x * a) % p) * y) % p == ((x * a) * y) % p);
    assert(x * 1 == x && 1 * y == y);
    lemma_small_mod(x as nat, p as nat);
    lemma_small_mod(y as nat, p as nat);
}

impl Field for BabyBear {
    open spec fn wf(self) -> bool {
        self.value < PRIME
    }

    open spec fn zero_spec() -> Self {
        BabyBear { value: 0 }
    }

    open spec fn one_spec() -> Self {
        BabyBear { value: 1 }
    }

    open spec fn add_spec(self, rhs: Self) -> Self {
        BabyBear { value: ((self.value as int + rhs.value as int) % (PRIME as int)) as u32 }
    }

    open spec fn sub_spec(self, rhs: Self) -> Self {
        BabyBear { value: ((self.value as int - rhs.value as int) % (PRIME as int)) as u32 }
    }

    open spec fn mul_spec(self, rhs: Self) -> Self {
        BabyBear { value: ((self.value as int * rhs.value as int) % (PRIME as int)) as u32 }
    }

    open spec fn inv_spec(self) -> Self {
        BabyBear { value: inverse_value(self.value as int) as u32 }
    }

    open spec fn two_adicity() -> nat {
        27
    }

    open spec fn generator_spec(bits: nat) -> Self {
        BabyBear { value: two_adic_generator_value(bits) as u32 }
    }

    proof fn lemma_constants() {
    }

    proof fn lemma_closed(a: Self, b: Self) {
    }

    proof fn lemma_add_comm(a: Self, b: Self) {
    }

    proof fn lemma_add_assoc(a: Self, b: Self, c: Self) {
    }

    proof fn lemma_add_zero(a: Self) {
    }

    proof fn lemma_sub_add(a: Self, b: Self) {
    }

    proof fn lemma_mul_comm(a: Self, b: Self) {
        lemma_mul_is_commutative(a.value as int, b.value as int);
    }

    proof fn lemma_mul_assoc(a: Self, b: Self, c: Self) {
        let p = PRIME as int;
        let (x, y, z) = (a.value as int, b.value as int, c.value as int);
        lemma_mul_mod_noop_general(x * y, z, p);
        lemma_mul_mod_noop_general(x, y * z, p);
        lemma_mul_is_associative(x, y, z);
    }

    proof fn lemma_mul_one(a: Self) {
    }

    proof fn lemma_distributive(a: Self, b: Self, c: Self) {
        let p = PRIME as int;
        let (x, y, z) = (a.value as int, b.value as int, c.value as int);
        lemma_mul_mod_noop_general(x, y + z, p);
        lemma_mul_mod_noop_general(x, y - z, p);
        lemma_mul_is_distributive_add(x, y, z);
        lemma_mul_is_distributive_sub(x, y, z);
        lemma_add_mod_noop(x * y, x * z, p);
        lemma_sub_mod_noop(x * y, x * z, p);
    }

    proof fn lemma_generator(bits: nat) {
        lemma_generator_table_low(bits);
        lemma_generator_table_high(bits);
    }

    fn zero() -> (r: Self) {
        BabyBear { value: 0 }
    }

    fn one() -> (r: Self) {
        BabyBear { value: 1 }
    }

    fn add(self, rhs: Self) -> (r: Self) {
        BabyBear { value: monty_add(self.value, rhs.value) }
    }

    fn sub(self, rhs: Self) -> (r: Self) {
        BabyBear { value: monty_sub(self.value, rhs.value) }
    }

    fn mul(self, rhs: Self) -> (r: Self) {
        BabyBear { value: monty_mul(self.value, rhs.value) }
    }

    fn try_inverse(self) -> (r: Option<Self>) {
        match monty_try_inverse(self.value) {
            Some(x) => {
                proof {
                    lemma_inverse_unique(
                        self.value as int,
                        x as int,
                        inverse_value(self.value as int),
                    );
                }
                Some(BabyBear { value: x })
            },
            None => None,
        }
    }

    fn batch_inverse(xs: &Vec<Self>) -> (r: Vec<Self>) {
        let r = monty_batch_inverse(xs);
        proof {
            assert forall|i: int| 0 <= i < xs@.len() implies (#[trigger] r@[i])
                == xs@[i].inv_spec() && r@[i].wf() && xs@[i].mul_spec(r@[i])
                == Self::one_spec() by {
                lemma_inverse_unique(
                    xs@[i].value as int,
                    r@[i].value as int,
                    inverse_value(xs@[i].value as int),
                );
            }
        }
        r
    }

    fn two_adic_generator(bits: usize) -> (r: Self) {
        BabyBear { value: monty_two_adic_generator(bits) }
    }

    fn is_equal(self, rhs: Self) -> (b: bool) {
        self.value == rhs.value
    }

    fn is_canonical(self) -> (b: bool) {
        self.value < PRIME
    }

    fn max_two_adic_bits() -> (r: usize) {
        27
    }
}

/// The squares of the table's entries up to 14 are the entries before them.
proof fn lemma_generator_table_low(bits: nat)
    ensures
        0 < bits <= 14 ==> (two_adic_generator_value(bits) * two_adic_generator_value(bits)) % (
        PRIME as int) == two_adic_generator_value((bits - 1) as nat),
{
}

/// The squares of the table's entries above 14 are the entries before them.
proof fn lemma_generator_table_high(bits: nat)
    ensures
        14 < bits <= 27 ==> (two_adic_generator_value(bits) * two_adic_generator_value(bits)) % (
        PRIME as int) == two_adic_generator_value((bits - 1) as nat),
{
}

} // verus!
