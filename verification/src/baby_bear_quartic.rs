//! The quartic extension of the Baby Bear field, `F[X] / (X^4 - 11)`, with its
//! multiplication and inversion computed by `p3_field`.
use crate::baby_bear::{BabyBear, PRIME};
use crate::extension::ExtensionField;
use crate::field::Field;
use p3_baby_bear::BabyBear as MontyBabyBear;
use p3_field::extension::BinomialExtensionField;
use p3_field::{BasedVectorSpace, Field as MontyField, PrimeField32};
use vstd::prelude::*;

verus! {

/// An element `c0 + c1 X + c2 X^2 + c3 X^3` of the quartic extension.
#[derive(Clone, Copy, Debug, PartialEq, Eq, Structural)]
pub struct BabyBearExt4 {
    pub c0: BabyBear,
    pub c1: BabyBear,
    pub c2: BabyBear,
    pub c3: BabyBear,
}

/// The field element that `x` represents.
pub open spec fn reduce(x: int) -> BabyBear {
    BabyBear { value: (x % (PRIME as int)) as u32 }
}

pub open spec fn quartic_wf(a: BabyBearExt4) -> bool {
    a.c0.wf() && a.c1.wf() && a.c2.wf() && a.c3.wf()
}

pub open spec fn quartic_zero() -> BabyBearExt4 {
    BabyBearExt4 {
        c0: BabyBear { value: 0 },
        c1: BabyBear { value: 0 },
        c2: BabyBear { value: 0 },
        c3: BabyBear { value: 0 },
    }
}

pub open spec fn quartic_one() -> BabyBearExt4 {
    BabyBearExt4 {
        c0: BabyBear { value: 1 },
        c1: BabyBear { value: 0 },
        c2: BabyBear { value: 0 },
        c3: BabyBear { value: 0 },
    }
}

/// The product of two polynomials of degree below 4, reduced by `X^4 = 11`.
pub open spec fn quartic_mul(a: BabyBearExt4, b: BabyBearExt4) -> BabyBearExt4 {
    let (a0, a1, a2, a3) = (
        a.c0.value as int,
        a.c1.value as int,
        a.c2.value as int,
        a.c3.value as int,
    );
    let (b0, b1, b2, b3) = (
        b.c0.value as int,
        b.c1.value as int,
        b.c2.value as int,
        b.c3.value as int,
    );
    BabyBearExt4 {
        c0: reduce(a0 * b0 + 11 * (a1 * b3 + a2 * b2 + a3 * b1)),
        c1: reduce(a0 * b1 + a1 * b0 + 11 * (a2 * b3 + a3 * b2)),
        c2: reduce(a0 * b2 + a1 * b1 + a2 * b0 + 11 * (a3 * b3)),
        c3: reduce(a0 * b3 + a1 * b2 + a2 * b1 + a3 * b0),
    }
}

/// The canonical coefficients of the inverse that `p3_field` computes for the
/// element with canonical coefficients `c0, c1, c2, c3`.
pub uninterp spec fn quartic_inverse_value(c0: int, c1: int, c2: int, c3: int) -> Seq<int>;

/// The element with the coefficients `q`.
pub open spec fn quartic_from_values(q: Seq<int>) -> BabyBearExt4 {
    BabyBearExt4 {
        c0: BabyBear { value: q[0] as u32 },
        c1: BabyBear { value: q[1] as u32 },
        c2: BabyBear { value: q[2] as u32 },
        c3: BabyBear { value: q[3] as u32 },
    }
}

pub open spec fn quartic_inverse(a: BabyBearExt4) -> BabyBearExt4 {
    quartic_from_values(
        quartic_inverse_value(
            a.c0.value as int,
            a.c1.value as int,
            a.c2.value as int,
            a.c3.value as int,
        ),
    )
}

/// Multiplication of `BinomialExtensionField<BabyBear, 4>` (`*`), on canonical
/// coefficients: the polynomial product reduced by `X^4 = 11`.
#[verifier::external_body]
fn monty_quartic_mul(a: BabyBearExt4, b: BabyBearExt4) -> (r: BabyBearExt4)
    requires
        quartic_wf(a),
        quartic_wf(b),
    ensures
        r == quartic_mul(a, b),
{
    let x = BinomialExtensionField::<MontyBabyBear, 4>::new(
        [a.c0, a.c1, a.c2, a.c3].map(|c| MontyBabyBear::new(c.value)),
    );
    let y = BinomialExtensionField::<MontyBabyBear, 4>::new(
        [b.c0, b.c1, b.c2, b.c3].map(|c| MontyBabyBear::new(c.value)),
    );
    let z = x * y;
    let c: &[MontyBabyBear] = z.as_basis_coefficients_slice();
    BabyBearExt4 {
        c0: BabyBear { value: c[0].as_canonical_u32() },
        c1: BabyBear { value: c[1].as_canonical_u32() },
        c2: BabyBear { value: c[2].as_canonical_u32() },
        c3: BabyBear { value: c[3].as_canonical_u32() },
    }
}

/// `p3_field::Field::try_inverse` on `BinomialExtensionField<BabyBear, 4>`:
/// `None` on zero, and on any other element the element whose product with it
/// is 1, in canonical coefficients.
#[verifier::external_body]
fn monty_quartic_try_inverse(a: BabyBearExt4) -> (r: Option<BabyBearExt4>)
    requires
        quartic_wf(a),
    ensures
        r is None <==> a == quartic_zero(),
        r matches Some(x) ==> x == quartic_from_values(
            quartic_inverse_value(
                a.c0.value as int,
                a.c1.value as int,
                a.c2.value as int,
                a.c3.value as int,
            ),
        ) && quartic_wf(x) && quartic_mul(a, x) == quartic_one(),
{
    let x = BinomialExtensionField::<MontyBabyBear, 4>::new(
        [a.c0, a.c1, a.c2, a.c3].map(|c| MontyBabyBear::new(c.value)),
    );
    x.try_inverse().map(
        |z| {
            let c: &[MontyBabyBear] = z.as_basis_coefficients_slice();
            BabyBearExt4 {
                c0: BabyBear { value: c[0].as_canonical_u32() },
                c1: BabyBear { value: c[1].as_canonical_u32() },
                c2: BabyBear { value: c[2].as_canonical_u32() },
                c3: BabyBear { value: c[3].as_canonical_u32() },
            }
        },
    )
}

impl ExtensionField for BabyBearExt4 {
    type Base = BabyBear;

    open spec fn wf(self) -> bool {
        quartic_wf(self)
    }

    open spec fn dimension() -> nat {
        4
    }

    open spec fn coeffs(self) -> Seq<BabyBear> {
        seq![self.c0, self.c1, self.c2, self.c3]
    }

    open spec fn from_coeffs(c: Seq<BabyBear>) -> Self {
        BabyBearExt4 { c0: c[0], c1: c[1], c2: c[2], c3: c[3] }
    }

    open spec fn add_spec(self, rhs: Self) -> Self {
        BabyBearExt4 {
            c0: self.c0.add_spec(rhs.c0),
            c1: self.c1.add_spec(rhs.c1),
            c2: self.c2.add_spec(rhs.c2),
            c3: self.c3.add_spec(rhs.c3),
        }
    }

    open spec fn sub_spec(self, rhs: Self) -> Self {
        BabyBearExt4 {
            c0: self.c0.sub_spec(rhs.c0),
            c1: self.c1.sub_spec(rhs.c1),
            c2: self.c2.sub_spec(rhs.c2),
            c3: self.c3.sub_spec(rhs.c3),
        }
    }

    open spec fn mul_spec(self, rhs: Self) -> Self {
        quartic_mul(self, rhs)
    }

    open spec fn inv_spec(self) -> Self {
        quartic_inverse(self)
    }

    proof fn lemma_dimension() {
    }

    proof fn lemma_coeffs(e: Self) {
    }

    proof fn lemma_from_coeffs(c: Seq<BabyBear>) {
        assert(Self::from_coeffs(c).coeffs() =~= c);
    }

    proof fn lemma_closed(a: Self, b: Self) {
    }

    fn degree() -> (d: usize) {
        4
    }

    fn from_base_slice(c: &Vec<BabyBear>) -> (r: Self) {
        BabyBearExt4 { c0: c[0], c1: c[1], c2: c[2], c3: c[3] }
    }

    fn as_base_slice(self) -> (r: Vec<BabyBear>) {
        let r = vec![self.c0, self.c1, self.c2, self.c3];
        assert(r@ =~= self.coeffs());
        r
    }

    fn add(self, rhs: Self) -> (r: Self) {
        BabyBearExt4 {
            c0: self.c0.add(rhs.c0),
            c1: self.c1.add(rhs.c1),
            c2: self.c2.add(rhs.c2),
            c3: self.c3.add(rhs.c3),
        }
    }

    fn sub(self, rhs: Self) -> (r: Self) {
        BabyBearExt4 {
            c0: self.c0.sub(rhs.c0),
            c1: self.c1.sub(rhs.c1),
            c2: self.c2.sub(rhs.c2),
            c3: self.c3.sub(rhs.c3),
        }
    }

    fn mul(self, rhs: Self) -> (r: Self) {
        monty_quartic_mul(self, rhs)
    }

    fn try_inverse(self) -> (r: Option<Self>) {
        monty_quartic_try_inverse(self)
    }

    fn is_equal(self, rhs: Self) -> (b: bool) {
        self.c0.value == rhs.c0.value && self.c1.value == rhs.c1.value && self.c2.value
            == rhs.c2.value && self.c3.value == rhs.c3.value
    }

    fn is_canonical(self) -> (b: bool) {
        self.c0.is_canonical() && self.c1.is_canonical() && self.c2.is_canonical()
            && self.c3.is_canonical()
    }
}

} // verus!
