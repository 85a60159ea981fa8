//! The extension-field interface: a field that is a vector space of finite
//! dimension over a base field, with a fixed basis.
use crate::field::{all_wf, Field};
use vstd::prelude::*;

verus! {

/// `f` followed by zeros, `dimension` elements in all.
pub open spec fn embedded_coeffs<F: Field>(dimension: nat, f: F) -> Seq<F> {
    Seq::new(
        dimension,
        |i: int|
            if i == 0 {
                f
            } else {
                F::zero_spec()
            },
    )
}

/// An extension of the field `Base`, with a fixed basis of `dimension()`
/// elements whose first element is 1.
///
/// Addition, multiplication and inversion are the implementation's; what the
/// crate derives itself (embedding, scaling by a base element) goes through
/// the basis coefficients.
pub trait ExtensionField: Sized + Copy {
    type Base: Field;

    spec fn wf(self) -> bool;

    spec fn dimension() -> nat;

    /// The coefficients of the element in the basis.
    spec fn coeffs(self) -> Seq<Self::Base>;

    /// The element with the given coefficients.
    spec fn from_coeffs(c: Seq<Self::Base>) -> Self;

    spec fn add_spec(self, rhs: Self) -> Self;

    spec fn sub_spec(self, rhs: Self) -> Self;

    spec fn mul_spec(self, rhs: Self) -> Self;

    /// The value that `try_inverse` returns on a nonzero element.
    spec fn inv_spec(self) -> Self;

    proof fn lemma_dimension()
        ensures
            1 <= Self::dimension() <= usize::MAX,
    ;

    /// A well-formed element is its coefficient vector.
    proof fn lemma_coeffs(e: Self)
        requires
            e.wf(),
        ensures
            e.coeffs().len() == Self::dimension(),
            all_wf(e.coeffs()),
            Self::from_coeffs(e.coeffs()) == e,
    ;

    proof fn lemma_from_coeffs(c: Seq<Self::Base>)
        requires
            c.len() == Self::dimension(),
            all_wf(c),
        ensures
            Self::from_coeffs(c).wf(),
            Self::from_coeffs(c).coeffs() == c,
    ;

    proof fn lemma_closed(a: Self, b: Self)
        requires
            a.wf(),
            b.wf(),
        ensures
            a.add_spec(b).wf(),
            a.sub_spec(b).wf(),
            a.mul_spec(b).wf(),
    ;

    fn degree() -> (d: usize)
        ensures
            d == Self::dimension(),
    ;

    fn from_base_slice(c: &Vec<Self::Base>) -> (r: Self)
        requires
            c@.len() == Self::dimension(),
            all_wf(c@),
        ensures
            r == Self::from_coeffs(c@),
    ;

    fn as_base_slice(self) -> (r: Vec<Self::Base>)
        requires
            self.wf(),
        ensures
            r@ == self.coeffs(),
    ;

    fn add(self, rhs: Self) -> (r: Self)
        requires
            self.wf(),
            rhs.wf(),
        ensures
            r == self.add_spec(rhs),
    ;

    fn sub(self, rhs: Self) -> (r: Self)
        requires
            self.wf(),
            rhs.wf(),
        ensures
            r == self.sub_spec(rhs),
    ;

    fn mul(self, rhs: Self) -> (r: Self)
        requires
            self.wf(),
            rhs.wf(),
        ensures
            r == self.mul_spec(rhs),
    ;

    /// `None` on zero; on any other element its inverse.
    fn try_inverse(self) -> (r: Option<Self>)
        requires
            self.wf(),
        ensures
            r is None <==> self == Self::from_coeffs(
                embedded_coeffs(Self::dimension(), Self::Base::zero_spec()),
            ),
            r matches Some(x) ==> x == self.inv_spec() && x.wf() && self.mul_spec(x)
                == Self::from_coeffs(embedded_coeffs(Self::dimension(), Self::Base::one_spec())),
    ;

    fn is_equal(self, rhs: Self) -> (b: bool)
        requires
            self.wf(),
            rhs.wf(),
        ensures
            b == (self == rhs),
    ;

    /// Whether the value is well-formed.
    fn is_canonical(self) -> (b: bool)
        ensures
            b == self.wf(),
    ;
}

/// The coefficients of the embedding of `f`: `f` first, then zeros.
pub open spec fn base_coeffs<E: ExtensionField>(f: E::Base) -> Seq<E::Base> {
    embedded_coeffs(E::dimension(), f)
}

/// The base element `f` as an element of the extension.
pub open spec fn from_base_spec<E: ExtensionField>(f: E::Base) -> E {
    E::from_coeffs(base_coeffs::<E>(f))
}

pub open spec fn zero_spec<E: ExtensionField>() -> E {
    from_base_spec::<E>(E::Base::zero_spec())
}

pub open spec fn one_spec<E: ExtensionField>() -> E {
    from_base_spec::<E>(E::Base::one_spec())
}

/// The coefficients of the `i`-th basis element.
pub open spec fn monomial_coeffs<E: ExtensionField>(i: nat) -> Seq<E::Base> {
    Seq::new(
        E::dimension(),
        |j: int|
            if j == i {
                E::Base::one_spec()
            } else {
                E::Base::zero_spec()
            },
    )
}

/// The `i`-th element of the basis.
pub open spec fn monomial_spec<E: ExtensionField>(i: nat) -> E {
    E::from_coeffs(monomial_coeffs::<E>(i))
}

/// The coefficients of `e`, each multiplied by `f`.
pub open spec fn scale_coeffs<F: Field>(c: Seq<F>, f: F) -> Seq<F> {
    Seq::new(c.len(), |i: int| c[i].mul_spec(f))
}

/// The product of the extension element `e` and the base element `f`.
pub open spec fn scale_spec<E: ExtensionField>(e: E, f: E::Base) -> E {
    E::from_coeffs(scale_coeffs(e.coeffs(), f))
}

/// Every element of `s` is well-formed.
pub open spec fn all_ext_wf<E: ExtensionField>(s: Seq<E>) -> bool {
    forall|i: int| 0 <= i < s.len() ==> (#[trigger] s[i]).wf()
}

pub fn from_base<E: ExtensionField>(f: E::Base) -> (r: E)
    requires
        f.wf(),
    ensures
        r == from_base_spec::<E>(f),
        r.wf(),
{
    let d = E::degree();
    let mut c: Vec<E::Base> = Vec::new();
    let mut i: usize = 0;
    proof {
        E::Base::lemma_constants();
    }
    while i < d
        invariant
            i <= d,
            d == E::dimension(),
            c@.len() == i,
            f.wf(),
            E::Base::zero_spec().wf(),
            forall|j: int| 0 <= j < i ==> #[trigger] c@[j] == base_coeffs::<E>(f)[j],
        decreases d - i,
    {
        if i == 0 {
            c.push(f);
        } else {
            c.push(E::Base::zero());
        }
        i += 1;
    }
    proof {
        assert(c@ =~= base_coeffs::<E>(f));
        E::lemma_from_coeffs(c@);
    }
    E::from_base_slice(&c)
}

pub fn zero<E: ExtensionField>() -> (r: E)
    ensures
        r == zero_spec::<E>(),
        r.wf(),
{
    proof {
        E::Base::lemma_constants();
    }
    from_base(E::Base::zero())
}

pub fn one<E: ExtensionField>() -> (r: E)
    ensures
        r == one_spec::<E>(),
        r.wf(),
{
    proof {
        E::Base::lemma_constants();
    }
    from_base(E::Base::one())
}

pub fn monomial<E: ExtensionField>(exponent: usize) -> (r: E)
    requires
        exponent < E::dimension(),
    ensures
        r == monomial_spec::<E>(exponent as nat),
        r.wf(),
{
    let d = E::degree();
    let mut c: Vec<E::Base> = Vec::new();
    let mut i: usize = 0;
    proof {
        E::Base::lemma_constants();
    }
    while i < d
        invariant
            i <= d,
            d == E::dimension(),
            c@.len() == i,
            E::Base::zero_spec().wf(),
            E::Base::one_spec().wf(),
            forall|j: int|
                0 <= j < i ==> #[trigger] c@[j] == monomial_coeffs::<E>(exponent as nat)[j],
        decreases d - i,
    {
        if i == exponent {
            c.push(E::Base::one());
        } else {
            c.push(E::Base::zero());
        }
        i += 1;
    }
    proof {
        assert(c@ =~= monomial_coeffs::<E>(exponent as nat));
        E::lemma_from_coeffs(c@);
    }
    E::from_base_slice(&c)
}

/// The product of an extension element and a base element.
pub fn scale<E: ExtensionField>(e: E, f: E::Base) -> (r: E)
    requires
        e.wf(),
        f.wf(),
    ensures
        r == scale_spec(e, f),
        r.wf(),
{
    let coeffs = e.as_base_slice();
    let d = coeffs.len();
    let mut c: Vec<E::Base> = Vec::new();
    let mut i: usize = 0;
    proof {
        E::lemma_coeffs(e);
    }
    while i < d
        invariant
            i <= d,
            d == coeffs@.len(),
            coeffs@ == e.coeffs(),
            all_wf(coeffs@),
            f.wf(),
            c@.len() == i,
            all_wf(c@),
            forall|j: int| 0 <= j < i ==> #[trigger] c@[j] == scale_coeffs(e.coeffs(), f)[j],
        decreases d - i,
    {
        proof {
            E::Base::lemma_closed(coeffs@[i as int], f);
        }
        c.push(coeffs[i].mul(f));
        i += 1;
    }
    proof {
        assert(c@ =~= scale_coeffs(e.coeffs(), f));
        E::lemma_from_coeffs(c@);
    }
    E::from_base_slice(&c)
}

/// `x^(2^power_log)`, by `power_log` squarings.
pub open spec fn exp_power_of_2_spec<E: ExtensionField>(x: E, power_log: nat) -> E
    decreases power_log,
{
    if power_log == 0 {
        x
    } else {
        let y = exp_power_of_2_spec(x, (power_log - 1) as nat);
        y.mul_spec(y)
    }
}

/// `x^(2^power_log)`, by `power_log` squarings.
pub fn exp_power_of_2<E: ExtensionField>(x: E, power_log: usize) -> (r: E)
    requires
        x.wf(),
    ensures
        r == exp_power_of_2_spec(x, power_log as nat),
        r.wf(),
{
    let mut res = x;
    let mut i: usize = 0;
    while i < power_log
        invariant
            i <= power_log,
            res.wf(),
            res == exp_power_of_2_spec(x, i as nat),
        decreases power_log - i,
    {
        proof {
            E::lemma_closed(res, res);
        }
        res = res.mul(res);
        i += 1;
    }
    res
}

} // verus!
