//! The evaluation of an arithmetization at one point, and the folding of its
//! constraints into one value: with a challenge `alpha`, the constraints
//! `c_0, ..., c_(m-1)` fold to `c_0 alpha^(m-1) + ... + c_(m-1)`.
//!
//! The prover evaluates on base-field rows of the extended trace; the
//! verifier on the trace's opened values, which lie in the extension field.
use crate::extension::{all_ext_wf, from_base, from_base_spec, zero, ExtensionField};
use crate::field::{all_wf, Field};
use crate::symbolic::{expression_wf, Air, SymbolicExpression};
use vstd::prelude::*;

verus! {

/// The values of the three row selectors at a point.
#[derive(Debug)]
pub struct Selectors<T> {
    pub is_first_row: T,
    pub is_last_row: T,
    pub is_transition: T,
}

/// The value of the expression on base-field rows.
pub open spec fn eval_base_spec<F: Field>(
    e: SymbolicExpression<F>,
    local: Seq<F>,
    next: Seq<F>,
    selectors: Selectors<F>,
) -> F
    decreases e,
{
    match e {
        SymbolicExpression::Variable { is_next, column } => if is_next {
            next[column as int]
        } else {
            local[column as int]
        },
        SymbolicExpression::IsFirstRow => selectors.is_first_row,
        SymbolicExpression::IsLastRow => selectors.is_last_row,
        SymbolicExpression::IsTransition => selectors.is_transition,
        SymbolicExpression::Constant(c) => c,
        SymbolicExpression::Add(a, b) => eval_base_spec(*a, local, next, selectors).add_spec(
            eval_base_spec(*b, local, next, selectors),
        ),
        SymbolicExpression::Sub(a, b) => eval_base_spec(*a, local, next, selectors).sub_spec(
            eval_base_spec(*b, local, next, selectors),
        ),
        SymbolicExpression::Neg(a) => F::zero_spec().sub_spec(
            eval_base_spec(*a, local, next, selectors),
        ),
        SymbolicExpression::Mul(a, b) => eval_base_spec(*a, local, next, selectors).mul_spec(
            eval_base_spec(*b, local, next, selectors),
        ),
    }
}

/// The value of the expression on extension-field rows; its constants are
/// embedded.
pub open spec fn eval_ext_spec<E: ExtensionField>(
    e: SymbolicExpression<E::Base>,
    local: Seq<E>,
    next: Seq<E>,
    selectors: Selectors<E>,
) -> E
    decreases e,
{
    match e {
        SymbolicExpression::Variable { is_next, column } => if is_next {
            next[column as int]
        } else {
            local[column as int]
        },
        SymbolicExpression::IsFirstRow => selectors.is_first_row,
        SymbolicExpression::IsLastRow => selectors.is_last_row,
        SymbolicExpression::IsTransition => selectors.is_transition,
        SymbolicExpression::Constant(c) => from_base_spec::<E>(c),
        SymbolicExpression::Add(a, b) => eval_ext_spec(*a, local, next, selectors).add_spec(
            eval_ext_spec(*b, local, next, selectors),
        ),
        SymbolicExpression::Sub(a, b) => eval_ext_spec(*a, local, next, selectors).sub_spec(
            eval_ext_spec(*b, local, next, selectors),
        ),
        SymbolicExpression::Neg(a) => from_base_spec::<E>(E::Base::zero_spec()).sub_spec(
            eval_ext_spec(*a, local, next, selectors),
        ),
        SymbolicExpression::Mul(a, b) => eval_ext_spec(*a, local, next, selectors).mul_spec(
            eval_ext_spec(*b, local, next, selectors),
        ),
    }
}

/// The accumulator after folding the first `count` constraints, evaluated
/// on base-field rows, into `accumulator`.
pub open spec fn fold_base_spec<E: ExtensionField>(
    constraints: Seq<SymbolicExpression<E::Base>>,
    count: nat,
    local: Seq<E::Base>,
    next: Seq<E::Base>,
    selectors: Selectors<E::Base>,
    alpha: E,
    accumulator: E,
) -> E
    decreases count,
{
    if count == 0 {
        accumulator
    } else {
        fold_base_spec(
            constraints,
            (count - 1) as nat,
            local,
            next,
            selectors,
            alpha,
            accumulator,
        ).mul_spec(alpha).add_spec(
            from_base_spec::<E>(eval_base_spec(constraints[count - 1], local, next, selectors)),
        )
    }
}

/// The accumulator after folding the first `count` constraints, evaluated
/// on extension-field rows, into `accumulator`.
pub open spec fn fold_ext_spec<E: ExtensionField>(
    constraints: Seq<SymbolicExpression<E::Base>>,
    count: nat,
    local: Seq<E>,
    next: Seq<E>,
    selectors: Selectors<E>,
    alpha: E,
    accumulator: E,
) -> E
    decreases count,
{
    if count == 0 {
        accumulator
    } else {
        fold_ext_spec(
            constraints,
            (count - 1) as nat,
            local,
            next,
            selectors,
            alpha,
            accumulator,
        ).mul_spec(alpha).add_spec(eval_ext_spec(constraints[count - 1], local, next, selectors))
    }
}

/// The prover's view of one point of the extended domain: the two rows of
/// the extended trace, the selectors, and the running fold.
pub struct ProverConstraintFolder<E: ExtensionField> {
    pub local: Vec<E::Base>,
    pub next: Vec<E::Base>,
    pub selectors: Selectors<E::Base>,
    pub alpha: E,
    pub accumulator: E,
}

/// The verifier's view of the out-of-domain point: the opened values of the
/// two rows, the selectors, and the running fold.
pub struct VerifierConstraintFolder<E: ExtensionField> {
    pub local: Vec<E>,
    pub next: Vec<E>,
    pub selectors: Selectors<E>,
    pub alpha: E,
    pub accumulator: E,
}

impl<E: ExtensionField> ProverConstraintFolder<E> {
    /// The rows have `width` cells, and every value is well-formed.
    pub open spec fn wf(&self, width: nat) -> bool {
        &&& self.local@.len() == width
        &&& self.next@.len() == width
        &&& all_wf(self.local@)
        &&& all_wf(self.next@)
        &&& self.selectors.is_first_row.wf()
        &&& self.selectors.is_last_row.wf()
        &&& self.selectors.is_transition.wf()
        &&& self.alpha.wf()
        &&& self.accumulator.wf()
    }

    /// The value of the expression at this point.
    pub fn eval_expression(&self, e: &SymbolicExpression<E::Base>) -> (r: E::Base)
        requires
            self.wf(self.local@.len()),
            expression_wf(*e, self.local@.len()),
        ensures
            r == eval_base_spec(*e, self.local@, self.next@, self.selectors),
            r.wf(),
        decreases e,
    {
        match e {
            SymbolicExpression::Variable { is_next, column } => if *is_next {
                self.next[*column]
            } else {
                self.local[*column]
            },
            SymbolicExpression::IsFirstRow => self.selectors.is_first_row,
            SymbolicExpression::IsLastRow => self.selectors.is_last_row,
            SymbolicExpression::IsTransition => self.selectors.is_transition,
            SymbolicExpression::Constant(c) => *c,
            SymbolicExpression::Add(a, b) => {
                let x = self.eval_expression(a);
                let y = self.eval_expression(b);
                proof {
                    E::Base::lemma_closed(x, y);
                }
                x.add(y)
            },
            SymbolicExpression::Sub(a, b) => {
                let x = self.eval_expression(a);
                let y = self.eval_expression(b);
                proof {
                    E::Base::lemma_closed(x, y);
                }
                x.sub(y)
            },
            SymbolicExpression::Neg(a) => {
                let x = self.eval_expression(a);
                proof {
                    E::Base::lemma_constants();
                    E::Base::lemma_closed(E::Base::zero_spec(), x);
                }
                E::Base::zero().sub(x)
            },
            SymbolicExpression::Mul(a, b) => {
                let x = self.eval_expression(a);
                let y = self.eval_expression(b);
                proof {
                    E::Base::lemma_closed(x, y);
                }
                x.mul(y)
            },
        }
    }

    /// Folds one constraint value into the accumulator.
    pub fn assert_zero(&mut self, x: E::Base)
        requires
            old(self).wf(old(self).local@.len()),
            x.wf(),
        ensures
            final(self).accumulator == old(self).accumulator.mul_spec(old(self).alpha).add_spec(
                from_base_spec::<E>(x),
            ),
            final(self).local == old(self).local,
            final(self).next == old(self).next,
            final(self).selectors == old(self).selectors,
            final(self).alpha == old(self).alpha,
            final(self).wf(old(self).local@.len()),
    {
        let embedded = from_base::<E>(x);
        proof {
            E::lemma_closed(self.accumulator, self.alpha);
            E::lemma_closed(self.accumulator.mul_spec(self.alpha), embedded);
        }
        self.accumulator = self.accumulator.mul(self.alpha).add(embedded);
    }

    /// Evaluates every constraint of `air` at this point and folds it into
    /// the accumulator, in the order of the constraints.
    pub fn eval(&mut self, air: &Air<E::Base>)
        requires
            air.wf(),
            old(self).wf(air.width as nat),
        ensures
            final(self).accumulator == fold_base_spec(
                air.constraints@,
                air.constraints@.len(),
                old(self).local@,
                old(self).next@,
                old(self).selectors,
                old(self).alpha,
                old(self).accumulator,
            ),
            final(self).local == old(self).local,
            final(self).next == old(self).next,
            final(self).selectors == old(self).selectors,
            final(self).alpha == old(self).alpha,
            final(self).wf(air.width as nat),
    {
        let ghost start = *self;
        let mut i: usize = 0;
        while i < air.constraints.len()
            invariant
                i <= air.constraints@.len(),
                air.wf(),
                self.wf(air.width as nat),
                self.local == start.local,
                self.next == start.next,
                self.selectors == start.selectors,
                self.alpha == start.alpha,
                self.accumulator == fold_base_spec(
                    air.constraints@,
                    i as nat,
                    start.local@,
                    start.next@,
                    start.selectors,
                    start.alpha,
                    start.accumulator,
                ),
            decreases air.constraints@.len() - i,
        {
            let x = self.eval_expression(&air.constraints[i]);
            self.assert_zero(x);
            i += 1;
        }
    }
}

impl<E: ExtensionField> VerifierConstraintFolder<E> {
    /// The rows have `width` cells, and every value is well-formed.
    pub open spec fn wf(&self, width: nat) -> bool {
        &&& self.local@.len() == width
        &&& self.next@.len() == width
        &&& all_ext_wf(self.local@)
        &&& all_ext_wf(self.next@)
        &&& self.selectors.is_first_row.wf()
        &&& self.selectors.is_last_row.wf()
        &&& self.selectors.is_transition.wf()
        &&& self.alpha.wf()
        &&& self.accumulator.wf()
    }

    /// The value of the expression at this point.
    pub fn eval_expression(&self, e: &SymbolicExpression<E::Base>) -> (r: E)
        requires
            self.wf(self.local@.len()),
            expression_wf(*e, self.local@.len()),
        ensures
            r == eval_ext_spec(*e, self.local@, self.next@, self.selectors),
            r.wf(),
        decreases e,
    {
        match e {
            SymbolicExpression::Variable { is_next, column } => if *is_next {
                self.next[*column]
            } else {
                self.local[*column]
            },
            SymbolicExpression::IsFirstRow => self.selectors.is_first_row,
            SymbolicExpression::IsLastRow => self.selectors.is_last_row,
            SymbolicExpression::IsTransition => self.selectors.is_transition,
            SymbolicExpression::Constant(c) => from_base::<E>(*c),
            SymbolicExpression::Add(a, b) => {
                let x = self.eval_expression(a);
                let y = self.eval_expression(b);
                proof {
                    E::lemma_closed(x, y);
                }
                x.add(y)
            },
            SymbolicExpression::Sub(a, b) => {
                let x = self.eval_expression(a);
                let y = self.eval_expression(b);
                proof {
                    E::lemma_closed(x, y);
                }
                x.sub(y)
            },
            SymbolicExpression::Neg(a) => {
                let x = self.eval_expression(a);
                let zero = zero::<E>();
                proof {
                    E::lemma_closed(zero, x);
                }
                zero.sub(x)
            },
            SymbolicExpression::Mul(a, b) => {
                let x = self.eval_expression(a);
                let y = self.eval_expression(b);
                proof {
                    E::lemma_closed(x, y);
                }
                x.mul(y)
            },
        }
    }

    /// Folds one constraint value into the accumulator.
    pub fn assert_zero(&mut self, x: E)
        requires
            old(self).wf(old(self).local@.len()),
            x.wf(),
        ensures
            final(self).accumulator == old(self).accumulator.mul_spec(old(self).alpha).add_spec(x),
            final(self).local == old(self).local,
            final(self).next == old(self).next,
            final(self).selectors == old(self).selectors,
            final(self).alpha == old(self).alpha,
            final(self).wf(old(self).local@.len()),
    {
        proof {
            E::lemma_closed(self.accumulator, self.alpha);
            E::lemma_closed(self.accumulator.mul_spec(self.alpha), x);
        }
        self.accumulator = self.accumulator.mul(self.alpha).add(x);
    }

    /// Evaluates every constraint of `air` at this point and folds it into
    /// the accumulator, in the order of the constraints.
    pub fn eval(&mut self, air: &Air<E::Base>)
        requires
            air.wf(),
            old(self).wf(air.width as nat),
        ensures
            final(self).accumulator == fold_ext_spec(
                air.constraints@,
                air.constraints@.len(),
                old(self).local@,
                old(self).next@,
                old(self).selectors,
                old(self).alpha,
                old(self).accumulator,
            ),
            final(self).local == old(self).local,
            final(self).next == old(self).next,
            final(self).selectors == old(self).selectors,
            final(self).alpha == old(self).alpha,
            final(self).wf(air.width as nat),
    {
        let ghost start = *self;
        let mut i: usize = 0;
        while i < air.constraints.len()
            invariant
                i <= air.constraints@.len(),
                air.wf(),
                self.wf(air.width as nat),
                self.local == start.local,
                self.next == start.next,
                self.selectors == start.selectors,
                self.alpha == start.alpha,
                self.accumulator == fold_ext_spec(
                    air.constraints@,
                    i as nat,
                    start.local@,
                    start.next@,
                    start.selectors,
                    start.alpha,
                    start.accumulator,
                ),
            decreases air.constraints@.len() - i,
        {
            let x = self.eval_expression(&air.constraints[i]);
            self.assert_zero(x);
            i += 1;
        }
    }
}

} // verus!
