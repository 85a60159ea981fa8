//! Constraints as symbolic expressions over the cells of two adjacent trace
//! rows, and the degree analysis that fixes the size of the quotient.
use crate::field::Field;
use crate::util::{log2_ceil_spec, log2_ceil_usize};
use vstd::prelude::*;

verus! {

/// A polynomial expression in the cells of the current and the next row and
/// in the three row selectors.
#[derive(Debug)]
pub enum SymbolicExpression<F> {
    /// The cell of column `column`, of the next row if `is_next`.
    Variable { is_next: bool, column: usize },
    IsFirstRow,
    IsLastRow,
    IsTransition,
    Constant(F),
    Add(Box<SymbolicExpression<F>>, Box<SymbolicExpression<F>>),
    Sub(Box<SymbolicExpression<F>>, Box<SymbolicExpression<F>>),
    Neg(Box<SymbolicExpression<F>>),
    Mul(Box<SymbolicExpression<F>>, Box<SymbolicExpression<F>>),
}

/// An arithmetization: the width of the trace and the expressions that have
/// to vanish on every pair of adjacent rows.
#[derive(Debug)]
pub struct Air<F> {
    pub width: usize,
    pub constraints: Vec<SymbolicExpression<F>>,
}

pub open spec fn max_nat(a: nat, b: nat) -> nat {
    if a >= b {
        a
    } else {
        b
    }
}

pub open spec fn min_nat(a: nat, b: nat) -> nat {
    if a <= b {
        a
    } else {
        b
    }
}

/// The expression reads only columns below `width`, and its constants are
/// well-formed.
pub open spec fn expression_wf<F: Field>(e: SymbolicExpression<F>, width: nat) -> bool
    decreases e,
{
    match e {
        SymbolicExpression::Variable { is_next, column } => column < width,
        SymbolicExpression::IsFirstRow => true,
        SymbolicExpression::IsLastRow => true,
        SymbolicExpression::IsTransition => true,
        SymbolicExpression::Constant(c) => c.wf(),
        SymbolicExpression::Add(a, b) => expression_wf(*a, width) && expression_wf(*b, width),
        SymbolicExpression::Sub(a, b) => expression_wf(*a, width) && expression_wf(*b, width),
        SymbolicExpression::Neg(a) => expression_wf(*a, width),
        SymbolicExpression::Mul(a, b) => expression_wf(*a, width) && expression_wf(*b, width),
    }
}

/// The degree of the expression as a multiple of the trace degree: a cell and
/// the selectors of the first and the last row count 1, the transition
/// selector and a constant 0.
pub open spec fn degree_multiple_spec<F>(e: SymbolicExpression<F>) -> nat
    decreases e,
{
    match e {
        SymbolicExpression::Variable { is_next, column } => 1,
        SymbolicExpression::IsFirstRow => 1,
        SymbolicExpression::IsLastRow => 1,
        SymbolicExpression::IsTransition => 0,
        SymbolicExpression::Constant(c) => 0,
        SymbolicExpression::Add(a, b) => max_nat(
            degree_multiple_spec(*a),
            degree_multiple_spec(*b),
        ),
        SymbolicExpression::Sub(a, b) => max_nat(
            degree_multiple_spec(*a),
            degree_multiple_spec(*b),
        ),
        SymbolicExpression::Neg(a) => degree_multiple_spec(*a),
        SymbolicExpression::Mul(a, b) => degree_multiple_spec(*a) + degree_multiple_spec(*b),
    }
}

/// The largest degree multiple among the first `count` constraints.
pub open spec fn max_degree_spec<F>(constraints: Seq<SymbolicExpression<F>>, count: nat) -> nat
    decreases count,
{
    if count == 0 {
        0
    } else {
        max_nat(
            max_degree_spec(constraints, (count - 1) as nat),
            degree_multiple_spec(constraints[count - 1]),
        )
    }
}

/// The logarithm of the number of parts of the quotient: the constraint
/// degree is taken to be at least 2, division by the zerofier takes 1 off,
/// and the result is rounded up to a power of two.
pub open spec fn log_quotient_degree_spec<F>(constraints: Seq<SymbolicExpression<F>>) -> nat {
    let degree = min_nat(max_degree_spec(constraints, constraints.len()), usize::MAX as nat);
    log2_ceil_spec((max_nat(degree, 2) - 1) as nat)
}

impl<F: Field> SymbolicExpression<F> {
    /// Whether the expression reads only columns below `width` and has
    /// well-formed constants.
    pub fn is_wf(&self, width: usize) -> (b: bool)
        ensures
            b == expression_wf(*self, width as nat),
        decreases self,
    {
        match self {
            SymbolicExpression::Variable { is_next, column } => *column < width,
            SymbolicExpression::IsFirstRow => true,
            SymbolicExpression::IsLastRow => true,
            SymbolicExpression::IsTransition => true,
            SymbolicExpression::Constant(c) => c.is_canonical(),
            SymbolicExpression::Add(a, b) => a.is_wf(width) && b.is_wf(width),
            SymbolicExpression::Sub(a, b) => a.is_wf(width) && b.is_wf(width),
            SymbolicExpression::Neg(a) => a.is_wf(width),
            SymbolicExpression::Mul(a, b) => a.is_wf(width) && b.is_wf(width),
        }
    }

    /// The degree multiple of the expression, up to the largest machine
    /// integer.
    pub fn degree_multiple(&self) -> (r: usize)
        ensures
            r == min_nat(degree_multiple_spec(*self), usize::MAX as nat),
        decreases self,
    {
        match self {
            SymbolicExpression::Variable { is_next, column } => 1,
            SymbolicExpression::IsFirstRow => 1,
            SymbolicExpression::IsLastRow => 1,
            SymbolicExpression::IsTransition => 0,
            SymbolicExpression::Constant(c) => 0,
            SymbolicExpression::Add(a, b) => {
                let x = a.degree_multiple();
                let y = b.degree_multiple();
                if x >= y {
                    x
                } else {
                    y
                }
            },
            SymbolicExpression::Sub(a, b) => {
                let x = a.degree_multiple();
                let y = b.degree_multiple();
                if x >= y {
                    x
                } else {
                    y
                }
            },
            SymbolicExpression::Neg(a) => a.degree_multiple(),
            SymbolicExpression::Mul(a, b) => {
                let x = a.degree_multiple();
                let y = b.degree_multiple();
                if x > usize::MAX - y {
                    usize::MAX
                } else {
                    x + y
                }
            },
        }
    }
}

impl<F: Field> Air<F> {
    /// Every constraint reads only columns of the trace.
    pub open spec fn wf(&self) -> bool {
        forall|i: int|
            0 <= i < self.constraints@.len() ==> expression_wf(
                #[trigger] self.constraints@[i],
                self.width as nat,
            )
    }

    pub open spec fn log_quotient_degree_spec(&self) -> nat {
        log_quotient_degree_spec(self.constraints@)
    }

    pub fn width(&self) -> (r: usize)
        ensures
            r == self.width,
    {
        self.width
    }

    /// Whether every constraint reads only columns of the trace.
    pub fn is_wf(&self) -> (b: bool)
        ensures
            b == self.wf(),
    {
        let mut i: usize = 0;
        while i < self.constraints.len()
            invariant
                i <= self.constraints@.len(),
                forall|j: int|
                    0 <= j < i ==> expression_wf(
                        #[trigger] self.constraints@[j],
                        self.width as nat,
                    ),
            decreases self.constraints@.len() - i,
        {
            if !self.constraints[i].is_wf(self.width) {
                return false;
            }
            i += 1;
        }
        true
    }

    /// The largest degree multiple of a constraint, up to the largest
    /// machine integer; 0 without constraints.
    pub fn get_max_constraint_degree(&self) -> (r: usize)
        ensures
            r == min_nat(
                max_degree_spec(self.constraints@, self.constraints@.len()),
                usize::MAX as nat,
            ),
    {
        let mut degree: usize = 0;
        let mut i: usize = 0;
        while i < self.constraints.len()
            invariant
                i <= self.constraints@.len(),
                degree == min_nat(max_degree_spec(self.constraints@, i as nat), usize::MAX as nat),
            decreases self.constraints@.len() - i,
        {
            let d = self.constraints[i].degree_multiple();
            if d > degree {
                degree = d;
            }
            i += 1;
        }
        degree
    }

    /// The logarithm of the number of parts into which the quotient of this
    /// arithmetization is decomposed.
    pub fn get_log_quotient_degree(&self) -> (r: usize)
        ensures
            r == self.log_quotient_degree_spec(),
            r <= usize::BITS,
    {
        let degree = self.get_max_constraint_degree();
        let constraint_degree = if degree >= 2 {
            degree
        } else {
            2
        };
        log2_ceil_usize(constraint_degree - 1)
    }
}

} // verus!
