//! Symbolic constraints, their degrees and their folding; matrices.

use duo_stark::baby_bear::BabyBear;
use duo_stark::baby_bear_quartic::BabyBearExt4;
use duo_stark::config::is_matrix_wf;
use duo_stark::extension::{from_base, zero, ExtensionField};
use duo_stark::field::Field;
use duo_stark::folder::{ProverConstraintFolder, Selectors, VerifierConstraintFolder};
use duo_stark::matrix::RowMajorMatrix;
use duo_stark::symbolic::{Air, SymbolicExpression};
use duo_stark::verification::{all_canonical, check_air_shape, quotient_at};

type Expr = SymbolicExpression<BabyBear>;

fn bb(value: u32) -> BabyBear {
    BabyBear { value }
}

fn ext(c0: u32, c1: u32, c2: u32, c3: u32) -> BabyBearExt4 {
    BabyBearExt4 { c0: bb(c0), c1: bb(c1), c2: bb(c2), c3: bb(c3) }
}

fn local(column: usize) -> Box<Expr> {
    Box::new(Expr::Variable { is_next: false, column })
}

fn next(column: usize) -> Box<Expr> {
    Box::new(Expr::Variable { is_next: true, column })
}

fn constant(v: u32) -> Box<Expr> {
    Box::new(Expr::Constant(bb(v)))
}

#[test]
fn degree_multiples() {
    assert_eq!(local(0).degree_multiple(), 1);
    assert_eq!(next(3).degree_multiple(), 1);
    assert_eq!(Expr::IsFirstRow.degree_multiple(), 1);
    assert_eq!(Expr::IsLastRow.degree_multiple(), 1);
    assert_eq!(Expr::IsTransition.degree_multiple(), 0);
    assert_eq!(constant(5).degree_multiple(), 0);
    assert_eq!(Expr::Add(local(0), constant(1)).degree_multiple(), 1);
    assert_eq!(Expr::Sub(constant(1), constant(1)).degree_multiple(), 0);
    assert_eq!(Expr::Neg(local(0)).degree_multiple(), 1);
    assert_eq!(Expr::Mul(local(0), next(0)).degree_multiple(), 2);
    let cube = Expr::Mul(Box::new(Expr::Mul(local(0), local(0))), local(1));
    assert_eq!(cube.degree_multiple(), 3);
    assert_eq!(Expr::Mul(Box::new(Expr::IsTransition), Box::new(cube)).degree_multiple(), 3);
}

#[test]
fn the_number_of_quotient_parts_follows_the_largest_degree() {
    let with = |constraints: Vec<Expr>| Air { width: 2, constraints };
    // Degrees 0, 1 and 2 count as 2: one part.
    assert_eq!(with(vec![]).get_max_constraint_degree(), 0);
    assert_eq!(with(vec![]).get_log_quotient_degree(), 0);
    assert_eq!(with(vec![*local(0)]).get_log_quotient_degree(), 0);
    assert_eq!(with(vec![Expr::Mul(local(0), local(1))]).get_log_quotient_degree(), 0);
    // Degree 3: two parts. Degrees 4 and 5: four parts.
    let power = |n: usize| {
        let mut e = *local(0);
        for _ in 1..n {
            e = Expr::Mul(Box::new(e), local(1));
        }
        e
    };
    assert_eq!(with(vec![power(3)]).get_log_quotient_degree(), 1);
    assert_eq!(with(vec![power(4)]).get_log_quotient_degree(), 2);
    assert_eq!(with(vec![power(5)]).get_log_quotient_degree(), 2);
    assert_eq!(with(vec![power(6)]).get_log_quotient_degree(), 3);
    assert_eq!(with(vec![power(2), power(5), power(3)]).get_max_constraint_degree(), 5);
    assert_eq!(with(vec![power(2), power(5), power(3)]).get_log_quotient_degree(), 2);
    assert_eq!(with(vec![power(2)]).width(), 2);
}

#[test]
fn an_expression_is_well_formed_within_the_width() {
    assert!(local(1).is_wf(2));
    assert!(!local(2).is_wf(2));
    assert!(!next(0).is_wf(0));
    assert!(constant(5).is_wf(0));
    assert!(!constant(u32::MAX).is_wf(5));
    assert!(Expr::IsLastRow.is_wf(0));
    assert!(!Expr::Neg(Box::new(Expr::Add(local(0), next(7)))).is_wf(7));
    assert!(Expr::Neg(Box::new(Expr::Add(local(0), next(7)))).is_wf(8));
    assert!(Air { width: 1, constraints: vec![*local(0), *constant(1)] }.is_wf());
    assert!(!Air { width: 1, constraints: vec![*local(0), *next(1)] }.is_wf());
    assert!(Air::<BabyBear> { width: 0, constraints: vec![] }.is_wf());
}

fn prover_folder(accumulator: BabyBearExt4) -> ProverConstraintFolder<BabyBearExt4> {
    ProverConstraintFolder {
        local: vec![bb(3), bb(4)],
        next: vec![bb(5), bb(6)],
        selectors: Selectors { is_first_row: bb(7), is_last_row: bb(8), is_transition: bb(9) },
        alpha: ext(0, 1, 0, 0),
        accumulator,
    }
}

#[test]
fn the_prover_evaluates_on_base_rows() {
    let folder = prover_folder(zero::<BabyBearExt4>());
    assert_eq!(folder.eval_expression(&local(1)), bb(4));
    assert_eq!(folder.eval_expression(&next(0)), bb(5));
    assert_eq!(folder.eval_expression(&Expr::IsFirstRow), bb(7));
    assert_eq!(folder.eval_expression(&Expr::IsLastRow), bb(8));
    assert_eq!(folder.eval_expression(&Expr::IsTransition), bb(9));
    assert_eq!(folder.eval_expression(&constant(11)), bb(11));
    assert_eq!(folder.eval_expression(&Expr::Add(local(0), next(1))), bb(9));
    assert_eq!(folder.eval_expression(&Expr::Sub(local(0), next(1))), bb(2013265918));
    assert_eq!(folder.eval_expression(&Expr::Neg(local(0))), bb(2013265918));
    assert_eq!(folder.eval_expression(&Expr::Mul(local(0), next(1))), bb(18));
}

#[test]
fn folding_multiplies_by_alpha_and_adds_the_constraint() {
    let mut folder = prover_folder(ext(1, 2, 3, 4));
    folder.assert_zero(bb(10));
    // (1 + 2X + 3X^2 + 4X^3) X + 10 = 44 + 10 + X + 2X^2 + 3X^3.
    assert_eq!(folder.accumulator, ext(54, 1, 2, 3));

    let air = Air { width: 2, constraints: vec![*local(0), *local(1), *next(0)] };
    let mut folder = prover_folder(zero::<BabyBearExt4>());
    folder.eval(&air);
    // 3 X^2 + 4 X + 5.
    assert_eq!(folder.accumulator, ext(5, 4, 3, 0));
    assert_eq!(folder.local, vec![bb(3), bb(4)]);

    let mut folder = prover_folder(ext(9, 9, 9, 9));
    folder.eval(&Air { width: 2, constraints: vec![] });
    assert_eq!(folder.accumulator, ext(9, 9, 9, 9));
}

fn verifier_folder(accumulator: BabyBearExt4) -> VerifierConstraintFolder<BabyBearExt4> {
    VerifierConstraintFolder {
        local: vec![ext(3, 1, 0, 0), ext(4, 0, 0, 0)],
        next: vec![ext(5, 0, 0, 0), ext(0, 0, 0, 6)],
        selectors: Selectors {
            is_first_row: ext(7, 0, 0, 0),
            is_last_row: ext(0, 8, 0, 0),
            is_transition: ext(0, 0, 9, 0),
        },
        alpha: ext(0, 1, 0, 0),
        accumulator,
    }
}

#[test]
fn the_verifier_evaluates_on_extension_rows() {
    let folder = verifier_folder(zero::<BabyBearExt4>());
    assert_eq!(folder.eval_expression(&local(0)), ext(3, 1, 0, 0));
    assert_eq!(folder.eval_expression(&next(1)), ext(0, 0, 0, 6));
    assert_eq!(folder.eval_expression(&Expr::IsFirstRow), ext(7, 0, 0, 0));
    assert_eq!(folder.eval_expression(&Expr::IsLastRow), ext(0, 8, 0, 0));
    assert_eq!(folder.eval_expression(&Expr::IsTransition), ext(0, 0, 9, 0));
    assert_eq!(folder.eval_expression(&constant(11)), ext(11, 0, 0, 0));
    assert_eq!(folder.eval_expression(&Expr::Add(local(0), next(1))), ext(3, 1, 0, 6));
    assert_eq!(
        folder.eval_expression(&Expr::Sub(local(1), local(0))),
        ext(1, 2013265920, 0, 0)
    );
    assert_eq!(folder.eval_expression(&Expr::Neg(local(1))), ext(2013265917, 0, 0, 0));
    // (3 + X) * 6 X^3 = 18 X^3 + 6 X^4 = 66 + 18 X^3.
    assert_eq!(folder.eval_expression(&Expr::Mul(local(0), next(1))), ext(66, 0, 0, 18));
}

#[test]
fn the_verifier_folds_like_the_prover() {
    let mut folder = verifier_folder(ext(1, 2, 3, 4));
    folder.assert_zero(ext(10, 0, 0, 1));
    assert_eq!(folder.accumulator, ext(54, 1, 2, 4));

    let air = Air { width: 2, constraints: vec![*local(1), *next(0)] };
    let mut folder = verifier_folder(zero::<BabyBearExt4>());
    folder.eval(&air);
    assert_eq!(folder.accumulator, ext(5, 4, 0, 0));
}

#[test]
fn the_quotient_is_recombined_from_its_parts_in_bit_reversed_order() {
    // One part: its coefficients in the basis.
    let values = vec![ext(1, 0, 0, 0), ext(2, 0, 0, 0), ext(3, 0, 0, 0), ext(4, 0, 0, 0)];
    assert_eq!(quotient_at(&values, ext(0, 5, 0, 0), 0), ext(1, 2, 3, 4));
    // The opened values lie in the extension: X * X^3 = 11 goes to the front.
    let values = vec![ext(1, 0, 0, 0), ext(0, 0, 0, 1), ext(0, 0, 0, 0), ext(0, 0, 0, 0)];
    assert_eq!(quotient_at(&values, ext(9, 0, 0, 0), 0), ext(12, 0, 0, 0));
    // Four parts with the values 1, 2, 3, 4 at zeta = 10: parts 0, 2, 1, 3
    // are the coefficients of 1, zeta, zeta^2, zeta^3.
    let mut values = Vec::new();
    for part in 1..=4 {
        values.extend([ext(part, 0, 0, 0), ext(0, 0, 0, 0), ext(0, 0, 0, 0), ext(0, 0, 0, 0)]);
    }
    assert_eq!(quotient_at(&values, ext(10, 0, 0, 0), 2), ext(1 + 30 + 200 + 4000, 0, 0, 0));
}

#[test]
fn opened_values_fit_an_arithmetization_of_their_dimensions() {
    let air = Air { width: 2, constraints: vec![Expr::Mul(local(0), local(1))] };
    let row = vec![ext(1, 0, 0, 0), ext(2, 0, 0, 0)];
    let chunks = vec![zero::<BabyBearExt4>(); 4];
    assert!(check_air_shape(&air, 3, &row, &row, &chunks));
    assert!(check_air_shape(&air, 27, &row, &row, &chunks));
    assert!(!check_air_shape(&air, 28, &row, &row, &chunks));
    assert!(!check_air_shape(&air, usize::MAX, &row, &row, &chunks));
    assert!(!check_air_shape(&air, 3, &row[..1].to_vec(), &row, &chunks));
    assert!(!check_air_shape(&air, 3, &row, &Vec::new(), &chunks));
    assert!(!check_air_shape(&air, 3, &row, &row, &chunks[..3].to_vec()));
    assert!(!check_air_shape(&air, 3, &row, &row, &vec![zero::<BabyBearExt4>(); 8]));
    let malformed = vec![ext(1, 0, 0, 0), ext(2, 0, u32::MAX, 0)];
    assert!(!check_air_shape(&air, 3, &malformed, &row, &chunks));
    assert!(all_canonical(&row));
    assert!(!all_canonical(&malformed));
    assert!(all_canonical::<BabyBearExt4>(&Vec::new()));
}

#[test]
fn matrices() {
    let m = RowMajorMatrix::new((0..12).map(bb).collect(), 3);
    assert_eq!((m.width(), m.height()), (3, 4));
    assert_eq!(m.get(0, 0), bb(0));
    assert_eq!(m.get(2, 1), bb(7));
    assert_eq!(m.get(3, 2), bb(11));
    assert_eq!(m.row_vec(1), vec![bb(3), bb(4), bb(5)]);
    assert!(is_matrix_wf(&m));

    let empty = RowMajorMatrix::<BabyBear>::new(Vec::new(), 0);
    assert_eq!((empty.width(), empty.height()), (0, 0));
    assert!(is_matrix_wf(&empty));
    assert!(!is_matrix_wf(&RowMajorMatrix { values: vec![bb(1)], width: 0 }));
    assert!(!is_matrix_wf(&RowMajorMatrix { values: vec![bb(1), bb(2), bb(3)], width: 2 }));
    assert!(!is_matrix_wf(&RowMajorMatrix { values: vec![bb(1), bb(u32::MAX)], width: 2 }));
}

#[test]
fn every_other_row() {
    let m = RowMajorMatrix::new((0..16).map(bb).collect(), 2);
    let strided = m.vertically_strided(2, 0);
    assert_eq!((strided.width(), strided.height()), (2, 4));
    assert_eq!(strided.values, [0, 1, 4, 5, 8, 9, 12, 13].map(bb).to_vec());
    let offset = m.vertically_strided(3, 1);
    assert_eq!(offset.height(), 3);
    assert_eq!(offset.values, [2, 3, 8, 9, 14, 15].map(bb).to_vec());
    assert_eq!(m.vertically_strided(1, 0).values, m.values);
    assert_eq!(m.vertically_strided(100, 7).values, vec![bb(14), bb(15)]);
    assert_eq!(m.vertically_strided(2, 8).height(), 0);
    assert_eq!(m.vertically_strided(usize::MAX, 0).height(), 1);
    let _ = from_base::<BabyBearExt4>(bb(1)).add(zero::<BabyBearExt4>());
}
