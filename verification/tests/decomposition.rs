//! The even-odd decomposition, the flattening, and their inverses.

use duo_stark::baby_bear::BabyBear;
use duo_stark::baby_bear_quartic::BabyBearExt4;
use duo_stark::decompose::{decompose, merge, recompose};
use duo_stark::field::{exp_u64, Field};
use duo_stark::flatten::{decompose_and_flatten, unflatten_and_recompose};
use duo_stark::matrix::RowMajorMatrix;

fn bb(value: u32) -> BabyBear {
    BabyBear { value }
}

fn ext(c0: u32, c1: u32, c2: u32, c3: u32) -> BabyBearExt4 {
    BabyBearExt4 { c0: bb(c0), c1: bb(c1), c2: bb(c2), c3: bb(c3) }
}

/// Values that follow no pattern.
fn scrambled(count: usize, seed: u32) -> Vec<BabyBear> {
    let mut state = bb(seed);
    (0..count)
        .map(|_| {
            state = state.mul(bb(1103515245)).add(bb(12345));
            state
        })
        .collect()
}

fn scrambled_ext(count: usize, seed: u32) -> Vec<BabyBearExt4> {
    scrambled(4 * count, seed)
        .chunks(4)
        .map(|c| BabyBearExt4 { c0: c[0], c1: c[1], c2: c[2], c3: c[3] })
        .collect()
}

fn eval(coeffs: &[u32], x: BabyBear) -> BabyBear {
    let mut acc = bb(0);
    for c in coeffs.iter().rev() {
        acc = acc.mul(x).add(bb(*c));
    }
    acc
}

/// The points of the coset `shift * H`, `H` of order `2^log_n`.
fn coset(log_n: usize, shift: BabyBear) -> Vec<BabyBear> {
    let g = BabyBear::two_adic_generator(log_n);
    (0..1u64 << log_n).map(|i| shift.mul(exp_u64(g, i))).collect()
}

#[test]
fn no_chunks_leave_the_values_as_they_are() {
    let values = scrambled(8, 1);
    assert_eq!(decompose(values.clone(), bb(31), 0), vec![values.clone()]);
    assert_eq!(recompose(&vec![values.clone()], bb(31), 0), values);
}

#[test]
fn one_step_gives_the_even_and_the_odd_part() {
    // p(x) = 1 + 2 x + 3 x^2 + 4 x^3 = (1 + 3 y) + x (2 + 4 y) with y = x^2.
    let values: Vec<BabyBear> =
        coset(2, bb(31)).iter().map(|x| eval(&[1, 2, 3, 4], *x)).collect();
    assert_eq!(values, vec![bb(122110), bb(6112042), bb(2013149579), bb(2007148115)]);
    let chunks = decompose(values, bb(31), 1);
    assert_eq!(chunks.len(), 2);
    assert_eq!(chunks[0], vec![bb(2884), bb(2013263039)]);
    assert_eq!(chunks[1], vec![bb(3846), bb(2013262079)]);
}

#[test]
fn the_parts_come_in_bit_reversed_order_of_the_exponents() {
    // p(x) = sum of c_j x^j for j < 8, in four parts: part r holds the
    // coefficients with exponent r mod 4, and the parts come as 0, 2, 1, 3.
    let coeffs = [3u32, 1, 4, 1, 5, 9, 2, 6];
    let values: Vec<BabyBear> = coset(3, bb(31)).iter().map(|x| eval(&coeffs, *x)).collect();
    let chunks = decompose(values, bb(31), 2);
    assert_eq!(chunks.len(), 4);
    let ys = coset(1, exp_u64(bb(31), 4));
    for (position, residue) in [(0usize, 0usize), (1, 2), (2, 1), (3, 3)] {
        let part = [coeffs[residue], coeffs[residue + 4]];
        let expected: Vec<BabyBear> = ys.iter().map(|y| eval(&part, *y)).collect();
        assert_eq!(chunks[position], expected);
    }
}

#[test]
fn recomposing_undoes_decomposing() {
    for (log_n, log_chunks) in [(0usize, 0usize), (1, 1), (3, 1), (3, 3), (5, 2), (6, 6)] {
        let values = scrambled(1 << log_n, 7 + log_n as u32);
        let chunks = decompose(values.clone(), bb(31), log_chunks);
        assert_eq!(chunks.len(), 1 << log_chunks);
        assert!(chunks.iter().all(|c| c.len() == 1 << (log_n - log_chunks)));
        assert_eq!(recompose(&chunks, bb(31), log_chunks), values);
    }
}

#[test]
fn decomposing_undoes_recomposing() {
    let chunks: Vec<Vec<BabyBear>> = (0..4).map(|c| scrambled(8, 100 + c)).collect();
    let values = recompose(&chunks, bb(31), 2);
    assert_eq!(values.len(), 32);
    assert_eq!(decompose(values, bb(31), 2), chunks);
}

#[test]
fn merging_evaluates_the_even_part_plus_x_times_the_odd_part() {
    let even = vec![bb(2884), bb(2013263039)];
    let odd = vec![bb(3846), bb(2013262079)];
    assert_eq!(
        merge(&even, &odd, bb(31)),
        vec![bb(122110), bb(6112042), bb(2013149579), bb(2007148115)]
    );
}

#[test]
fn the_flattened_matrix_holds_the_coefficients_of_each_part_side_by_side() {
    let values = scrambled_ext(8, 3);
    let matrix = decompose_and_flatten(values.clone(), bb(31), 1);
    assert_eq!((matrix.width(), matrix.height()), (8, 4));
    for d in 0..4 {
        let column: Vec<BabyBear> = values
            .iter()
            .map(|v| [v.c0, v.c1, v.c2, v.c3][d])
            .collect();
        let chunks = decompose(column, bb(31), 1);
        for c in 0..2 {
            for row in 0..4 {
                assert_eq!(matrix.get(row, c * 4 + d), chunks[c][row]);
            }
        }
    }
}

#[test]
fn unflattening_and_recomposing_undoes_decomposing_and_flattening() {
    for (log_n, log_chunks) in [(0usize, 0usize), (2, 0), (3, 1), (4, 2), (5, 5), (6, 3)] {
        let values = scrambled_ext(1 << log_n, 11 + log_chunks as u32);
        let matrix = decompose_and_flatten(values.clone(), bb(31), log_chunks);
        assert_eq!(matrix.width(), 4 << log_chunks);
        assert_eq!(matrix.height(), 1 << (log_n - log_chunks));
        assert_eq!(unflatten_and_recompose::<BabyBearExt4>(&matrix, bb(31), log_chunks), values);
    }
}

#[test]
fn without_chunks_flattening_lists_the_coefficients() {
    let values = vec![ext(1, 2, 3, 4), ext(5, 6, 7, 8)];
    let matrix = decompose_and_flatten(values, bb(31), 0);
    assert_eq!(matrix.width(), 4);
    assert_eq!(matrix.values, (1..=8).map(bb).collect::<Vec<_>>());
    let back = unflatten_and_recompose::<BabyBearExt4>(
        &RowMajorMatrix::new((1..=8).map(bb).collect(), 4),
        bb(31),
        0,
    );
    assert_eq!(back, vec![ext(1, 2, 3, 4), ext(5, 6, 7, 8)]);
}
