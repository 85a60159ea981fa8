//! The zerofier of the trace domain on an extended coset.

use duo_stark::baby_bear::BabyBear;
use duo_stark::field::{exp_power_of_2, exp_u64, Field};
use duo_stark::quotient::is_domain_valid;
use duo_stark::zerofier_coset::ZerofierOnCoset;

fn bb(value: u32) -> BabyBear {
    BabyBear { value }
}

/// The `i`-th point of the coset `shift * K`, `K` of order `2^log_size`.
fn point(log_size: usize, shift: BabyBear, i: usize) -> BabyBear {
    shift.mul(exp_u64(BabyBear::two_adic_generator(log_size), i as u64))
}

#[test]
fn eval_is_x_to_the_n_minus_one_at_every_coset_point() {
    for (log_n, rate_bits) in [(2usize, 1usize), (3, 0), (0, 3), (3, 2), (4, 3)] {
        let zerofier = ZerofierOnCoset::new(log_n, rate_bits, bb(31));
        assert_eq!(zerofier.coset_size(), 1 << (log_n + rate_bits));
        assert_eq!(zerofier.evals.len(), 1 << rate_bits);
        for i in 0..(1usize << (log_n + rate_bits)) {
            let x = point(log_n + rate_bits, bb(31), i);
            assert_eq!(zerofier.eval(i), exp_power_of_2(x, log_n).sub(bb(1)));
        }
    }
}

#[test]
fn eval_has_the_computed_values() {
    let zerofier = ZerofierOnCoset::new(2, 1, bb(31));
    assert_eq!(zerofier.eval(0), bb(923520));
    assert_eq!(zerofier.eval(1), bb(2012342399));
    assert_eq!(zerofier.eval(2), bb(923520));
    assert_eq!(zerofier.eval(7), bb(2012342399));
    // Beyond the coset the values go on with the same period.
    assert_eq!(zerofier.eval(8), bb(923520));
    assert_eq!(zerofier.eval(usize::MAX), bb(2012342399));
}

#[test]
fn the_inverse_agrees_with_inverting_eval() {
    let zerofier = ZerofierOnCoset::new(3, 2, bb(31));
    for i in 0..32 {
        assert_ne!(zerofier.eval(i), bb(0));
        assert_eq!(Some(zerofier.eval_inverse(i)), zerofier.eval(i).try_inverse());
    }
    for (start, width) in [(0usize, 4usize), (5, 8), (30, 6), (0, 0), (3, 1), (0, 32)] {
        let packed = zerofier.eval_inverse_packed(start, width);
        assert_eq!(packed.len(), width);
        for (j, inv) in packed.iter().enumerate() {
            assert_eq!(zerofier.eval(start + j).mul(*inv), bb(1));
            assert_eq!(*inv, zerofier.eval_inverse(start + j));
        }
    }
}

#[test]
fn the_lagrange_basis_is_the_zerofier_over_the_distance_to_the_point() {
    let (log_n, rate_bits) = (3usize, 1usize);
    let zerofier = ZerofierOnCoset::new(log_n, rate_bits, bb(31));
    let g = BabyBear::two_adic_generator(log_n);
    for point_index in [0usize, 1, 7, 8, 100] {
        let basis = zerofier.lagrange_basis_unnormalized(point_index);
        assert_eq!(basis.len(), 16);
        let target = exp_u64(g, point_index as u64);
        for (j, value) in basis.iter().enumerate() {
            let x = point(log_n + rate_bits, bb(31), j);
            assert_eq!(value.mul(x.sub(target)), zerofier.eval(j));
        }
    }
}

#[test]
fn the_first_lagrange_basis_has_the_computed_value() {
    let zerofier = ZerofierOnCoset::new(2, 1, bb(31));
    let first = zerofier.lagrange_basis_unnormalized(0);
    assert_eq!(first.len(), 8);
    assert_eq!(first[1], bb(980864660));
    assert_eq!(first[0], bb(923520).mul(bb(30).try_inverse().unwrap()));
}

#[test]
fn the_last_point_is_the_inverse_of_the_generator() {
    let zerofier = ZerofierOnCoset::new(3, 1, bb(31));
    let g_inv = BabyBear::two_adic_generator(3).try_inverse().unwrap();
    let last = zerofier.lagrange_basis_unnormalized(7);
    for (j, value) in last.iter().enumerate() {
        let x = point(4, bb(31), j);
        assert_eq!(value.mul(x.sub(g_inv)), zerofier.eval(j));
    }
}

#[test]
fn a_domain_is_valid_where_the_coset_misses_the_subgroup() {
    assert!(is_domain_valid(3, 1, bb(31)));
    assert!(is_domain_valid(0, 0, bb(31)));
    assert!(is_domain_valid(20, 7, bb(31)));
    // Above the two-adicity of the field.
    assert!(!is_domain_valid(20, 8, bb(31)));
    assert!(!is_domain_valid(usize::MAX, 1, bb(31)));
    // A shift inside the subgroup.
    assert!(!is_domain_valid(3, 1, bb(1)));
    assert!(!is_domain_valid(3, 1, BabyBear::two_adic_generator(4)));
    assert!(is_domain_valid(3, 0, BabyBear::two_adic_generator(4)));
    // Not a field element.
    assert!(!is_domain_valid(3, 1, bb(u32::MAX)));
    // Zero is no root of unity.
    assert!(is_domain_valid(3, 1, bb(0)));
}
