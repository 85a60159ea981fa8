//! The Baby Bear field and its quartic extension.

use duo_stark::baby_bear::{BabyBear, PRIME};
use duo_stark::baby_bear_quartic::BabyBearExt4;
use duo_stark::extension::{
    exp_power_of_2 as ext_exp_power_of_2, from_base, monomial, one, scale, zero, ExtensionField,
};
use duo_stark::field::{cyclic_subgroup_coset, exp_power_of_2, exp_u64, inverse, Field};
use duo_stark::util::{
    checked_pow2, copy_vec, log2_ceil_usize, log2_exact, log2_strict_usize, pow2_usize,
    reverse_bits_len,
};

fn bb(value: u32) -> BabyBear {
    BabyBear { value }
}

fn ext(c0: u32, c1: u32, c2: u32, c3: u32) -> BabyBearExt4 {
    BabyBearExt4 { c0: bb(c0), c1: bb(c1), c2: bb(c2), c3: bb(c3) }
}

#[test]
fn the_prime_is_two_to_the_31_minus_two_to_the_27_plus_one() {
    assert_eq!(PRIME as u64, (1u64 << 31) - (1u64 << 27) + 1);
    assert_eq!(BabyBear::max_two_adic_bits(), 27);
}

#[test]
fn addition_wraps_at_the_prime() {
    assert_eq!(bb(PRIME - 1).add(bb(1)), bb(0));
    assert_eq!(bb(PRIME - 1).add(bb(PRIME - 1)), bb(PRIME - 2));
    assert_eq!(bb(3).add(bb(4)), bb(7));
    assert_eq!(BabyBear::zero(), bb(0));
    assert_eq!(BabyBear::one(), bb(1));
}

#[test]
fn subtraction_wraps_below_zero() {
    assert_eq!(bb(5).sub(bb(7)), bb(2013265919));
    assert_eq!(bb(0).sub(bb(1)), bb(PRIME - 1));
    assert_eq!(bb(9).sub(bb(4)), bb(5));
}

#[test]
fn multiplication_reduces_the_product() {
    assert_eq!(bb(1 << 16).mul(bb(1 << 16)), bb(268435454));
    assert_eq!(bb(PRIME - 1).mul(bb(PRIME - 1)), bb(1));
    assert_eq!(bb(6).mul(bb(7)), bb(42));
    assert_eq!(bb(6).mul(bb(0)), bb(0));
}

#[test]
fn zero_has_no_inverse_and_every_other_element_has_one() {
    assert_eq!(bb(0).try_inverse(), None);
    assert_eq!(bb(1).try_inverse(), Some(bb(1)));
    assert_eq!(bb(2).try_inverse(), Some(bb(1006632961)));
    assert_eq!(bb(31).try_inverse(), Some(bb(64944062)));
    for v in [3u32, 1000, 123456789, PRIME - 1] {
        let inv = bb(v).try_inverse().unwrap();
        assert!(inv.is_canonical());
        assert_eq!(bb(v).mul(inv), bb(1));
        assert_eq!(inverse(bb(v)), inv);
    }
    assert_eq!(inverse(bb(2)), bb(1006632961));
}

#[test]
fn batch_inverse_inverts_each_element_in_place() {
    let xs = vec![bb(1), bb(2), bb(31), bb(PRIME - 1), bb(77)];
    let inverses = BabyBear::batch_inverse(&xs);
    assert_eq!(inverses.len(), xs.len());
    assert_eq!(inverses[1], bb(1006632961));
    assert_eq!(inverses[2], bb(64944062));
    for (x, inv) in xs.iter().zip(&inverses) {
        assert_eq!(x.mul(*inv), bb(1));
        assert_eq!(Some(*inv), x.try_inverse());
    }
    assert!(BabyBear::batch_inverse(&Vec::new()).is_empty());
}

#[test]
fn the_generators_are_those_of_the_table_and_form_a_tower() {
    assert_eq!(BabyBear::two_adic_generator(0), bb(1));
    assert_eq!(BabyBear::two_adic_generator(1), bb(0x78000000));
    assert_eq!(BabyBear::two_adic_generator(2), bb(0x67055c21));
    assert_eq!(BabyBear::two_adic_generator(3), bb(0x5ee99486));
    assert_eq!(BabyBear::two_adic_generator(27), bb(0x1a427a41));
    for bits in 0..27 {
        let g = BabyBear::two_adic_generator(bits + 1);
        assert_eq!(g.mul(g), BabyBear::two_adic_generator(bits));
    }
    assert_eq!(exp_power_of_2(BabyBear::two_adic_generator(27), 27), bb(1));
    assert_ne!(exp_power_of_2(BabyBear::two_adic_generator(27), 26), bb(1));
}

#[test]
fn equality_and_canonical_form() {
    assert!(bb(5).is_equal(bb(5)));
    assert!(!bb(5).is_equal(bb(6)));
    assert!(bb(PRIME - 1).is_canonical());
    assert!(!bb(PRIME).is_canonical());
    assert!(!bb(u32::MAX).is_canonical());
}

#[test]
fn powers() {
    assert_eq!(exp_power_of_2(bb(31), 3), bb(1279552858));
    assert_eq!(exp_power_of_2(bb(31), 0), bb(31));
    assert_eq!(exp_u64(bb(31), 8), bb(1279552858));
    assert_eq!(exp_u64(bb(31), 0), bb(1));
    assert_eq!(exp_u64(bb(2), 10), bb(1024));
    assert_eq!(exp_u64(bb(3), (PRIME - 1) as u64), bb(1));
    assert_eq!(exp_u64(bb(0), 5), bb(0));
}

#[test]
fn a_coset_is_the_shift_times_the_powers_of_the_generator() {
    let g = BabyBear::two_adic_generator(3);
    let coset = cyclic_subgroup_coset(g, bb(31), 8);
    assert_eq!(coset.len(), 8);
    assert_eq!(coset[0], bb(31));
    assert_eq!(coset[1], bb(1044970530));
    for (i, x) in coset.iter().enumerate() {
        assert_eq!(*x, bb(31).mul(exp_u64(g, i as u64)));
    }
    assert!(cyclic_subgroup_coset(g, bb(31), 0).is_empty());
}

#[test]
fn extension_addition_and_subtraction_go_by_coefficient() {
    let (a, b) = (ext(1, 2, 3, PRIME - 1), ext(5, 6, 7, 8));
    assert_eq!(a.add(b), ext(6, 8, 10, 7));
    assert_eq!(b.sub(a), ext(4, 4, 4, 9));
    assert_eq!(a.sub(b), ext(PRIME - 4, PRIME - 4, PRIME - 4, PRIME - 9));
}

#[test]
fn extension_multiplication_reduces_by_x_to_the_fourth_equals_eleven() {
    assert_eq!(ext(1, 2, 3, 4).mul(ext(5, 6, 7, 8)), ext(676, 588, 386, 60));
    assert_eq!(ext(0, 1, 0, 0).mul(ext(0, 0, 0, 1)), ext(11, 0, 0, 0));
    assert_eq!(ext(0, 0, 1, 0).mul(ext(0, 0, 1, 0)), ext(11, 0, 0, 0));
    assert_eq!(ext(0, 1, 0, 0).mul(ext(0, 1, 0, 0)), ext(0, 0, 1, 0));
    assert_eq!(ext(7, 8, 9, 10).mul(one::<BabyBearExt4>()), ext(7, 8, 9, 10));
    assert_eq!(ext(7, 8, 9, 10).mul(zero::<BabyBearExt4>()), ext(0, 0, 0, 0));
}

#[test]
fn extension_inverse() {
    assert_eq!(zero::<BabyBearExt4>().try_inverse(), None);
    assert_eq!(one::<BabyBearExt4>().try_inverse(), Some(ext(1, 0, 0, 0)));
    assert_eq!(ext(2, 0, 0, 0).try_inverse(), Some(ext(1006632961, 0, 0, 0)));
    for a in [ext(1, 2, 3, 4), ext(0, 1, 0, 0), ext(PRIME - 1, 0, 5, 0)] {
        let inv = a.try_inverse().unwrap();
        assert!(inv.is_canonical());
        assert_eq!(a.mul(inv), ext(1, 0, 0, 0));
    }
}

#[test]
fn extension_coefficients() {
    let a = ext(1, 2, 3, 4);
    assert_eq!(BabyBearExt4::degree(), 4);
    assert_eq!(a.as_base_slice(), vec![bb(1), bb(2), bb(3), bb(4)]);
    assert_eq!(BabyBearExt4::from_base_slice(&vec![bb(1), bb(2), bb(3), bb(4)]), a);
    assert_eq!(from_base::<BabyBearExt4>(bb(9)), ext(9, 0, 0, 0));
    assert_eq!(zero::<BabyBearExt4>(), ext(0, 0, 0, 0));
    assert_eq!(one::<BabyBearExt4>(), ext(1, 0, 0, 0));
    assert_eq!(monomial::<BabyBearExt4>(0), ext(1, 0, 0, 0));
    assert_eq!(monomial::<BabyBearExt4>(2), ext(0, 0, 1, 0));
    assert_eq!(monomial::<BabyBearExt4>(3), ext(0, 0, 0, 1));
    assert_eq!(scale(a, bb(3)), ext(3, 6, 9, 12));
    assert_eq!(scale(a, bb(PRIME - 1)), ext(PRIME - 1, PRIME - 2, PRIME - 3, PRIME - 4));
    assert!(a.is_equal(a));
    assert!(!a.is_equal(ext(1, 2, 3, 5)));
    assert!(a.is_canonical());
    assert!(!ext(1, 2, PRIME, 4).is_canonical());
}

#[test]
fn extension_squarings() {
    let x = ext(0, 1, 0, 0);
    assert_eq!(ext_exp_power_of_2(x, 0), x);
    assert_eq!(ext_exp_power_of_2(x, 1), ext(0, 0, 1, 0));
    assert_eq!(ext_exp_power_of_2(x, 2), ext(11, 0, 0, 0));
    assert_eq!(ext_exp_power_of_2(x, 3), ext(121, 0, 0, 0));
    assert_eq!(copy_vec(&vec![x, x.add(x)]), vec![x, ext(0, 2, 0, 0)]);
}

#[test]
fn binary_logarithms() {
    assert_eq!(log2_strict_usize(1), Some(0));
    assert_eq!(log2_strict_usize(8), Some(3));
    assert_eq!(log2_strict_usize(1 << 20), Some(20));
    assert_eq!(log2_strict_usize(0), None);
    assert_eq!(log2_strict_usize(6), None);
    assert_eq!(log2_strict_usize(usize::MAX), None);
    assert_eq!(log2_exact(1), 0);
    assert_eq!(log2_exact(64), 6);
    assert_eq!(log2_ceil_usize(0), 0);
    assert_eq!(log2_ceil_usize(1), 0);
    assert_eq!(log2_ceil_usize(2), 1);
    assert_eq!(log2_ceil_usize(3), 2);
    assert_eq!(log2_ceil_usize(4), 2);
    assert_eq!(log2_ceil_usize(5), 3);
    assert_eq!(log2_ceil_usize(1025), 11);
}

#[test]
fn powers_of_two() {
    assert_eq!(pow2_usize(0), 1);
    assert_eq!(pow2_usize(10), 1024);
    assert_eq!(checked_pow2(0), Some(1));
    assert_eq!(checked_pow2(5), Some(32));
    assert_eq!(checked_pow2(usize::BITS as usize - 1), Some(1 << (usize::BITS - 1)));
    assert_eq!(checked_pow2(usize::BITS as usize), None);
    assert_eq!(checked_pow2(1000), None);
}

#[test]
fn bit_reversal() {
    let reversed: Vec<usize> = (0..8).map(|i| reverse_bits_len(i, 3)).collect();
    assert_eq!(reversed, vec![0, 4, 2, 6, 1, 5, 3, 7]);
    assert_eq!(reverse_bits_len(0, 0), 0);
    assert_eq!(reverse_bits_len(1, 1), 1);
    assert_eq!(reverse_bits_len(1, 2), 2);
    assert_eq!(reverse_bits_len(1, 10), 512);
}
