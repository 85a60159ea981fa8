//! Powers of two and binary logarithms of machine integers, and copies of
//! vectors.
use vstd::arithmetic::power2::{lemma2_to64, lemma_pow2_strictly_increases, lemma_pow2_unfold, pow2};
use vstd::prelude::*;

verus! {

/// `n` is a power of two.
pub open spec fn is_power_of_two(n: nat) -> bool {
    exists|k: nat| pow2(k) == n
}

/// The binary logarithm of a power of two.
pub open spec fn log2_spec(n: nat) -> nat {
    choose|k: nat| pow2(k) == n
}

pub proof fn lemma_log2_pow2(k: nat)
    ensures
        log2_spec(pow2(k)) == k,
{
    let l = log2_spec(pow2(k));
    assert(pow2(l) == pow2(k));
    if l < k {
        lemma_pow2_strictly_increases(l, k);
    }
    if k < l {
        lemma_pow2_strictly_increases(k, l);
    }
}

/// Only a power of two below `2^64` fits a machine word.
pub proof fn lemma_pow2_fits(bits: nat)
    requires
        pow2(bits) <= usize::MAX,
    ensures
        bits < 64,
{
    lemma2_to64();
    if bits > 64 {
        lemma_pow2_strictly_increases(64, bits);
    }
}

/// `2^bits`, where it fits.
pub fn pow2_usize(bits: usize) -> (r: usize)
    requires
        pow2(bits as nat) <= usize::MAX,
    ensures
        r == pow2(bits as nat),
{
    let mut r: usize = 1;
    let mut i: usize = 0;
    proof {
        lemma2_to64();
    }
    while i < bits
        invariant
            i <= bits,
            r == pow2(i as nat),
            pow2(bits as nat) <= usize::MAX,
        decreases bits - i,
    {
        proof {
            lemma_pow2_unfold((i + 1) as nat);
            if i + 1 < bits {
                lemma_pow2_strictly_increases((i + 1) as nat, bits as nat);
            }
        }
        r = r * 2;
        i += 1;
    }
    r
}

/// `2^bits` if it fits.
pub fn checked_pow2(bits: usize) -> (r: Option<usize>)
    ensures
        r is Some <==> pow2(bits as nat) <= usize::MAX,
        r matches Some(p) ==> p == pow2(bits as nat),
{
    let mut p: usize = 1;
    let mut i: usize = 0;
    proof {
        lemma2_to64();
    }
    while i < bits
        invariant
            i <= bits,
            p == pow2(i as nat),
        decreases bits - i,
    {
        proof {
            lemma_pow2_unfold((i + 1) as nat);
        }
        if p > usize::MAX / 2 {
            proof {
                if i + 1 < bits {
                    lemma_pow2_strictly_increases((i + 1) as nat, bits as nat);
                }
            }
            return None;
        }
        p = p * 2;
        i += 1;
    }
    Some(p)
}

/// The number whose `bits` lowest binary digits are those of `x` in reverse
/// order.
pub open spec fn reverse_bits_spec(x: nat, bits: nat) -> nat
    decreases bits,
{
    if bits == 0 {
        0
    } else {
        (x % 2) * pow2((bits - 1) as nat) + reverse_bits_spec(x / 2, (bits - 1) as nat)
    }
}

/// The reverse of a number below `2^bits` is below `2^bits`.
pub proof fn lemma_reverse_bits_bound(x: nat, bits: nat)
    ensures
        reverse_bits_spec(x, bits) < pow2(bits),
    decreases bits,
{
    lemma2_to64();
    if bits > 0 {
        let p = pow2((bits - 1) as nat);
        lemma_reverse_bits_bound(x / 2, (bits - 1) as nat);
        lemma_pow2_unfold(bits);
        assert((x % 2) * p <= p) by (nonlinear_arith)
            requires
                x % 2 <= 1,
        ;
    }
}

/// `p3_util::reverse_bits_len`: `x` with its `bit_len` lowest binary digits
/// in reverse order.
#[verifier::external_body]
fn reverse_bits(x: usize, bit_len: usize) -> (r: usize)
    requires
        bit_len <= usize::BITS,
        x < pow2(bit_len as nat),
    ensures
        r == reverse_bits_spec(x as nat, bit_len as nat),
{
    p3_util::reverse_bits_len(x, bit_len)
}

/// `x` with its `bit_len` lowest binary digits in reverse order.
pub fn reverse_bits_len(x: usize, bit_len: usize) -> (r: usize)
    requires
        pow2(bit_len as nat) <= usize::MAX,
        x < pow2(bit_len as nat),
    ensures
        r == reverse_bits_spec(x as nat, bit_len as nat),
        r < pow2(bit_len as nat),
{
    proof {
        lemma_pow2_fits(bit_len as nat);
        lemma_reverse_bits_bound(x as nat, bit_len as nat);
        lemma2_to64();
        if usize::BITS == 32 && bit_len > 32 {
            lemma_pow2_strictly_increases(32, bit_len as nat);
        }
    }
    reverse_bits(x, bit_len)
}

/// `p3_util::log2_strict_usize`: the binary logarithm of a power of two. It
/// panics on any other number, which the precondition excludes.
#[verifier::external_body]
fn strict_log2(n: usize) -> (r: usize)
    requires
        is_power_of_two(n as nat),
    ensures
        pow2(r as nat) == n,
{
    p3_util::log2_strict_usize(n)
}

/// `k` is the least exponent with `n <= 2^k`.
pub open spec fn is_log2_ceil(n: nat, k: nat) -> bool {
    n <= pow2(k) && (k > 0 ==> pow2((k - 1) as nat) < n)
}

/// The binary logarithm of `n`, rounded up.
pub open spec fn log2_ceil_spec(n: nat) -> nat {
    choose|k: nat| is_log2_ceil(n, k)
}

/// There is one least exponent.
pub proof fn lemma_log2_ceil_unique(n: nat, k: nat)
    requires
        is_log2_ceil(n, k),
    ensures
        log2_ceil_spec(n) == k,
{
    let l = log2_ceil_spec(n);
    if l < k {
        if l < k - 1 {
            lemma_pow2_strictly_increases(l, (k - 1) as nat);
        }
    }
    if k < l {
        if k < l - 1 {
            lemma_pow2_strictly_increases(k, (l - 1) as nat);
        }
    }
}

/// `p3_util::log2_ceil_usize`: the least `k` with `n <= 2^k`.
#[verifier::external_body]
fn ceil_log2(n: usize) -> (r: usize)
    requires
        n >= 1,
    ensures
        is_log2_ceil(n as nat, r as nat),
        r <= usize::BITS,
{
    p3_util::log2_ceil_usize(n)
}

/// The binary logarithm of `n`, rounded up; 0 for 0.
pub fn log2_ceil_usize(n: usize) -> (r: usize)
    ensures
        r == log2_ceil_spec(n as nat),
        is_log2_ceil(n as nat, r as nat),
        r <= usize::BITS,
{
    if n == 0 {
        proof {
            lemma2_to64();
            lemma_log2_ceil_unique(0, 0);
        }
        0
    } else {
        let r = ceil_log2(n);
        proof {
            lemma_log2_ceil_unique(n as nat, r as nat);
        }
        r
    }
}

/// The binary logarithm of a power of two.
pub fn log2_exact(n: usize) -> (r: usize)
    requires
        is_power_of_two(n as nat),
    ensures
        r == log2_spec(n as nat),
        pow2(r as nat) == n,
{
    let r = strict_log2(n);
    proof {
        lemma_log2_pow2(r as nat);
    }
    r
}

/// The binary logarithm of `n` if `n` is a power of two.
pub fn log2_strict_usize(n: usize) -> (r: Option<usize>)
    ensures
        r is Some <==> is_power_of_two(n as nat),
        r matches Some(k) ==> pow2(k as nat) == n,
{
    if n != 0 && n & (n - 1) == 0 {
        proof {
            lemma_single_bit(n);
        }
        Some(strict_log2(n))
    } else {
        proof {
            if is_power_of_two(n as nat) {
                let k = choose|k: nat| pow2(k) == n;
                lemma_power_has_single_bit(k, n);
            }
        }
        None
    }
}

/// A nonzero number that shares no bit with its predecessor is a power of two.
proof fn lemma_single_bit(n: usize)
    requires
        n != 0,
        n & ((n - 1) as usize) == 0,
    ensures
        is_power_of_two(n as nat),
{
    let m = n as u64;
    assert(m & ((m - 1) as u64) == 0) by (bit_vector)
        requires
            m == n as u64,
            n != 0,
            n & ((n - 1) as usize) == 0,
    ;
    lemma_single_bit_u64(m, 64);
}

/// Induction on the position of the single bit.
proof fn lemma_single_bit_u64(m: u64, width: nat)
    requires
        m != 0,
        m & ((m - 1) as u64) == 0,
        width <= 64,
        width < 64 ==> m < pow2(width),
    ensures
        is_power_of_two(m as nat),
    decreases width,
{
    lemma2_to64();
    if m == 1 {
        assert(pow2(0) == 1);
    } else {
        assert(m % 2 == 0 && (m / 2) != 0 && (m / 2) & (((m / 2) - 1) as u64) == 0) by (bit_vector)
            requires
                m != 0,
                m != 1,
                m & ((m - 1) as u64) == 0,
        ;
        if width == 0 {
            assert(false);
        } else {
            let w = (width - 1) as nat;
            lemma_pow2_unfold(width);
            assert(w < 64 ==> m / 2 < pow2(w)) by {
                if width == 64 {
                    assert(pow2(63) == 0x8000000000000000) by {
                        lemma_pow2_unfold(64);
                    }
                }
            }
            lemma_single_bit_u64(m / 2, w);
            let k = choose|k: nat| pow2(k) == (m / 2) as nat;
            lemma_pow2_unfold(k + 1);
            assert(pow2(k + 1) == m as nat);
        }
    }
}

/// A power of two shares no bit with its predecessor.
proof fn lemma_power_has_single_bit(k: nat, n: usize)
    requires
        pow2(k) == n,
    ensures
        n != 0,
        n & ((n - 1) as usize) == 0,
    decreases k,
{
    lemma2_to64();
    if k == 0 {
        assert(1usize & 0usize == 0) by (bit_vector);
    } else {
        lemma_pow2_unfold(k);
        let h = (n / 2) as usize;
        assert(pow2((k - 1) as nat) == h);
        lemma_power_has_single_bit((k - 1) as nat, h);
        assert(n & ((n - 1) as usize) == 0) by (bit_vector)
            requires
                h != 0,
                h & ((h - 1) as usize) == 0,
                n == 2 * h,
        ;
    }
}

/// A copy of the vector.
pub fn copy_vec<T: Copy>(v: &Vec<T>) -> (r: Vec<T>)
    ensures
        r@ == v@,
{
    let mut r: Vec<T> = Vec::new();
    let mut i: usize = 0;
    while i < v.len()
        invariant
            i <= v@.len(),
            r@ == v@.subrange(0, i as int),
        decreases v@.len() - i,
    {
        r.push(v[i]);
        proof {
            assert(r@ =~= v@.subrange(0, i + 1));
        }
        i += 1;
    }
    proof {
        assert(r@ =~= v@);
    }
    r
}

} // verus!
