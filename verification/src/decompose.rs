//! The even-odd decomposition of a polynomial, given by its values on a
//! coset, into `2^log_chunks` polynomials of lower degree, and its inverse.
//!
//! A polynomial `p` splits as `p(x) = p_e(x^2) + x p_o(x^2)`. On the coset
//! `s <g>` of `2 m` points, `-x_i = x_(i + m)`, so the values of `p_e` and
//! `p_o` on the coset `s^2 <g^2>` are
//! `p_e(x_i^2) = (p(x_i) + p(x_(i + m))) / 2` and
//! `p_o(x_i^2) = (p(x_i) - p(x_(i + m))) / (2 x_i)`.
use crate::field::{
    all_wf, coset_point, inverse, invertible, lemma_coset_point_inverse, lemma_generator_nonzero,
    lemma_product_nonzero, lemma_split_merge, pow, two_spec, Field,
};
use crate::util::{
    is_power_of_two, lemma_log2_pow2, lemma_pow2_fits, log2_exact, log2_spec, pow2_usize,
};
use vstd::arithmetic::div_mod::lemma_div_multiples_vanish;
use vstd::arithmetic::mul::lemma_mul_is_commutative;
use vstd::arithmetic::power2::{
    lemma2_to64, lemma_pow2_adds, lemma_pow2_pos, lemma_pow2_unfold, pow2,
};
use vstd::prelude::*;

verus! {

/// The values of the even part `p_e` on the squared coset.
pub open spec fn even_part<F: Field>(poly: Seq<F>) -> Seq<F> {
    let half = poly.len() / 2;
    Seq::new(
        half,
        |i: int| poly[i].add_spec(poly[half + i]).mul_spec(two_spec::<F>().inv_spec()),
    )
}

/// The values of the odd part `p_o` on the squared coset, for values of `p`
/// on the coset `shift <g>`.
pub open spec fn odd_part<F: Field>(poly: Seq<F>, shift: F) -> Seq<F> {
    let half = poly.len() / 2;
    let g_inv = F::generator_spec(log2_spec(poly.len())).inv_spec();
    Seq::new(
        half,
        |i: int|
            poly[i].sub_spec(poly[half + i]).mul_spec(two_spec::<F>().inv_spec()).mul_spec(
                coset_point(shift.inv_spec(), g_inv, i as nat),
            ),
    )
}

/// The values of the `2^log_chunks` parts of the polynomial with the values
/// `poly` on the coset `shift <g>`; the parts of the even part come first.
pub open spec fn decompose_spec<F: Field>(poly: Seq<F>, shift: F, log_chunks: nat) -> Seq<Seq<F>>
    decreases log_chunks,
{
    if log_chunks == 0 {
        seq![poly]
    } else {
        let shift_squared = shift.mul_spec(shift);
        decompose_spec(even_part(poly), shift_squared, (log_chunks - 1) as nat) + decompose_spec(
            odd_part(poly, shift),
            shift_squared,
            (log_chunks - 1) as nat,
        )
    }
}

/// The values on the coset `shift <g>` of the polynomial with the even part
/// `even` and the odd part `odd`.
pub open spec fn merge_parts<F: Field>(even: Seq<F>, odd: Seq<F>, shift: F) -> Seq<F> {
    let half = even.len();
    let g = F::generator_spec(log2_spec(2 * half));
    Seq::new(
        2 * half,
        |i: int|
            if i < half {
                even[i].add_spec(coset_point(shift, g, i as nat).mul_spec(odd[i]))
            } else {
                even[i - half].sub_spec(
                    coset_point(shift, g, (i - half) as nat).mul_spec(odd[i - half]),
                )
            },
    )
}

/// The values on the coset `shift <g>` of the polynomial with the parts
/// `chunks`: the inverse of `decompose_spec`.
pub open spec fn recompose_spec<F: Field>(chunks: Seq<Seq<F>>, shift: F, log_chunks: nat) -> Seq<F>
    decreases log_chunks,
{
    if log_chunks == 0 {
        chunks[0]
    } else {
        let half = chunks.len() / 2;
        let shift_squared = shift.mul_spec(shift);
        merge_parts(
            recompose_spec(chunks.subrange(0, half as int), shift_squared, (log_chunks - 1) as nat),
            recompose_spec(
                chunks.subrange(half as int, chunks.len() as int),
                shift_squared,
                (log_chunks - 1) as nat,
            ),
            shift,
        )
    }
}

/// The vectors as sequences.
pub open spec fn views<T>(chunks: Seq<Vec<T>>) -> Seq<Seq<T>> {
    Seq::new(chunks.len(), |i: int| chunks[i]@)
}

/// Merging the even and the odd part of `poly` gives `poly` back.
pub proof fn lemma_merge_parts<F: Field>(poly: Seq<F>, log_n: nat, shift: F)
    requires
        log_n >= 1,
        poly.len() == pow2(log_n),
        all_wf(poly),
        invertible(two_spec::<F>()),
        invertible(shift),
        invertible(F::generator_spec(log_n)),
    ensures
        merge_parts(even_part(poly), odd_part(poly, shift), shift) =~= poly,
{
    let half = poly.len() / 2;
    let g = F::generator_spec(log_n);
    lemma_pow2_unfold(log_n);
    lemma_log2_pow2(log_n);
    let merged = merge_parts(even_part(poly), odd_part(poly, shift), shift);
    assert(2 * half == poly.len());
    assert forall|i: int| 0 <= i < poly.len() implies merged[i] == poly[i] by {
        let j = if i < half {
            i
        } else {
            i - half
        };
        lemma_coset_point_inverse(shift, shift.inv_spec(), g, g.inv_spec(), j as nat);
        lemma_split_merge(
            poly[j],
            poly[half + j],
            two_spec::<F>().inv_spec(),
            coset_point(shift, g, j as nat),
            coset_point(shift.inv_spec(), g.inv_spec(), j as nat),
        );
    }
}

/// Every element that the decomposition divides by has its inverse: 2, the
/// shift and the generator, on each of its `log_chunks` levels.
pub open spec fn divisors_invertible<F: Field>(shift: F, log_n: nat, log_chunks: nat) -> bool
    decreases log_chunks,
{
    log_chunks == 0 || {
        &&& invertible(two_spec::<F>())
        &&& invertible(shift)
        &&& invertible(F::generator_spec(log_n))
        &&& divisors_invertible(
            shift.mul_spec(shift),
            (log_n - 1) as nat,
            (log_chunks - 1) as nat,
        )
    }
}

/// The two parts have half the length, and their values are well-formed.
pub proof fn lemma_parts<F: Field>(poly: Seq<F>, log_n: nat, shift: F)
    requires
        log_n >= 1,
        poly.len() == pow2(log_n),
    ensures
        even_part(poly).len() == pow2((log_n - 1) as nat),
        odd_part(poly, shift).len() == pow2((log_n - 1) as nat),
        all_wf(even_part(poly)),
        all_wf(odd_part(poly, shift)),
{
    let half = poly.len() / 2;
    lemma_pow2_unfold(log_n);
    assert forall|i: int| 0 <= i < half implies (#[trigger] even_part(poly)[i]).wf() by {
        F::lemma_closed(poly[i].add_spec(poly[half + i]), two_spec::<F>().inv_spec());
    }
    assert forall|i: int| 0 <= i < half implies (#[trigger] odd_part(poly, shift)[i]).wf() by {
        let g_inv = F::generator_spec(log2_spec(poly.len())).inv_spec();
        F::lemma_closed(
            poly[i].sub_spec(poly[half + i]).mul_spec(two_spec::<F>().inv_spec()),
            coset_point(shift.inv_spec(), g_inv, i as nat),
        );
    }
}

/// A polynomial given by `2^log_n` values has `2^log_chunks` parts of
/// `2^(log_n - log_chunks)` values.
pub proof fn lemma_decompose_shape<F: Field>(poly: Seq<F>, log_n: nat, shift: F, log_chunks: nat)
    requires
        poly.len() == pow2(log_n),
        log_chunks <= log_n,
    ensures
        decompose_spec(poly, shift, log_chunks).len() == pow2(log_chunks),
        forall|c: int|
            0 <= c < pow2(log_chunks) ==> (#[trigger] decompose_spec(poly, shift, log_chunks)[c]).len()
                == pow2((log_n - log_chunks) as nat),
    decreases log_chunks,
{
    lemma2_to64();
    if log_chunks > 0 {
        let lower = (log_chunks - 1) as nat;
        let squared = shift.mul_spec(shift);
        let first = decompose_spec(even_part(poly), squared, lower);
        let second = decompose_spec(odd_part(poly, shift), squared, lower);
        lemma_parts(poly, log_n, shift);
        lemma_pow2_unfold(log_chunks);
        lemma_decompose_shape(even_part(poly), (log_n - 1) as nat, squared, lower);
        lemma_decompose_shape(odd_part(poly, shift), (log_n - 1) as nat, squared, lower);
        assert forall|c: int| 0 <= c < pow2(log_chunks) implies (#[trigger] decompose_spec(
            poly,
            shift,
            log_chunks,
        )[c]).len() == pow2((log_n - log_chunks) as nat) by {
            if c < first.len() {
                assert((first + second)[c] == first[c]);
            } else {
                assert((first + second)[c] == second[c - first.len()]);
            }
        }
    }
}

/// Recomposing the parts of a polynomial gives the polynomial back, where
/// every element that the decomposition divides by has its inverse.
pub proof fn lemma_decompose_round_trip<F: Field>(
    poly: Seq<F>,
    log_n: nat,
    shift: F,
    log_chunks: nat,
)
    requires
        poly.len() == pow2(log_n),
        log_chunks <= log_n,
        all_wf(poly),
        divisors_invertible(shift, log_n, log_chunks),
    ensures
        recompose_spec(decompose_spec(poly, shift, log_chunks), shift, log_chunks) == poly,
    decreases log_chunks,
{
    if log_chunks > 0 {
        let lower = (log_chunks - 1) as nat;
        let squared = shift.mul_spec(shift);
        let first = decompose_spec(even_part(poly), squared, lower);
        let second = decompose_spec(odd_part(poly, shift), squared, lower);
        let whole = first + second;
        lemma_parts(poly, log_n, shift);
        lemma_pow2_unfold(log_chunks);
        lemma_decompose_shape(even_part(poly), (log_n - 1) as nat, squared, lower);
        lemma_decompose_shape(odd_part(poly, shift), (log_n - 1) as nat, squared, lower);
        lemma_decompose_round_trip(even_part(poly), (log_n - 1) as nat, squared, lower);
        lemma_decompose_round_trip(odd_part(poly, shift), (log_n - 1) as nat, squared, lower);
        assert(whole.len() / 2 == first.len());
        assert(whole.subrange(0, first.len() as int) =~= first);
        assert(whole.subrange(first.len() as int, whole.len() as int) =~= second);
        lemma_merge_parts(poly, log_n, shift);
    }
}

/// Decomposes the polynomial with the values `poly` on the coset `shift <g>`
/// into `2^log_chunks` polynomials, each by its values on the coset
/// `shift^(2^log_chunks) <g^(2^log_chunks)>`.
pub fn decompose<F: Field>(poly: Vec<F>, shift: F, log_chunks: usize) -> (r: Vec<Vec<F>>)
    requires
        is_power_of_two(poly@.len()),
        log_chunks <= log2_spec(poly@.len()) <= F::two_adicity(),
        all_wf(poly@),
        shift.wf(),
        shift != F::zero_spec(),
    ensures
        views(r@) == decompose_spec(poly@, shift, log_chunks as nat),
        recompose_spec(views(r@), shift, log_chunks as nat) == poly@,
        r@.len() == pow2(log_chunks as nat),
        forall|c: int|
            0 <= c < r@.len() ==> (#[trigger] r@[c])@.len() * pow2(log_chunks as nat)
                == poly@.len() && all_wf(r@[c]@),
        forall|c: int|
            0 <= c < r@.len() ==> (#[trigger] r@[c])@.len() == poly@.len() / pow2(
                log_chunks as nat,
            ),
    decreases log_chunks,
{
    let r = decompose_parts(poly, shift, log_chunks);
    proof {
        lemma_pow2_pos(log_chunks as nat);
        assert forall|c: int| 0 <= c < r@.len() implies (#[trigger] r@[c])@.len() == poly@.len()
            / pow2(log_chunks as nat) by {
            lemma_div_multiples_vanish(
                r@[c]@.len() as int,
                pow2(log_chunks as nat) as int,
            );
            lemma_mul_is_commutative(
                r@[c]@.len() as int,
                pow2(log_chunks as nat) as int,
            );
        }
    }
    r
}

/// The recursion of `decompose`.
fn decompose_parts<F: Field>(poly: Vec<F>, shift: F, log_chunks: usize) -> (r: Vec<Vec<F>>)
    requires
        is_power_of_two(poly@.len()),
        log_chunks <= log2_spec(poly@.len()) <= F::two_adicity(),
        all_wf(poly@),
        shift.wf(),
        shift != F::zero_spec(),
    ensures
        views(r@) == decompose_spec(poly@, shift, log_chunks as nat),
        recompose_spec(views(r@), shift, log_chunks as nat) == poly@,
        r@.len() == pow2(log_chunks as nat),
        forall|c: int|
            0 <= c < r@.len() ==> (#[trigger] r@[c])@.len() * pow2(log_chunks as nat)
                == poly@.len() && all_wf(r@[c]@),
    decreases log_chunks,
{
    let ghost log_n = log2_spec(poly@.len());
    proof {
        lemma2_to64();
        lemma_pow2_pos(log_n);
    }
    if log_chunks == 0 {
        let ghost original = poly@;
        let r = vec![poly];
        proof {
            assert(views(r@) =~= seq![original]);
        }
        return r;
    }
    let n = poly.len();
    let half_n = n / 2;
    let log_size = log2_exact(n);
    proof {
        lemma_pow2_unfold(log_n);
        lemma_pow2_unfold(log_chunks as nat);
        F::lemma_generator(log_n);
        lemma_generator_nonzero::<F>(log_n);
        F::lemma_constants();
        F::lemma_closed(F::one_spec(), F::one_spec());
    }
    let g = F::two_adic_generator(log_size);
    let two = F::one().add(F::one());
    let g_inv = inverse(g);
    let one_half = inverse(two);
    let shift_inv = inverse(shift);
    let mut even: Vec<F> = Vec::new();
    let mut odd: Vec<F> = Vec::new();
    let mut g_inv_power = shift_inv;
    let mut i: usize = 0;
    proof {
        F::lemma_mul_one(shift_inv);
    }
    while i < half_n
        invariant
            i <= half_n,
            n == poly@.len(),
            n == 2 * half_n,
            all_wf(poly@),
            log_n == log2_spec(poly@.len()),
            g_inv == F::generator_spec(log_n).inv_spec(),
            one_half == two_spec::<F>().inv_spec(),
            shift_inv == shift.inv_spec(),
            g_inv.wf(),
            one_half.wf(),
            g_inv_power.wf(),
            g_inv_power == coset_point(shift_inv, g_inv, i as nat),
            even@.len() == i,
            odd@.len() == i,
            all_wf(even@),
            all_wf(odd@),
            forall|j: int| 0 <= j < i ==> #[trigger] even@[j] == even_part(poly@)[j],
            forall|j: int| 0 <= j < i ==> #[trigger] odd@[j] == odd_part(poly@, shift)[j],
        decreases half_n - i,
    {
        let a = poly[i];
        let b = poly[half_n + i];
        proof {
            F::lemma_closed(a, b);
            F::lemma_closed(a.add_spec(b), one_half);
            F::lemma_closed(a.sub_spec(b), one_half);
            F::lemma_closed(a.sub_spec(b).mul_spec(one_half), g_inv_power);
            F::lemma_closed(g_inv_power, g_inv);
            F::lemma_mul_assoc(shift_inv, pow(g_inv, i as nat), g_inv);
            F::lemma_mul_comm(pow(g_inv, i as nat), g_inv);
        }
        even.push(a.add(b).mul(one_half));
        odd.push(a.sub(b).mul(one_half).mul(g_inv_power));
        g_inv_power = g_inv_power.mul(g_inv);
        i += 1;
    }
    proof {
        assert(even@ =~= even_part(poly@));
        assert(odd@ =~= odd_part(poly@, shift));
        assert(half_n == pow2((log_n - 1) as nat));
        lemma_log2_pow2((log_n - 1) as nat);
        lemma_product_nonzero(shift, shift, shift_inv, shift_inv);
        F::lemma_closed(shift, shift);
        lemma_merge_parts(poly@, log_n, shift);
    }
    let shift_squared = shift.mul(shift);
    let mut combined = decompose_parts(even, shift_squared, log_chunks - 1);
    let mut rest = decompose_parts(odd, shift_squared, log_chunks - 1);
    let ghost first = combined@;
    let ghost second = rest@;
    combined.append(&mut rest);
    proof {
        let lower = (log_chunks - 1) as nat;
        assert(views(combined@) =~= views(first) + views(second));
        assert(views(combined@).subrange(0, (combined@.len() / 2) as int) =~= views(first));
        assert(views(combined@).subrange(
            (combined@.len() / 2) as int,
            combined@.len() as int,
        ) =~= views(second));
        assert forall|c: int| 0 <= c < combined@.len() implies (#[trigger] combined@[c])@.len()
            * pow2(log_chunks as nat) == poly@.len() && all_wf(combined@[c]@) by {
            let chunk = if c < first.len() {
                first[c]
            } else {
                second[c - first.len()]
            };
            assert(combined@[c] == chunk);
            assert(chunk@.len() * pow2(lower) == half_n);
            assert(chunk@.len() * (2 * pow2(lower)) == 2 * (chunk@.len() * pow2(lower)))
                by (nonlinear_arith);
        }
    }
    combined
}

/// The values on the coset `shift <g>` of the polynomial with the even part
/// `even` and the odd part `odd`, both given on the squared coset.
pub fn merge<F: Field>(even: &Vec<F>, odd: &Vec<F>, shift: F) -> (r: Vec<F>)
    requires
        even@.len() == odd@.len(),
        is_power_of_two(2 * even@.len()),
        log2_spec(2 * even@.len()) <= F::two_adicity(),
        2 * even@.len() <= usize::MAX,
        all_wf(even@),
        all_wf(odd@),
        shift.wf(),
    ensures
        r@ == merge_parts(even@, odd@, shift),
        r@.len() == 2 * even@.len(),
        all_wf(r@),
{
    let half = even.len();
    let log_size = log2_exact(2 * half);
    proof {
        F::lemma_generator(log_size as nat);
        F::lemma_mul_one(shift);
    }
    let g = F::two_adic_generator(log_size);
    let mut low: Vec<F> = Vec::new();
    let mut high: Vec<F> = Vec::new();
    let mut point = shift;
    let mut i: usize = 0;
    while i < half
        invariant
            i <= half,
            half == even@.len(),
            half == odd@.len(),
            all_wf(even@),
            all_wf(odd@),
            g == F::generator_spec(log2_spec(2 * half as nat)),
            g.wf(),
            point.wf(),
            point == coset_point(shift, g, i as nat),
            low@.len() == i,
            high@.len() == i,
            all_wf(low@),
            all_wf(high@),
            forall|j: int| 0 <= j < i ==> #[trigger] low@[j] == merge_parts(even@, odd@, shift)[j],
            forall|j: int|
                0 <= j < i ==> #[trigger] high@[j] == merge_parts(even@, odd@, shift)[half + j],
        decreases half - i,
    {
        let e = even[i];
        let o = odd[i];
        proof {
            F::lemma_closed(point, o);
            F::lemma_closed(e, point.mul_spec(o));
            F::lemma_closed(point, g);
            F::lemma_mul_assoc(shift, pow(g, i as nat), g);
            F::lemma_mul_comm(pow(g, i as nat), g);
        }
        let t = point.mul(o);
        low.push(e.add(t));
        high.push(e.sub(t));
        point = point.mul(g);
        i += 1;
    }
    let ghost first = low@;
    low.append(&mut high);
    proof {
        assert(low@ =~= merge_parts(even@, odd@, shift));
    }
    low
}

/// The chunks `start .. start + 2^log_chunks` recombined.
fn recompose_range<F: Field>(
    chunks: &Vec<Vec<F>>,
    start: usize,
    shift: F,
    log_chunks: usize,
    Ghost(log_len): Ghost<nat>,
) -> (r: Vec<F>)
    requires
        start + pow2(log_chunks as nat) <= chunks@.len(),
        forall|c: int|
            0 <= c < chunks@.len() ==> (#[trigger] chunks@[c])@.len() == pow2(log_len) && all_wf(
                chunks@[c]@,
            ),
        log_len + log_chunks <= F::two_adicity(),
        pow2(log_len + log_chunks as nat) <= usize::MAX,
        shift.wf(),
    ensures
        r@ == recompose_spec(
            views(chunks@).subrange(start as int, start + pow2(log_chunks as nat)),
            shift,
            log_chunks as nat,
        ),
        r@.len() == pow2(log_len + log_chunks as nat),
        all_wf(r@),
    decreases log_chunks,
{
    proof {
        lemma2_to64();
    }
    if log_chunks == 0 {
        let chunk = &chunks[start];
        let mut r: Vec<F> = Vec::new();
        let mut i: usize = 0;
        while i < chunk.len()
            invariant
                i <= chunk@.len(),
                r@ == chunk@.subrange(0, i as int),
            decreases chunk@.len() - i,
        {
            r.push(chunk[i]);
            proof {
                assert(r@ =~= chunk@.subrange(0, i + 1));
            }
            i += 1;
        }
        proof {
            assert(r@ =~= chunk@);
        }
        return r;
    }
    let ghost lower = (log_chunks - 1) as nat;
    proof {
        lemma_pow2_unfold(log_chunks as nat);
        lemma_pow2_unfold(log_len + log_chunks as nat);
        lemma_pow2_pos(lower);
        lemma_pow2_fits(log_len + log_chunks as nat);
        lemma_pow2_adds(log_len, log_chunks as nat);
        lemma_pow2_pos(log_len);
        assert(pow2(log_chunks as nat) <= pow2(log_len) * pow2(log_chunks as nat))
            by (nonlinear_arith)
            requires
                pow2(log_len) >= 1,
                pow2(log_chunks as nat) >= 0,
        ;
        F::lemma_closed(shift, shift);
    }
    let half = pow2_usize(log_chunks - 1);
    let count = chunks.len();
    assert(start + half <= count);
    let shift_squared = shift.mul(shift);
    let even = recompose_range(chunks, start, shift_squared, log_chunks - 1, Ghost(log_len));
    let odd = recompose_range(chunks, start + half, shift_squared, log_chunks - 1, Ghost(log_len));
    proof {
        let whole = views(chunks@).subrange(start as int, start + pow2(log_chunks as nat));
        assert(whole.len() / 2 == half);
        assert(whole.subrange(0, half as int) =~= views(chunks@).subrange(
            start as int,
            start + half,
        ));
        assert(whole.subrange(half as int, whole.len() as int) =~= views(chunks@).subrange(
            start + half,
            start + half + pow2(lower),
        ));
        assert(2 * even@.len() == pow2(log_len + log_chunks as nat));
        lemma_log2_pow2(log_len + log_chunks as nat);
    }
    merge(&even, &odd, shift)
}

/// Recombines the `2^log_chunks` parts of a polynomial, each given by its
/// values on the coset `shift^(2^log_chunks) <g^(2^log_chunks)>`, into the
/// values of the polynomial on the coset `shift <g>`.
pub fn recompose<F: Field>(chunks: &Vec<Vec<F>>, shift: F, log_chunks: usize) -> (r: Vec<F>)
    requires
        chunks@.len() == pow2(log_chunks as nat),
        is_power_of_two(chunks@[0]@.len()),
        forall|c: int|
            0 <= c < chunks@.len() ==> (#[trigger] chunks@[c])@.len() == chunks@[0]@.len()
                && all_wf(chunks@[c]@),
        log2_spec(chunks@[0]@.len()) + log_chunks <= F::two_adicity(),
        chunks@[0]@.len() * pow2(log_chunks as nat) <= usize::MAX,
        shift.wf(),
    ensures
        r@ == recompose_spec(views(chunks@), shift, log_chunks as nat),
        r@.len() == chunks@[0]@.len() * pow2(log_chunks as nat),
        all_wf(r@),
{
    let ghost log_len = log2_spec(chunks@[0]@.len());
    proof {
        lemma_pow2_adds(log_len, log_chunks as nat);
        assert(views(chunks@).subrange(0, chunks@.len() as int) =~= views(chunks@));
    }
    recompose_range(chunks, 0, shift, log_chunks, Ghost(log_len))
}

} // verus!
