//! Exact complex amplitudes.
//!
//! Every amplitude this library produces (basis-state components, gate
//! entries, their sums and products) lies in the ring of numbers of the form
//! `(a + b*sqrt(2) + (c + d*sqrt(2))*i) / 2^k` with integer coefficients.
//! Representing amplitudes by their coefficient quadruple and denominator
//! exponent keeps every operation exact, so algebraic identities (orthogonality,
//! Hadamard involution, Bell-state equality) hold as true equalities rather
//! than approximations.
//!
//! A value is kept in *normal form*: the denominator exponent is as small as
//! possible (`k == 0`, or at least one coefficient is odd). Since the four
//! coefficients of a ring element at a given exponent are unique, normal forms
//! are unique, and structural equality of `Scalar` values coincides with
//! equality of the numbers they denote.

use vstd::prelude::*;

verus! {

use vstd::arithmetic::power2::{
    pow2,
    lemma_pow2_adds,
    lemma_pow2_pos,
    lemma_pow2_strictly_increases,
    lemma_pow2_unfold,
    lemma2_to64,
    lemma2_to64_rest,
};
use vstd::arithmetic::mul::{lemma_mul_equality_converse, lemma_mul_inequality,
    lemma_mul_is_associative, lemma_mul_is_distributive_add_other_way, lemma_mul_is_commutative};

/// Mathematical model of a [`Scalar`]: the number
/// `(a + b*sqrt(2) + (c + d*sqrt(2))*i) / 2^k`.
pub ghost struct SpecScalar {
    pub a: int,
    pub b: int,
    pub c: int,
    pub d: int,
    pub k: nat,
}

/// `-m <= x <= m`.
pub open spec fn in_band(x: int, m: int) -> bool {
    -m <= x <= m
}

/// All four coefficients of `x` are bounded by `m * 2^k`, i.e. the magnitude
/// of the represented number is (generously) bounded by a multiple of `m`
/// independent of the denominator exponent.
pub open spec fn sc_mag(x: SpecScalar, m: int) -> bool {
    &&& in_band(x.a, m * pow2(x.k))
    &&& in_band(x.b, m * pow2(x.k))
    &&& in_band(x.c, m * pow2(x.k))
    &&& in_band(x.d, m * pow2(x.k))
}

/// The comfortable range for amplitudes handed to the algebra: coefficients
/// up to `2^20` and denominator exponents up to `20`. Far beyond anything the
/// state catalogue produces, and small enough that sums and products over
/// vectors of any supported dimension stay well inside `i128`.
pub open spec fn sc_in_range(x: SpecScalar) -> bool {
    &&& in_band(x.a, 0x100000)
    &&& in_band(x.b, 0x100000)
    &&& in_band(x.c, 0x100000)
    &&& in_band(x.d, 0x100000)
    &&& x.k <= 20
}

/// Normal form: the denominator exponent cannot be lowered further.
pub open spec fn sc_reduced(x: SpecScalar) -> bool {
    x.k == 0 || x.a % 2 != 0 || x.b % 2 != 0 || x.c % 2 != 0 || x.d % 2 != 0
}

/// Lower the denominator exponent as far as it goes: while all four
/// coefficients are even and the exponent is positive, halve everything.
pub open spec fn sc_reduce(x: SpecScalar) -> SpecScalar
    decreases x.k,
{
    if x.k > 0 && x.a % 2 == 0 && x.b % 2 == 0 && x.c % 2 == 0 && x.d % 2 == 0 {
        sc_reduce(
            SpecScalar {
                a: x.a / 2,
                b: x.b / 2,
                c: x.c / 2,
                d: x.d / 2,
                k: (x.k - 1) as nat,
            },
        )
    } else {
        x
    }
}

/// Sum before normalization: align both operands to the larger denominator
/// exponent and add coefficients.
pub open spec fn sc_add_raw(x: SpecScalar, y: SpecScalar) -> SpecScalar {
    let m = if x.k >= y.k {
        x.k
    } else {
        y.k
    };
    SpecScalar {
        a: x.a * pow2((m - x.k) as nat) + y.a * pow2((m - y.k) as nat),
        b: x.b * pow2((m - x.k) as nat) + y.b * pow2((m - y.k) as nat),
        c: x.c * pow2((m - x.k) as nat) + y.c * pow2((m - y.k) as nat),
        d: x.d * pow2((m - x.k) as nat) + y.d * pow2((m - y.k) as nat),
        k: m,
    }
}

/// Exact sum, in normal form.
pub open spec fn sc_add(x: SpecScalar, y: SpecScalar) -> SpecScalar {
    sc_reduce(sc_add_raw(x, y))
}

/// Product before normalization, from
/// `(a1 + b1*s)(a2 + b2*s) = (a1*a2 + 2*b1*b2) + (a1*b2 + b1*a2)*s`
/// for `s = sqrt(2)` and the usual complex product; denominator exponents add.
pub open spec fn sc_mul_raw(x: SpecScalar, y: SpecScalar) -> SpecScalar {
    SpecScalar {
        a: x.a * y.a + 2 * (x.b * y.b) - x.c * y.c - 2 * (x.d * y.d),
        b: x.a * y.b + x.b * y.a - x.c * y.d - x.d * y.c,
        c: x.a * y.c + x.c * y.a + 2 * (x.b * y.d) + 2 * (x.d * y.b),
        d: x.a * y.d + x.d * y.a + x.b * y.c + x.c * y.b,
        k: x.k + y.k,
    }
}

/// Exact product, in normal form.
pub open spec fn sc_mul(x: SpecScalar, y: SpecScalar) -> SpecScalar {
    sc_reduce(sc_mul_raw(x, y))
}

/// Complex conjugate: negate the imaginary coefficients.
pub open spec fn sc_conj(x: SpecScalar) -> SpecScalar {
    SpecScalar { a: x.a, b: x.b, c: -x.c, d: -x.d, k: x.k }
}

/// Negation.
pub open spec fn sc_neg(x: SpecScalar) -> SpecScalar {
    SpecScalar { a: -x.a, b: -x.b, c: -x.c, d: -x.d, k: x.k }
}

pub open spec fn sc_zero() -> SpecScalar {
    SpecScalar { a: 0, b: 0, c: 0, d: 0, k: 0 }
}

pub open spec fn sc_one() -> SpecScalar {
    SpecScalar { a: 1, b: 0, c: 0, d: 0, k: 0 }
}

/// `1 / sqrt(2)`, i.e. `sqrt(2) / 2`.
pub open spec fn sc_inv_rt2() -> SpecScalar {
    SpecScalar { a: 0, b: 1, c: 0, d: 0, k: 1 }
}

/// `1 / 2`, the transition probability between any two of the catalogue's
/// mutually unbiased basis states.
pub open spec fn sc_half() -> SpecScalar {
    SpecScalar { a: 1, b: 0, c: 0, d: 0, k: 1 }
}

/// Two representations denote the same number exactly when scaling each
/// coefficient by the other's denominator equates them (the coordinates
/// `1`, `sqrt(2)`, `i`, `i*sqrt(2)` of a ring element are unique, so the
/// number determines the coefficients at any given exponent).
pub open spec fn sc_same_value(x: SpecScalar, y: SpecScalar) -> bool {
    &&& x.a * pow2(y.k) == y.a * pow2(x.k)
    &&& x.b * pow2(y.k) == y.b * pow2(x.k)
    &&& x.c * pow2(y.k) == y.c * pow2(x.k)
    &&& x.d * pow2(y.k) == y.d * pow2(x.k)
}

/// Cross-scaling equalities compose: cancelling the middle scale is sound
/// because scales are positive.
proof fn lemma_cross_trans(a: int, b: int, c: int, pa: int, pb: int, pc: int)
    by (nonlinear_arith)
    requires
        pa > 0,
        pb > 0,
        pc > 0,
        a * pb == b * pa,
        b * pc == c * pb,
    ensures
        a * pc == c * pa,
{
}

/// Denoting the same number is transitive.
pub proof fn lemma_same_value_trans(x: SpecScalar, y: SpecScalar, z: SpecScalar)
    requires
        sc_same_value(x, y),
        sc_same_value(y, z),
    ensures
        sc_same_value(x, z),
{
    lemma_pow2_pos(x.k);
    lemma_pow2_pos(y.k);
    lemma_pow2_pos(z.k);
    lemma_cross_trans(x.a, y.a, z.a, pow2(x.k) as int, pow2(y.k) as int, pow2(z.k) as int);
    lemma_cross_trans(x.b, y.b, z.b, pow2(x.k) as int, pow2(y.k) as int, pow2(z.k) as int);
    lemma_cross_trans(x.c, y.c, z.c, pow2(x.k) as int, pow2(y.k) as int, pow2(z.k) as int);
    lemma_cross_trans(x.d, y.d, z.d, pow2(x.k) as int, pow2(y.k) as int, pow2(z.k) as int);
}

/// Reduction does not change the number a representation denotes; together
/// with [`lemma_normal_form_unique`] this makes `sc_reduce` a canonical form.
pub proof fn lemma_reduce_same_value(x: SpecScalar)
    ensures
        sc_same_value(sc_reduce(x), x),
    decreases x.k,
{
    if x.k > 0 && x.a % 2 == 0 && x.b % 2 == 0 && x.c % 2 == 0 && x.d % 2 == 0 {
        let y = SpecScalar {
            a: x.a / 2,
            b: x.b / 2,
            c: x.c / 2,
            d: x.d / 2,
            k: (x.k - 1) as nat,
        };
        lemma_reduce_same_value(y);
        assert(sc_same_value(y, x)) by {
            lemma_pow2_unfold(x.k);
            lemma_halved_coeff_same(x.a, x.k);
            lemma_halved_coeff_same(x.b, x.k);
            lemma_halved_coeff_same(x.c, x.k);
            lemma_halved_coeff_same(x.d, x.k);
        }
        lemma_same_value_trans(sc_reduce(y), y, x);
    }
}

/// Halving an even coefficient and the denominator exponent together leaves
/// the cross-scaled products equal.
proof fn lemma_halved_coeff_even_helper(h: int, p: int)
    by (nonlinear_arith)
    ensures
        h * (2 * p) == (2 * h) * p,
{
}

/// For even `xc` and `k > 0`: `(xc / 2) * 2^k == xc * 2^(k - 1)`.
proof fn lemma_halved_coeff_same(xc: int, k: nat)
    requires
        k > 0,
        xc % 2 == 0,
    ensures
        (xc / 2) * pow2(k) == xc * pow2((k - 1) as nat),
{
    lemma_pow2_unfold(k);
    assert(xc == 2 * (xc / 2));
    lemma_halved_coeff_even_helper(xc / 2, pow2((k - 1) as nat) as int);
}

/// If `x`'s denominator exponent is the smaller one and the two denote the
/// same number, the exponents are in fact equal: otherwise every coefficient
/// of `y` would be even, against `y` being in normal form.
proof fn lemma_normal_form_unique_ordered(x: SpecScalar, y: SpecScalar)
    requires
        sc_reduced(y),
        sc_same_value(x, y),
        x.k <= y.k,
    ensures
        x.k == y.k,
{
    if x.k < y.k {
        lemma_scaled_coeff_even(x.a, y.a, x.k, y.k);
        lemma_scaled_coeff_even(x.b, y.b, x.k, y.k);
        lemma_scaled_coeff_even(x.c, y.c, x.k, y.k);
        lemma_scaled_coeff_even(x.d, y.d, x.k, y.k);
        assert(false);
    }
}

/// A coefficient pair related by cross-scaling with a strictly larger
/// denominator exponent on the right forces the right coefficient even.
proof fn lemma_scaled_coeff_even(xc: int, yc: int, kx: nat, ky: nat)
    requires
        kx < ky,
        xc * pow2(ky) == yc * pow2(kx),
    ensures
        yc % 2 == 0,
{
    let dk = (ky - kx) as nat;
    lemma_pow2_pos(kx);
    lemma_pow2_pos(dk);
    lemma_pow2_adds(kx, dk);
    lemma_mul_is_associative(xc, pow2(kx) as int, pow2(dk) as int);
    lemma_mul_is_commutative(xc * (pow2(dk) as int), pow2(kx) as int);
    lemma_mul_is_commutative(yc, pow2(kx) as int);
    lemma_mul_is_commutative(xc, pow2(dk) as int);
    lemma_mul_is_commutative(pow2(kx) as int, pow2(dk) as int);
    lemma_mul_is_associative(xc, pow2(dk) as int, pow2(kx) as int);
    lemma_mul_equality_converse(pow2(kx) as int, xc * (pow2(dk) as int), yc);
    lemma_pow2_unfold(dk);
    assert(yc == xc * (2 * pow2((dk - 1) as nat)));
    lemma_mul_is_associative(xc, 2, pow2((dk - 1) as nat) as int);
    lemma_mul_is_commutative(xc, 2);
    lemma_mul_is_associative(2, xc, pow2((dk - 1) as nat) as int);
    assert(yc == 2 * (xc * (pow2((dk - 1) as nat) as int)));
}

/// Uniqueness of the normal form: two representations in normal form that
/// denote the same number are identical. This is what makes structural
/// equality of [`Scalar`] values mean equality of the numbers they denote.
pub proof fn lemma_normal_form_unique(x: SpecScalar, y: SpecScalar)
    requires
        sc_reduced(x),
        sc_reduced(y),
        sc_same_value(x, y),
    ensures
        x == y,
{
    if x.k <= y.k {
        lemma_normal_form_unique_ordered(x, y);
    } else {
        lemma_normal_form_unique_ordered(y, x);
    }
    lemma_pow2_pos(x.k);
    lemma_mul_is_commutative(x.a, pow2(y.k) as int);
    lemma_mul_is_commutative(y.a, pow2(x.k) as int);
    lemma_mul_is_commutative(x.b, pow2(y.k) as int);
    lemma_mul_is_commutative(y.b, pow2(x.k) as int);
    lemma_mul_is_commutative(x.c, pow2(y.k) as int);
    lemma_mul_is_commutative(y.c, pow2(x.k) as int);
    lemma_mul_is_commutative(x.d, pow2(y.k) as int);
    lemma_mul_is_commutative(y.d, pow2(x.k) as int);
    lemma_mul_equality_converse(pow2(x.k) as int, x.a, y.a);
    lemma_mul_equality_converse(pow2(x.k) as int, x.b, y.b);
    lemma_mul_equality_converse(pow2(x.k) as int, x.c, y.c);
    lemma_mul_equality_converse(pow2(x.k) as int, x.d, y.d);
}

/// An exact complex amplitude `(a + b*sqrt(2) + (c + d*sqrt(2))*i) / 2^k`,
/// kept in normal form (see [`sc_reduced`]).
#[derive(Clone, Copy, Debug, PartialEq, Eq, Structural)]
pub struct Scalar {
    /// Integer coefficient of the real part.
    pub a: i128,
    /// `sqrt(2)` coefficient of the real part.
    pub b: i128,
    /// Integer coefficient of the imaginary part.
    pub c: i128,
    /// `sqrt(2)` coefficient of the imaginary part.
    pub d: i128,
    /// Denominator exponent: the value is divided by `2^k`.
    pub k: u32,
}

impl View for Scalar {
    type V = SpecScalar;

    open spec fn view(&self) -> SpecScalar {
        SpecScalar {
            a: self.a as int,
            b: self.b as int,
            c: self.c as int,
            d: self.d as int,
            k: self.k as nat,
        }
    }
}

/// `|x * y| <= bx * by2` for `|x| <= bx`, `|y| <= by2`.
proof fn lemma_abs_mul(x: int, y: int, bx: int, by2: int)
    by (nonlinear_arith)
    requires
        in_band(x, bx),
        in_band(y, by2),
        0 <= bx,
        0 <= by2,
    ensures
        in_band(x * y, bx * by2),
{
}

/// A band bound stays a band bound when the limit is multiplied by a power of two.
proof fn lemma_band_widen(x: int, m: int, e: nat)
    requires
        in_band(x, m),
        0 <= m,
    ensures
        in_band(x, m * pow2(e)),
{
    lemma_pow2_pos(e);
    lemma_mul_inequality(1, pow2(e) as int, m);
    lemma_mul_is_commutative(1, m);
    lemma_mul_is_commutative(pow2(e) as int, m);
}

/// Aligning a coefficient from exponent `kx` up to exponent `m` keeps the
/// scale-relative bound.
proof fn lemma_align_band(x: int, kx: nat, m: nat, bound: int)
    requires
        kx <= m,
        0 <= bound,
        in_band(x, bound * pow2(kx)),
    ensures
        in_band(x * pow2((m - kx) as nat), bound * pow2(m)),
{
    let e = (m - kx) as nat;
    lemma_pow2_pos(kx);
    lemma_pow2_pos(e);
    lemma_abs_mul(x, pow2(e) as int, bound * pow2(kx), pow2(e) as int);
    lemma_mul_is_associative(bound, pow2(kx) as int, pow2(e) as int);
    lemma_pow2_adds(kx, e);
}

/// Reduction does reach a normal form: afterwards the denominator exponent
/// cannot be lowered further. Since every arithmetic operation ends in
/// [`sc_reduce`] and every constructor reduces, all scalars the library
/// hands out are in normal form, which is what makes derived equality of
/// [`Scalar`] values mean equality of the numbers they denote.
pub proof fn lemma_reduce_reduced(x: SpecScalar)
    ensures
        sc_reduced(sc_reduce(x)),
    decreases x.k,
{
    if x.k > 0 && x.a % 2 == 0 && x.b % 2 == 0 && x.c % 2 == 0 && x.d % 2 == 0 {
        lemma_reduce_reduced(
            SpecScalar {
                a: x.a / 2,
                b: x.b / 2,
                c: x.c / 2,
                d: x.d / 2,
                k: (x.k - 1) as nat,
            },
        );
    }
}

/// Reduction to normal form never increases the denominator exponent and
/// preserves any scale-relative magnitude bound.
pub proof fn lemma_reduce_mag(x: SpecScalar, m: int)
    requires
        0 <= m,
        sc_mag(x, m),
    ensures
        sc_mag(sc_reduce(x), m),
        sc_reduce(x).k <= x.k,
    decreases x.k,
{
    if x.k > 0 && x.a % 2 == 0 && x.b % 2 == 0 && x.c % 2 == 0 && x.d % 2 == 0 {
        let y = SpecScalar {
            a: x.a / 2,
            b: x.b / 2,
            c: x.c / 2,
            d: x.d / 2,
            k: (x.k - 1) as nat,
        };
        lemma_pow2_unfold(x.k);
        assert(sc_mag(y, m)) by {
            assert(x.a == 2 * (x.a / 2));
            assert(x.b == 2 * (x.b / 2));
            assert(x.c == 2 * (x.c / 2));
            assert(x.d == 2 * (x.d / 2));
            assert(m * pow2(x.k) == 2 * (m * (pow2(y.k) as int))) by (nonlinear_arith)
                requires
                    pow2(x.k) == 2 * pow2(y.k),
            ;
        }
        lemma_reduce_mag(y, m);
    }
}

/// The sum of two magnitude-bounded values is bounded by the sum of the
/// bounds, and its exponent by the larger of the two exponents.
pub proof fn lemma_add_mag(x: SpecScalar, y: SpecScalar, mx: int, my: int)
    requires
        0 <= mx,
        0 <= my,
        sc_mag(x, mx),
        sc_mag(y, my),
    ensures
        sc_mag(sc_add(x, y), mx + my),
        sc_add(x, y).k <= if x.k >= y.k {
            x.k
        } else {
            y.k
        },
{
    let m = if x.k >= y.k {
        x.k
    } else {
        y.k
    };
    lemma_align_band(x.a, x.k, m, mx);
    lemma_align_band(x.b, x.k, m, mx);
    lemma_align_band(x.c, x.k, m, mx);
    lemma_align_band(x.d, x.k, m, mx);
    lemma_align_band(y.a, y.k, m, my);
    lemma_align_band(y.b, y.k, m, my);
    lemma_align_band(y.c, y.k, m, my);
    lemma_align_band(y.d, y.k, m, my);
    lemma_mul_is_distributive_add_other_way(pow2(m) as int, mx, my);
    let raw = SpecScalar {
        a: x.a * pow2((m - x.k) as nat) + y.a * pow2((m - y.k) as nat),
        b: x.b * pow2((m - x.k) as nat) + y.b * pow2((m - y.k) as nat),
        c: x.c * pow2((m - x.k) as nat) + y.c * pow2((m - y.k) as nat),
        d: x.d * pow2((m - x.k) as nat) + y.d * pow2((m - y.k) as nat),
        k: m,
    };
    lemma_reduce_mag(raw, mx + my);
}

/// The product of two in-range values has exponent at most `40` and
/// coefficients within `6 * 2^40` of zero, at any scale.
pub proof fn lemma_mul_range(x: SpecScalar, y: SpecScalar)
    requires
        sc_in_range(x),
        sc_in_range(y),
    ensures
        sc_mag(sc_mul(x, y), 0x60000000000),
        sc_mul(x, y).k <= 40,
{
    lemma_abs_mul(x.a, y.a, 0x100000, 0x100000);
    lemma_abs_mul(x.b, y.b, 0x100000, 0x100000);
    lemma_abs_mul(x.c, y.c, 0x100000, 0x100000);
    lemma_abs_mul(x.d, y.d, 0x100000, 0x100000);
    lemma_abs_mul(x.a, y.b, 0x100000, 0x100000);
    lemma_abs_mul(x.b, y.a, 0x100000, 0x100000);
    lemma_abs_mul(x.c, y.d, 0x100000, 0x100000);
    lemma_abs_mul(x.d, y.c, 0x100000, 0x100000);
    lemma_abs_mul(x.a, y.c, 0x100000, 0x100000);
    lemma_abs_mul(x.c, y.a, 0x100000, 0x100000);
    lemma_abs_mul(x.b, y.d, 0x100000, 0x100000);
    lemma_abs_mul(x.d, y.b, 0x100000, 0x100000);
    lemma_abs_mul(x.a, y.d, 0x100000, 0x100000);
    lemma_abs_mul(x.d, y.a, 0x100000, 0x100000);
    lemma_abs_mul(x.b, y.c, 0x100000, 0x100000);
    lemma_abs_mul(x.c, y.b, 0x100000, 0x100000);
    let raw = SpecScalar {
        a: x.a * y.a + 2 * (x.b * y.b) - x.c * y.c - 2 * (x.d * y.d),
        b: x.a * y.b + x.b * y.a - x.c * y.d - x.d * y.c,
        c: x.a * y.c + x.c * y.a + 2 * (x.b * y.d) + 2 * (x.d * y.b),
        d: x.a * y.d + x.d * y.a + x.b * y.c + x.c * y.b,
        k: (x.k + y.k) as nat,
    };
    lemma_band_widen(raw.a, 0x60000000000, raw.k);
    lemma_band_widen(raw.b, 0x60000000000, raw.k);
    lemma_band_widen(raw.c, 0x60000000000, raw.k);
    lemma_band_widen(raw.d, 0x60000000000, raw.k);
    lemma_reduce_mag(raw, 0x60000000000);
}

/// Reduction to normal form never increases the denominator exponent and
/// preserves any plain coefficient bound.
pub proof fn lemma_reduce_band(x: SpecScalar, m: int)
    requires
        0 <= m,
        in_band(x.a, m),
        in_band(x.b, m),
        in_band(x.c, m),
        in_band(x.d, m),
    ensures
        in_band(sc_reduce(x).a, m),
        in_band(sc_reduce(x).b, m),
        in_band(sc_reduce(x).c, m),
        in_band(sc_reduce(x).d, m),
        sc_reduce(x).k <= x.k,
    decreases x.k,
{
    if x.k > 0 && x.a % 2 == 0 && x.b % 2 == 0 && x.c % 2 == 0 && x.d % 2 == 0 {
        let y = SpecScalar {
            a: x.a / 2,
            b: x.b / 2,
            c: x.c / 2,
            d: x.d / 2,
            k: (x.k - 1) as nat,
        };
        assert(x.a == 2 * (x.a / 2));
        assert(x.b == 2 * (x.b / 2));
        assert(x.c == 2 * (x.c / 2));
        assert(x.d == 2 * (x.d / 2));
        lemma_reduce_band(y, m);
    }
}

/// The product of two values with plain coefficient bounds `mx` and `my` has
/// coefficients within `6 * mx * my` and a denominator exponent at most the
/// sum of the operands'.
pub proof fn lemma_mul_band(x: SpecScalar, y: SpecScalar, mx: int, my: int)
    requires
        0 <= mx,
        0 <= my,
        in_band(x.a, mx),
        in_band(x.b, mx),
        in_band(x.c, mx),
        in_band(x.d, mx),
        in_band(y.a, my),
        in_band(y.b, my),
        in_band(y.c, my),
        in_band(y.d, my),
    ensures
        in_band(sc_mul(x, y).a, 6 * (mx * my)),
        in_band(sc_mul(x, y).b, 6 * (mx * my)),
        in_band(sc_mul(x, y).c, 6 * (mx * my)),
        in_band(sc_mul(x, y).d, 6 * (mx * my)),
        sc_mul(x, y).k <= x.k + y.k,
{
    lemma_abs_mul(x.a, y.a, mx, my);
    lemma_abs_mul(x.b, y.b, mx, my);
    lemma_abs_mul(x.c, y.c, mx, my);
    lemma_abs_mul(x.d, y.d, mx, my);
    lemma_abs_mul(x.a, y.b, mx, my);
    lemma_abs_mul(x.b, y.a, mx, my);
    lemma_abs_mul(x.c, y.d, mx, my);
    lemma_abs_mul(x.d, y.c, mx, my);
    lemma_abs_mul(x.a, y.c, mx, my);
    lemma_abs_mul(x.c, y.a, mx, my);
    lemma_abs_mul(x.b, y.d, mx, my);
    lemma_abs_mul(x.d, y.b, mx, my);
    lemma_abs_mul(x.a, y.d, mx, my);
    lemma_abs_mul(x.d, y.a, mx, my);
    lemma_abs_mul(x.b, y.c, mx, my);
    lemma_abs_mul(x.c, y.b, mx, my);
    lemma_reduce_band(sc_mul_raw(x, y), 6 * (mx * my));
}

/// An in-range value is magnitude-bounded by `2^30` with exponent at most 30,
/// which is what the arithmetic operations ask of their operands.
pub proof fn lemma_in_range_mag(x: SpecScalar)
    requires
        sc_in_range(x),
    ensures
        sc_mag(x, 0x40000000),
        x.k <= 30,
{
    lemma_band_widen(x.a, 0x40000000, x.k);
    lemma_band_widen(x.b, 0x40000000, x.k);
    lemma_band_widen(x.c, 0x40000000, x.k);
    lemma_band_widen(x.d, 0x40000000, x.k);
}

/// A magnitude bound is monotone in the limit.
pub proof fn lemma_mag_widen(x: SpecScalar, m1: int, m2: int)
    requires
        sc_mag(x, m1),
        0 <= m1 <= m2,
    ensures
        sc_mag(x, m2),
{
    lemma_mul_inequality(m1, m2, pow2(x.k) as int);
    lemma_mul_is_commutative(m1, pow2(x.k) as int);
    lemma_mul_is_commutative(m2, pow2(x.k) as int);
}

/// An in-range value also satisfies what [`Scalar::plus`] asks of its operands.
pub proof fn lemma_in_range_plus_ok(x: SpecScalar)
    requires
        sc_in_range(x),
    ensures
        sc_mag(x, 0x1000000000000000),
        x.k <= 60,
{
    lemma_in_range_mag(x);
    lemma_mag_widen(x, 0x40000000, 0x1000000000000000);
}

/// `2^e` as an `i128`.
fn pow2_i128(e: u32) -> (r: i128)
    requires
        e <= 126,
    ensures
        r == pow2(e as nat),
{
    let mut i: u32 = 0;
    let mut r: i128 = 1;
    proof {
        lemma2_to64();
    }
    while i < e
        invariant
            i <= e <= 126,
            r == pow2(i as nat),
        decreases e - i,
    {
        proof {
            lemma2_to64_rest();
            lemma_pow2_adds(63, 63);
            if i + 1 < 126 {
                lemma_pow2_strictly_increases((i + 1) as nat, 126);
            }
            lemma_pow2_unfold((i + 1) as nat);
        }
        r = r * 2;
        i = i + 1;
    }
    r
}

/// Bring a raw coefficient quadruple into normal form.
fn reduce(s: Scalar) -> (r: Scalar)
    requires
        in_band(s@.a, 0x20000000000000000000000000000000),
        in_band(s@.b, 0x20000000000000000000000000000000),
        in_band(s@.c, 0x20000000000000000000000000000000),
        in_band(s@.d, 0x20000000000000000000000000000000),
    ensures
        r@ == sc_reduce(s@),
{
    let mut a = s.a;
    let mut b = s.b;
    let mut c = s.c;
    let mut d = s.d;
    let mut k = s.k;
    while k > 0 && a % 2 == 0 && b % 2 == 0 && c % 2 == 0 && d % 2 == 0
        invariant
            in_band(a as int, 0x20000000000000000000000000000000),
            in_band(b as int, 0x20000000000000000000000000000000),
            in_band(c as int, 0x20000000000000000000000000000000),
            in_band(d as int, 0x20000000000000000000000000000000),
            sc_reduce(
                SpecScalar { a: a as int, b: b as int, c: c as int, d: d as int, k: k as nat },
            ) == sc_reduce(s@),
        decreases k,
    {
        a = a / 2;
        b = b / 2;
        c = c / 2;
        d = d / 2;
        k = k - 1;
    }
    Scalar { a, b, c, d, k }
}

impl Scalar {
    /// Build an amplitude `(a + b*sqrt(2) + (c + d*sqrt(2))*i) / 2^k`;
    /// the result is brought into normal form. This is the raw import point
    /// for externally supplied amplitudes: no normalization of the physical
    /// state is implied or checked.
    pub fn new(a: i64, b: i64, c: i64, d: i64, k: u32) -> (r: Scalar)
        requires
            k <= 60,
        ensures
            r@ == sc_reduce(
                SpecScalar { a: a as int, b: b as int, c: c as int, d: d as int, k: k as nat },
            ),
    {
        reduce(Scalar { a: a as i128, b: b as i128, c: c as i128, d: d as i128, k })
    }

    /// The additive identity.
    pub fn zero() -> (r: Scalar)
        ensures
            r@ == sc_zero(),
    {
        Scalar { a: 0, b: 0, c: 0, d: 0, k: 0 }
    }

    /// The multiplicative identity.
    pub fn one() -> (r: Scalar)
        ensures
            r@ == sc_one(),
    {
        Scalar { a: 1, b: 0, c: 0, d: 0, k: 0 }
    }

    /// `1 / sqrt(2)`, the normalization constant of the equal-weight
    /// superposition states; shared so every basis state uses the same exact
    /// value.
    pub fn inv_rt2() -> (r: Scalar)
        ensures
            r@ == sc_inv_rt2(),
    {
        Scalar { a: 0, b: 1, c: 0, d: 0, k: 1 }
    }

    /// Exact sum.
    pub fn plus(self, other: Scalar) -> (r: Scalar)
        requires
            sc_mag(self@, 0x1000000000000000),
            sc_mag(other@, 0x1000000000000000),
            self@.k <= 60,
            other@.k <= 60,
        ensures
            r@ == sc_add(self@, other@),
    {
        let m: u32 = if self.k >= other.k {
            self.k
        } else {
            other.k
        };
        let px = pow2_i128(m - self.k);
        let py = pow2_i128(m - other.k);
        proof {
            lemma_aligned_cap(self@.a, self@.k, m as nat);
            lemma_aligned_cap(self@.b, self@.k, m as nat);
            lemma_aligned_cap(self@.c, self@.k, m as nat);
            lemma_aligned_cap(self@.d, self@.k, m as nat);
            lemma_aligned_cap(other@.a, other@.k, m as nat);
            lemma_aligned_cap(other@.b, other@.k, m as nat);
            lemma_aligned_cap(other@.c, other@.k, m as nat);
            lemma_aligned_cap(other@.d, other@.k, m as nat);
        }
        let a = self.a * px + other.a * py;
        let b = self.b * px + other.b * py;
        let c = self.c * px + other.c * py;
        let d = self.d * px + other.d * py;
        reduce(Scalar { a, b, c, d, k: m })
    }

    /// Exact product.
    pub fn times(self, other: Scalar) -> (r: Scalar)
        requires
            sc_mag(self@, 0x40000000),
            sc_mag(other@, 0x40000000),
            self@.k <= 30,
            other@.k <= 30,
        ensures
            r@ == sc_mul(self@, other@),
    {
        proof {
            lemma_coeff_cap(self@.a, self@.k);
            lemma_coeff_cap(self@.b, self@.k);
            lemma_coeff_cap(self@.c, self@.k);
            lemma_coeff_cap(self@.d, self@.k);
            lemma_coeff_cap(other@.a, other@.k);
            lemma_coeff_cap(other@.b, other@.k);
            lemma_coeff_cap(other@.c, other@.k);
            lemma_coeff_cap(other@.d, other@.k);
            lemma_abs_mul(self@.a, other@.a, 0x1000000000000000, 0x1000000000000000);
            lemma_abs_mul(self@.b, other@.b, 0x1000000000000000, 0x1000000000000000);
            lemma_abs_mul(self@.c, other@.c, 0x1000000000000000, 0x1000000000000000);
            lemma_abs_mul(self@.d, other@.d, 0x1000000000000000, 0x1000000000000000);
            lemma_abs_mul(self@.a, other@.b, 0x1000000000000000, 0x1000000000000000);
            lemma_abs_mul(self@.b, other@.a, 0x1000000000000000, 0x1000000000000000);
            lemma_abs_mul(self@.c, other@.d, 0x1000000000000000, 0x1000000000000000);
            lemma_abs_mul(self@.d, other@.c, 0x1000000000000000, 0x1000000000000000);
            lemma_abs_mul(self@.a, other@.c, 0x1000000000000000, 0x1000000000000000);
            lemma_abs_mul(self@.c, other@.a, 0x1000000000000000, 0x1000000000000000);
            lemma_abs_mul(self@.b, other@.d, 0x1000000000000000, 0x1000000000000000);
            lemma_abs_mul(self@.d, other@.b, 0x1000000000000000, 0x1000000000000000);
            lemma_abs_mul(self@.a, other@.d, 0x1000000000000000, 0x1000000000000000);
            lemma_abs_mul(self@.d, other@.a, 0x1000000000000000, 0x1000000000000000);
            lemma_abs_mul(self@.b, other@.c, 0x1000000000000000, 0x1000000000000000);
            lemma_abs_mul(self@.c, other@.b, 0x1000000000000000, 0x1000000000000000);
        }
        let a = self.a * other.a + 2 * (self.b * other.b) - self.c * other.c - 2 * (self.d
            * other.d);
        let b = self.a * other.b + self.b * other.a - self.c * other.d - self.d * other.c;
        let c = self.a * other.c + self.c * other.a + 2 * (self.b * other.d) + 2 * (self.d
            * other.b);
        let d = self.a * other.d + self.d * other.a + self.b * other.c + self.c * other.b;
        reduce(Scalar { a, b, c, d, k: self.k + other.k })
    }

    /// Complex conjugate.
    pub fn conj(self) -> (r: Scalar)
        requires
            in_band(self@.c, 0x20000000000000000000000000000000),
            in_band(self@.d, 0x20000000000000000000000000000000),
        ensures
            r@ == sc_conj(self@),
    {
        Scalar { a: self.a, b: self.b, c: -self.c, d: -self.d, k: self.k }
    }

    /// Negation.
    pub fn neg(self) -> (r: Scalar)
        requires
            in_band(self@.a, 0x20000000000000000000000000000000),
            in_band(self@.b, 0x20000000000000000000000000000000),
            in_band(self@.c, 0x20000000000000000000000000000000),
            in_band(self@.d, 0x20000000000000000000000000000000),
        ensures
            r@ == sc_neg(self@),
    {
        Scalar { a: -self.a, b: -self.b, c: -self.c, d: -self.d, k: self.k }
    }

    /// Squared magnitude `conj(z) * z`: the transition probability when `z`
    /// is an inner product of unit states. Always a real value, as the
    /// contract states.
    pub fn norm_sqr(self) -> (r: Scalar)
        requires
            sc_mag(self@, 0x40000000),
            self@.k <= 30,
        ensures
            r@ == sc_mul(sc_conj(self@), self@),
            r@.c == 0,
            r@.d == 0,
    {
        proof {
            lemma_coeff_cap(self@.c, self@.k);
            lemma_coeff_cap(self@.d, self@.k);
            lemma_norm_sqr_real(self@);
        }
        let conjugate = self.conj();
        conjugate.times(self)
    }
}

/// Reduction keeps a real value real: zero imaginary coefficients stay zero.
proof fn lemma_reduce_keeps_real(x: SpecScalar)
    requires
        x.c == 0,
        x.d == 0,
    ensures
        sc_reduce(x).c == 0,
        sc_reduce(x).d == 0,
    decreases x.k,
{
    if x.k > 0 && x.a % 2 == 0 && x.b % 2 == 0 && x.c % 2 == 0 && x.d % 2 == 0 {
        lemma_reduce_keeps_real(
            SpecScalar {
                a: x.a / 2,
                b: x.b / 2,
                c: x.c / 2,
                d: x.d / 2,
                k: (x.k - 1) as nat,
            },
        );
    }
}

/// `conj(z) * z` has no imaginary part.
proof fn lemma_norm_sqr_real(x: SpecScalar)
    ensures
        sc_mul(sc_conj(x), x).c == 0,
        sc_mul(sc_conj(x), x).d == 0,
{
    let raw = sc_mul_raw(sc_conj(x), x);
    assert(x.a * x.c + (-x.c) * x.a + 2 * (x.b * x.d) + 2 * ((-x.d) * x.b) == 0)
        by (nonlinear_arith);
    assert(x.a * x.d + (-x.d) * x.a + x.b * x.c + (-x.c) * x.b == 0) by (nonlinear_arith);
    lemma_reduce_keeps_real(raw);
}

/// A coefficient aligned to a common exponent `m <= 60` under the magnitude
/// bound of [`Scalar::plus`] stays within `2^120`.
proof fn lemma_aligned_cap(x: int, kx: nat, m: nat)
    requires
        kx <= m <= 60,
        in_band(x, 0x1000000000000000 * (pow2(kx) as int)),
    ensures
        in_band(x * pow2((m - kx) as nat), 0x1000000000000000000000000000000),
{
    lemma_align_band(x, kx, m, 0x1000000000000000);
    if m < 60 {
        lemma_pow2_strictly_increases(m, 60);
    }
    lemma2_to64_rest();
    lemma_mul_inequality(pow2(m) as int, pow2(60) as int, 0x1000000000000000);
    lemma_mul_is_commutative(pow2(m) as int, 0x1000000000000000);
    lemma_mul_is_commutative(pow2(60) as int, 0x1000000000000000);
}

/// A coefficient under the magnitude bound of [`Scalar::times`] is within `2^60`.
proof fn lemma_coeff_cap(x: int, kx: nat)
    requires
        kx <= 30,
        in_band(x, 0x40000000 * (pow2(kx) as int)),
    ensures
        in_band(x, 0x1000000000000000),
{
    if kx < 30 {
        lemma_pow2_strictly_increases(kx, 30);
    }
    lemma2_to64();
    lemma_mul_inequality(pow2(kx) as int, pow2(30) as int, 0x40000000);
    lemma_mul_is_commutative(pow2(kx) as int, 0x40000000);
    lemma_mul_is_commutative(pow2(30) as int, 0x40000000);
}

} // verus!
