//! Fixed-point arithmetic for the ruler.
//!
//! Every quantity in this crate is an `i64` holding a real value multiplied
//! by [`SCALE`]. Products and quotients are computed through `i128`
//! intermediates and rounded toward zero, so each executable operation here
//! equals its specification function exactly.

use vstd::arithmetic::div_mod::{
    lemma_div_is_ordered, lemma_div_is_ordered_by_denominator, lemma_div_multiples_vanish,
    lemma_div_pos_is_pos, lemma_fundamental_div_mod, lemma_remainder_lower, lemma_remainder_upper,
};
use vstd::prelude::*;

verus! {

/// Number of fixed-point units per whole unit (nano resolution).
pub const SCALE: i64 = 1_000_000_000;

/// Division rounding toward zero, the rounding applied by every executable
/// operation in this crate. The divisor must be positive.
pub open spec fn tdiv(n: int, d: int) -> int {
    if n >= 0 {
        n / d
    } else {
        -((-n) / d)
    }
}

/// Product of two fixed-point values: `(a * b) / SCALE`, rounded toward zero.
pub open spec fn spec_fmul(a: int, b: int) -> int {
    tdiv(a * b, SCALE as int)
}

/// Quotient of two fixed-point values: `(a * SCALE) / b`, rounded toward zero.
pub open spec fn spec_fdiv(a: int, b: int) -> int {
    tdiv(a * SCALE, b)
}

/// `(a * b) / d`, rounded toward zero.
pub open spec fn spec_muldiv(a: int, b: int, d: int) -> int {
    tdiv(a * b, d)
}

/// Rounding toward zero negates cleanly: `tdiv` is an odd function of its
/// numerator.
pub proof fn lemma_tdiv_neg(n: int, d: int)
    requires
        d > 0,
    ensures
        tdiv(-n, d) == -tdiv(n, d),
{
}

/// `n * d`-style bracketing of the truncated quotient: for a nonnegative
/// numerator the quotient times the divisor stays within one divisor of `n`.
pub proof fn lemma_tdiv_pos_bracket(n: int, d: int)
    requires
        d > 0,
        n >= 0,
    ensures
        0 <= tdiv(n, d),
        tdiv(n, d) * d <= n,
        n < (tdiv(n, d) + 1) * d,
{
    lemma_div_pos_is_pos(n, d);
    lemma_remainder_lower(n, d);
    lemma_remainder_upper(n, d);
    assert((tdiv(n, d) + 1) * d == tdiv(n, d) * d + d) by (nonlinear_arith);
}

/// The truncated quotient is monotone in the numerator.
pub proof fn lemma_tdiv_mono(a: int, b: int, d: int)
    requires
        d > 0,
        a <= b,
    ensures
        tdiv(a, d) <= tdiv(b, d),
{
    if a >= 0 {
        lemma_div_is_ordered(a, b, d);
    } else if b >= 0 {
        lemma_div_pos_is_pos(-a, d);
        lemma_div_pos_is_pos(b, d);
    } else {
        lemma_div_is_ordered(-b, -a, d);
    }
}

/// Magnitude bound: `|tdiv(n, d)| <= tdiv(|n|, d)` (they are equal, by
/// oddness), and a numerator bounded by `m` bounds the quotient by
/// `tdiv(m, d)`.
pub proof fn lemma_tdiv_abs_bound(n: int, m: int, d: int)
    requires
        d > 0,
        -m <= n <= m,
    ensures
        -tdiv(m, d) <= tdiv(n, d) <= tdiv(m, d),
{
    lemma_tdiv_mono(n, m, d);
    lemma_tdiv_mono(-m, n, d);
    lemma_tdiv_neg(m, d);
}

/// Dividing an exact multiple recovers the factor.
pub proof fn lemma_tdiv_multiple(a: int, d: int)
    requires
        d > 0,
    ensures
        tdiv(a * d, d) == a,
{
    lemma_div_multiples_vanish(a, d);
    lemma_div_multiples_vanish(-a, d);
    assert(a * d == d * a && (-a) * d == d * (-a) && (-a) * d == -(a * d)) by (nonlinear_arith);
    if a * d < 0 {
        assert(tdiv(a * d, d) == -((d * (-a)) / d));
    }
}

/// Largest integer whose square does not exceed `n`.
pub open spec fn spec_isqrt(n: nat) -> nat
    decreases n,
{
    if n == 0 {
        0
    } else {
        let p = spec_isqrt((n - 1) as nat);
        if (p + 1) * (p + 1) <= n {
            p + 1
        } else {
            p
        }
    }
}

/// `spec_isqrt` is sandwiched by the two neighbouring squares.
pub proof fn lemma_isqrt_bounds(n: nat)
    ensures
        spec_isqrt(n) * spec_isqrt(n) <= n,
        n < (spec_isqrt(n) + 1) * (spec_isqrt(n) + 1),
    decreases n,
{
    if n == 0 {
        assert(spec_isqrt(n) == 0);
        assert(n < (spec_isqrt(n) + 1) * (spec_isqrt(n) + 1)) by (nonlinear_arith)
            requires
                n == 0,
                spec_isqrt(n) == 0,
        ;
    } else {
        lemma_isqrt_bounds((n - 1) as nat);
        let p = spec_isqrt((n - 1) as nat);
        assert(p * p <= n - 1 && n - 1 < (p + 1) * (p + 1));
        if (p + 1) * (p + 1) <= n {
            assert(spec_isqrt(n) == p + 1);
            assert((p + 2) * (p + 2) > (p + 1) * (p + 1)) by (nonlinear_arith);
            assert(n < (p + 1 + 1) * (p + 1 + 1));
            assert(spec_isqrt(n) * spec_isqrt(n) <= n);
            assert(n < (spec_isqrt(n) + 1) * (spec_isqrt(n) + 1));
        } else {
            assert(spec_isqrt(n) == p);
            assert(n < (p + 1) * (p + 1));
            assert(spec_isqrt(n) * spec_isqrt(n) <= n);
            assert(n < (spec_isqrt(n) + 1) * (spec_isqrt(n) + 1));
        }
    }
}

/// Any value sandwiched by the neighbouring squares is the integer square
/// root.
pub proof fn lemma_isqrt_unique(n: nat, r: nat)
    requires
        r * r <= n,
        n < (r + 1) * (r + 1),
    ensures
        r == spec_isqrt(n),
{
    lemma_isqrt_bounds(n);
    let s = spec_isqrt(n);
    if r < s {
        assert((r + 1) * (r + 1) <= s * s) by (nonlinear_arith)
            requires
                r + 1 <= s,
                r >= 0,
        ;
    } else if s < r {
        assert((s + 1) * (s + 1) <= r * r) by (nonlinear_arith)
            requires
                s + 1 <= r,
                s >= 0,
        ;
    }
}

/// The integer square root is monotone.
pub proof fn lemma_isqrt_monotone(a: nat, b: nat)
    requires
        a <= b,
    ensures
        spec_isqrt(a) <= spec_isqrt(b),
{
    lemma_isqrt_bounds(a);
    lemma_isqrt_bounds(b);
    let sa = spec_isqrt(a);
    let sb = spec_isqrt(b);
    if sa > sb {
        assert((sb + 1) * (sb + 1) <= sa * sa) by (nonlinear_arith)
            requires
                sb + 1 <= sa,
                sb >= 0,
        ;
    }
}

/// Integer square root by bisection. The input must stay below `2^126` so
/// that the squares computed during the search fit a `u128`.
pub fn isqrt(x: u128) -> (r: u128)
    requires
        (x as int) < 0x4000_0000_0000_0000_0000_0000_0000_0000,
    ensures
        r as nat == spec_isqrt(x as nat),
        (r as int) * (r as int) <= x as int,
        (x as int) < ((r as int) + 1) * ((r as int) + 1),
{
    let mut lo: u128 = 0;
    let mut hi: u128 = 0x8000_0000_0000_0000;
    proof {
        assert((hi as int) * (hi as int) == 0x4000_0000_0000_0000_0000_0000_0000_0000);
        assert((x as int) < ((hi as int) + 1) * ((hi as int) + 1)) by (nonlinear_arith)
            requires
                (x as int) < (hi as int) * (hi as int),
                hi as int >= 0,
        ;
    }
    while lo < hi
        invariant
            lo <= hi,
            hi <= 0x8000_0000_0000_0000,
            (lo as int) * (lo as int) <= x as int,
            (x as int) < ((hi as int) + 1) * ((hi as int) + 1),
        decreases hi - lo,
    {
        let mid: u128 = lo + (hi - lo + 1) / 2;
        proof {
            assert(lo < mid <= hi);
            assert((mid as int) * (mid as int) <= u128::MAX) by (nonlinear_arith)
                requires
                    0 <= mid as int <= 0x8000_0000_0000_0000,
            ;
        }
        let sq: u128 = mid * mid;
        if sq <= x {
            lo = mid;
        } else {
            hi = mid - 1;
        }
    }
    proof {
        lemma_isqrt_unique(x as nat, lo as nat);
    }
    lo
}

/// Magnitude bound for a fixed-point product: factor bounds carry over to
/// the scaled product.
pub proof fn lemma_fmul_bound(a: int, b: int, ma: int, mb: int)
    requires
        -ma <= a <= ma,
        -mb <= b <= mb,
        0 <= ma,
        0 <= mb,
    ensures
        -tdiv(ma * mb, SCALE as int) <= spec_fmul(a, b) <= tdiv(ma * mb, SCALE as int),
{
    assert(-(ma * mb) <= a * b <= ma * mb) by (nonlinear_arith)
        requires
            -ma <= a <= ma,
            -mb <= b <= mb,
            0 <= ma,
            0 <= mb,
    ;
    lemma_tdiv_abs_bound(a * b, ma * mb, SCALE as int);
}

/// Magnitude bound for `spec_muldiv`.
pub proof fn lemma_muldiv_bound(a: int, b: int, d: int, ma: int, mb: int)
    requires
        d > 0,
        -ma <= a <= ma,
        -mb <= b <= mb,
        0 <= ma,
        0 <= mb,
    ensures
        -tdiv(ma * mb, d) <= spec_muldiv(a, b, d) <= tdiv(ma * mb, d),
{
    assert(-(ma * mb) <= a * b <= ma * mb) by (nonlinear_arith)
        requires
            -ma <= a <= ma,
            -mb <= b <= mb,
            0 <= ma,
            0 <= mb,
    ;
    lemma_tdiv_abs_bound(a * b, ma * mb, d);
}

/// Scaling by a ratio in `[0, 1]` stays between zero and the scaled value.
pub proof fn lemma_fmul_fraction(d: int, t: int)
    requires
        0 <= t <= SCALE,
    ensures
        d >= 0 ==> 0 <= spec_fmul(d, t) <= d,
        d < 0 ==> d <= spec_fmul(d, t) <= 0,
{
    let s = SCALE as int;
    if d >= 0 {
        assert(0 <= d * t <= d * s) by (nonlinear_arith)
            requires
                0 <= t <= s,
                d >= 0,
        ;
        lemma_tdiv_pos_bracket(d * t, s);
        lemma_tdiv_mono(d * t, d * s, s);
        lemma_tdiv_multiple(d, s);
    } else {
        assert(d * s <= d * t <= 0) by (nonlinear_arith)
            requires
                0 <= t <= s,
                d < 0,
        ;
        lemma_tdiv_mono(d * s, d * t, s);
        lemma_tdiv_mono(d * t, 0, s);
        lemma_tdiv_multiple(d, s);
    }
}

/// A positive step whose product with the span reaches one whole unit moves
/// the interpolant strictly off both endpoints.
pub proof fn lemma_fmul_ratio_interior(d: int, t: int)
    requires
        d >= 1,
        1 <= t < SCALE,
        t * d >= SCALE,
    ensures
        1 <= spec_fmul(d, t) <= d - 1,
{
    let s = SCALE as int;
    assert(d * t == t * d) by (nonlinear_arith);
    lemma_tdiv_mono(s, d * t, s);
    lemma_tdiv_multiple(1, s);
    assert(d * t <= d * s - d) by (nonlinear_arith)
        requires
            d >= 1,
            1 <= t <= s - 1,
    ;
    assert(d * s - d <= s * (d - 1) + (s - 1)) by (nonlinear_arith)
        requires
            d >= 1,
    ;
    assert(s * (d - 1) + (s - 1) >= 0) by (nonlinear_arith)
        requires
            d >= 1,
            s >= 1,
    ;
    lemma_tdiv_mono(d * t, s * (d - 1) + (s - 1), s);
    vstd::arithmetic::div_mod::lemma_div_multiples_vanish_fancy(d - 1, s - 1, s);
    assert(tdiv(s * (d - 1) + (s - 1), s) == d - 1);
}

/// Lower bound for a fixed-point product of nonnegative values.
pub proof fn lemma_fmul_mono_lower(a: int, b: int, alo: int, blo: int)
    requires
        0 <= alo <= a,
        0 <= blo <= b,
    ensures
        spec_fmul(a, b) >= tdiv(alo * blo, SCALE as int),
{
    assert(a * b >= alo * blo) by (nonlinear_arith)
        requires
            0 <= alo <= a,
            0 <= blo <= b,
    ;
    lemma_tdiv_mono(alo * blo, a * b, SCALE as int);
}

/// Magnitude bound for a fixed-point quotient whose divisor has a known
/// positive floor.
pub proof fn lemma_fdiv_bound(a: int, b: int, ma: int, bmin: int)
    requires
        -ma <= a <= ma,
        0 <= ma,
        0 < bmin <= b,
    ensures
        -tdiv(ma * SCALE, bmin) <= spec_fdiv(a, b) <= tdiv(ma * SCALE, bmin),
{
    assert(-(ma * SCALE) <= a * SCALE <= ma * SCALE) by (nonlinear_arith)
        requires
            -ma <= a <= ma,
            0 <= ma,
    ;
    lemma_tdiv_abs_bound(a * SCALE, ma * SCALE, b);
    lemma_div_is_ordered_by_denominator(ma * SCALE, bmin, b);
    assert(tdiv(ma * SCALE, b) <= tdiv(ma * SCALE, bmin));
}

/// A fixed-point ratio whose numerator is no larger in magnitude than its
/// denominator stays within one unit.
pub proof fn lemma_fdiv_ratio_bound(a: int, b: int)
    requires
        b > 0,
        -b <= a <= b,
    ensures
        -(SCALE as int) <= spec_fdiv(a, b) <= SCALE as int,
{
    assert(-(b * SCALE) <= a * SCALE <= b * SCALE) by (nonlinear_arith)
        requires
            -b <= a <= b,
            b > 0,
    ;
    lemma_tdiv_abs_bound(a * SCALE, b * SCALE, b);
    assert(b * SCALE == SCALE * b) by (nonlinear_arith);
    lemma_tdiv_multiple(SCALE as int, b);
}

/// A product of two `i64` values stays well inside the `i128` range.
proof fn lemma_i64_product_fits(a: int, b: int)
    requires
        i64::MIN <= a <= i64::MAX,
        i64::MIN <= b <= i64::MAX,
    ensures
        i128::MIN <= a * b <= i128::MAX,
{
    assert(i128::MIN <= a * b <= i128::MAX) by (nonlinear_arith)
        requires
            -0x8000_0000_0000_0000 <= a <= 0x7fff_ffff_ffff_ffff,
            -0x8000_0000_0000_0000 <= b <= 0x7fff_ffff_ffff_ffff,
    ;
}

/// Fixed-point product. The result must fit an `i64`.
pub fn fmul(a: i64, b: i64) -> (r: i64)
    requires
        i64::MIN <= spec_fmul(a as int, b as int) <= i64::MAX,
    ensures
        r as int == spec_fmul(a as int, b as int),
{
    proof {
        lemma_i64_product_fits(a as int, b as int);
    }
    let p: i128 = (a as i128) * (b as i128);
    let q: i128 = p / (SCALE as i128);
    proof {
        assert(q as int == spec_fmul(a as int, b as int));
    }
    q as i64
}

/// Fixed-point quotient. The divisor must be positive and the result must
/// fit an `i64`.
pub fn fdiv(a: i64, b: i64) -> (r: i64)
    requires
        b > 0,
        i64::MIN <= spec_fdiv(a as int, b as int) <= i64::MAX,
    ensures
        r as int == spec_fdiv(a as int, b as int),
{
    proof {
        lemma_i64_product_fits(a as int, SCALE as int);
    }
    let p: i128 = (a as i128) * (SCALE as i128);
    let q: i128 = p / (b as i128);
    proof {
        assert(q as int == spec_fdiv(a as int, b as int));
    }
    q as i64
}

/// `(a * b) / d` in one step, avoiding an intermediate rounding. The divisor
/// must be positive and the result must fit an `i64`.
pub fn muldiv(a: i64, b: i64, d: i64) -> (r: i64)
    requires
        d > 0,
        i64::MIN <= spec_muldiv(a as int, b as int, d as int) <= i64::MAX,
    ensures
        r as int == spec_muldiv(a as int, b as int, d as int),
{
    proof {
        lemma_i64_product_fits(a as int, b as int);
    }
    let p: i128 = (a as i128) * (b as i128);
    let q: i128 = p / (d as i128);
    proof {
        assert(q as int == spec_muldiv(a as int, b as int, d as int));
    }
    q as i64
}

} // verus!
