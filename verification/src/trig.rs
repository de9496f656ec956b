//! Polynomial trigonometry over fixed-point values.
//!
//! Angles use the same nano resolution as everything else: a radian value
//! `x` is stored as `x * SCALE`. Three arctangent tiers are offered, chosen
//! at construction time by the ruler: a 3-term and a 5-term polynomial that
//! trade accuracy (about a tenth and a hundredth of a radian) for speed,
//! and an 11-term polynomial, accurate to about a milliradian, that plays
//! the role of the exact function. Two cosine polynomials exist: an
//! 8th-degree one for the scalar ruler and the 4th-degree one that the
//! batch kernel uses lane by lane.

use crate::poly_bounds::{lemma_cos4_poly_bounds, lemma_cos8_poly_bounds};
use crate::fixed::{
    fdiv, fmul, lemma_fdiv_ratio_bound, lemma_fmul_bound, lemma_muldiv_bound, lemma_tdiv_mono,
    lemma_tdiv_neg, lemma_tdiv_pos_bracket, muldiv, spec_fdiv, spec_fmul, spec_muldiv, tdiv, SCALE,
};
use vstd::prelude::*;

verus! {

/// Fixed-point pi.
pub const PI: i64 = 3_141_592_654;

/// Fixed-point pi / 2.
pub const HALF_PI: i64 = 1_570_796_327;

/// Fixed-point pi / 4.
pub const QUARTER_PI: i64 = 785_398_163;

/// Fixed-point 3 * pi / 4.
pub const THREE_QUARTER_PI: i64 = 2_356_194_490;

/// Fixed-point 2 * pi.
pub const TWO_PI: i64 = 6_283_185_308;

/// Fixed-point 90 degrees.
pub const DEG_90: i64 = 90_000_000_000;

/// Fixed-point 180 degrees.
pub const DEG_180: i64 = 180_000_000_000;

/// Fixed-point 360 degrees.
pub const DEG_360: i64 = 360_000_000_000;

/// Largest magnitude any arctangent tier can return: slightly above pi,
/// because the 3-term tier can overshoot pi by a couple of millionths of a
/// radian; the other tiers never exceed it.
pub const ATAN2_MAX: i64 = 3_141_700_000;

/// Largest magnitude accepted for the arguments of [`atan2`]; generous room
/// above every scaled coordinate delta the ruler can produce.
pub const ATAN2_ARG_MAX: i64 = 2_000_000_000_000_000_000;

/// Degrees to radians: `deg * pi / 180`.
pub open spec fn spec_to_radians(deg: int) -> int {
    spec_muldiv(deg, PI as int, DEG_180 as int)
}

/// Radians to degrees: `rad * 180 / pi`.
pub open spec fn spec_to_degrees(rad: int) -> int {
    spec_muldiv(rad, DEG_180 as int, PI as int)
}

pub fn to_radians(deg: i64) -> (r: i64)
    requires
        -DEG_360 <= deg <= DEG_360,
    ensures
        r as int == spec_to_radians(deg as int),
        -TWO_PI <= r <= TWO_PI,
{
    proof {
        lemma_muldiv_bound(deg as int, PI as int, DEG_180 as int, DEG_360 as int, PI as int);
    }
    muldiv(deg, PI, DEG_180)
}

pub fn to_degrees(rad: i64) -> (r: i64)
    requires
        -ATAN2_MAX <= rad <= ATAN2_MAX,
    ensures
        r as int == spec_to_degrees(rad as int),
        -195_000_000_000 <= r <= 195_000_000_000,
{
    proof {
        lemma_muldiv_bound(rad as int, DEG_180 as int, PI as int, ATAN2_MAX as int, DEG_180 as int);
    }
    muldiv(rad, DEG_180, PI)
}

/// Coefficients of the 8th-degree cosine polynomial (scalar tier).
pub const COS8_C2: i64 = -500_000_000;

pub const COS8_C4: i64 = 41_666_667;

pub const COS8_C6: i64 = -1_388_889;

pub const COS8_C8: i64 = 24_802;

/// Coefficients of the 4th-degree cosine polynomial (batch-kernel tier).
pub const COS4_C2: i64 = -499_999_900;

pub const COS4_C4: i64 = 41_663_680;

/// 8th-degree even polynomial for the cosine on `[0, pi/2]`, evaluated by
/// Horner's method in `u = x^2`.
pub open spec fn spec_cos8_poly(x: int) -> int {
    let u = spec_fmul(x, x);
    let h1 = COS8_C6 + spec_fmul(u, COS8_C8 as int);
    let h2 = COS8_C4 + spec_fmul(u, h1);
    let h3 = COS8_C2 + spec_fmul(u, h2);
    SCALE + spec_fmul(u, h3)
}

/// 4th-degree even polynomial for the cosine on `[0, pi/2]`.
pub open spec fn spec_cos4_poly(x: int) -> int {
    let u = spec_fmul(x, x);
    let h = COS4_C2 + spec_fmul(u, COS4_C4 as int);
    SCALE + spec_fmul(u, h)
}

/// Quadrant reduction shared by both cosine tiers: fold `[-2pi, 2pi]` into
/// `[0, pi/2]` by periodicity and symmetry, tracking a sign flip at each
/// reduction. Returns the reduced argument and the sign (`1` or `-1`).
pub open spec fn spec_cos_reduce(x: int) -> (int, int) {
    let x0 = if x < 0 {
        x + TWO_PI
    } else {
        x
    };
    let p = if x0 > PI {
        (x0 - PI, -1int)
    } else {
        (x0, 1int)
    };
    if p.0 > HALF_PI {
        (PI - p.0, -p.1)
    } else {
        (p.0, p.1)
    }
}

/// The scalar cosine: quadrant reduction followed by the 8th-degree
/// polynomial.
pub open spec fn spec_cos8(x: int) -> int {
    let r = spec_cos_reduce(x);
    r.1 * spec_cos8_poly(r.0)
}

/// The batch-kernel cosine: quadrant reduction followed by the 4th-degree
/// polynomial.
pub open spec fn spec_cos4(x: int) -> int {
    let r = spec_cos_reduce(x);
    r.1 * spec_cos4_poly(r.0)
}

/// The reduction lands in `[0, pi/2]` for every argument in `[-2pi, 2pi]`.
pub proof fn lemma_cos_reduce_range(x: int)
    requires
        -TWO_PI <= x <= TWO_PI,
    ensures
        0 <= spec_cos_reduce(x).0 <= HALF_PI,
        spec_cos_reduce(x).1 == 1 || spec_cos_reduce(x).1 == -1,
{
}

/// Evaluate the 8th-degree cosine polynomial on a reduced argument.
fn cos8_poly(x: i64) -> (r: i64)
    requires
        0 <= x <= HALF_PI,
    ensures
        r as int == spec_cos8_poly(x as int),
        10_000 <= r <= SCALE,
{
    proof {
        lemma_cos8_poly_bounds(x as int);
        let gu = spec_fmul(x as int, x as int);
        assert(0 <= (x as int) * (x as int) <= 1_570_796_327int * 1_570_796_327)
            by (nonlinear_arith)
            requires
                0 <= x as int <= 1_570_796_327,
        ;
        lemma_tdiv_pos_bracket((x as int) * (x as int), SCALE as int);
        lemma_tdiv_mono((x as int) * (x as int), 1_570_796_327int * 1_570_796_327, SCALE as int);
        assert(0 <= gu <= 2_467_401_101);
        let um = 2_467_401_101int;
        lemma_fmul_bound(gu, COS8_C8 as int, um, COS8_C8 as int);
        let gh1 = COS8_C6 + spec_fmul(gu, COS8_C8 as int);
        assert(-1_500_000 <= gh1 <= 1_500_000);
        lemma_fmul_bound(gu, gh1, um, 1_500_000int);
        let gh2 = COS8_C4 + spec_fmul(gu, gh1);
        assert(-46_000_000 <= gh2 <= 46_000_000);
        lemma_fmul_bound(gu, gh2, um, 46_000_000int);
        let gh3 = COS8_C2 + spec_fmul(gu, gh2);
        assert(-615_000_000 <= gh3 <= 615_000_000);
        lemma_fmul_bound(gu, gh3, um, 615_000_000int);
    }
    let u = fmul(x, x);
    let h1 = COS8_C6 + fmul(u, COS8_C8);
    let h2 = COS8_C4 + fmul(u, h1);
    let h3 = COS8_C2 + fmul(u, h2);
    SCALE + fmul(u, h3)
}

/// Evaluate the 4th-degree cosine polynomial on a reduced argument.
fn cos4_poly(x: i64) -> (r: i64)
    requires
        0 <= x <= HALF_PI,
    ensures
        r as int == spec_cos4_poly(x as int),
        15_000_000 <= r <= SCALE,
{
    proof {
        lemma_cos4_poly_bounds(x as int);
        let gu = spec_fmul(x as int, x as int);
        assert(0 <= (x as int) * (x as int) <= 1_570_796_327int * 1_570_796_327)
            by (nonlinear_arith)
            requires
                0 <= x as int <= 1_570_796_327,
        ;
        lemma_tdiv_pos_bracket((x as int) * (x as int), SCALE as int);
        lemma_tdiv_mono((x as int) * (x as int), 1_570_796_327int * 1_570_796_327, SCALE as int);
        assert(0 <= gu <= 2_467_401_101);
        let um = 2_467_401_101int;
        lemma_fmul_bound(gu, COS4_C4 as int, um, COS4_C4 as int);
        let gh = COS4_C2 + spec_fmul(gu, COS4_C4 as int);
        assert(-615_000_000 <= gh <= 615_000_000);
        lemma_fmul_bound(gu, gh, um, 615_000_000int);
    }
    let u = fmul(x, x);
    let h = COS4_C2 + fmul(u, COS4_C4);
    SCALE + fmul(u, h)
}

/// Quadrant reduction shared by the two executable cosines.
fn cos_reduce(x: i64) -> (r: (i64, i64))
    requires
        -TWO_PI <= x <= TWO_PI,
    ensures
        (r.0 as int, r.1 as int) == spec_cos_reduce(x as int),
        0 <= r.0 <= HALF_PI,
        r.1 == 1i64 || r.1 == -1i64,
{
    let x0: i64 = if x < 0 {
        x + TWO_PI
    } else {
        x
    };
    let mut y: i64 = x0;
    let mut sign: i64 = 1;
    if y > PI {
        y = y - PI;
        sign = -sign;
    }
    if y > HALF_PI {
        y = PI - y;
        sign = -sign;
    }
    (y, sign)
}

/// The scalar cosine: 8th-degree tier, exact to its specification.
pub fn cos8(x: i64) -> (r: i64)
    requires
        -TWO_PI <= x <= TWO_PI,
    ensures
        r as int == spec_cos8(x as int),
        -SCALE <= r <= SCALE,
{
    let (y, sign) = cos_reduce(x);
    let c = cos8_poly(y);
    if sign < 0 {
        -c
    } else {
        c
    }
}

/// The batch-kernel cosine: 4th-degree tier, exact to its specification.
pub fn cos4(x: i64) -> (r: i64)
    requires
        -TWO_PI <= x <= TWO_PI,
    ensures
        r as int == spec_cos4(x as int),
        -SCALE <= r <= SCALE,
{
    let (y, sign) = cos_reduce(x);
    let c = cos4_poly(y);
    if sign < 0 {
        -c
    } else {
        c
    }
}

/// The scalar sine, through the shift identity `sin x == cos (x - pi/2)`.
pub open spec fn spec_sin8(x: int) -> int {
    spec_cos8(x - HALF_PI)
}

pub fn sin8(x: i64) -> (r: i64)
    requires
        HALF_PI - TWO_PI <= x <= TWO_PI,
    ensures
        r as int == spec_sin8(x as int),
        -SCALE <= r <= SCALE,
{
    cos8(x - HALF_PI)
}


/// Fold a latitude into the first quadrant of radians: the magnitude of the
/// radian value, which the even cosine accepts unchanged. Shared by the
/// scalar coefficient derivation and the batch kernel's lanes. Up to a hair
/// beyond 89 degrees the result stays below the sharp-positivity threshold
/// of the 8th-degree cosine polynomial.
pub(crate) fn latitude_to_quadrant(lat: i64) -> (r: i64)
    requires
        -DEG_90 <= lat <= DEG_90,
    ensures
        r as int == iabs(spec_to_radians(lat as int)),
        0 <= r <= HALF_PI,
        iabs(lat as int) <= 89_000_000_000 ==> r <= 1_553_400_000,
{
    proof {
        crate::fixed::lemma_tdiv_abs_bound(
            (lat as int) * (PI as int),
            (DEG_90 as int) * (PI as int),
            DEG_180 as int,
        );
        assert(-(DEG_90 as int) * (PI as int) <= (lat as int) * (PI as int) <= (DEG_90 as int) * (
        PI as int)) by (nonlinear_arith)
            requires
                -DEG_90 <= lat as int <= DEG_90,
        ;
        assert(tdiv((DEG_90 as int) * (PI as int), DEG_180 as int) == HALF_PI);
        if iabs(lat as int) <= 89_000_000_000 {
            assert(iabs((lat as int) * (PI as int)) <= 89_000_000_000 * (PI as int))
                by (nonlinear_arith)
                requires
                    iabs(lat as int) <= 89_000_000_000,
            ;
            crate::fixed::lemma_tdiv_abs_bound(
                (lat as int) * (PI as int),
                89_000_000_000 * (PI as int),
                DEG_180 as int,
            );
            assert(tdiv(89_000_000_000 * (PI as int), DEG_180 as int) == 1_553_343_034);
        }
    }
    let rad = to_radians(lat);
    if rad < 0 {
        -rad
    } else {
        rad
    }
}

/// Magnitude of an integer.
pub open spec fn iabs(x: int) -> int {
    if x >= 0 {
        x
    } else {
        -x
    }
}

/// The arctangent tier a ruler was built with. The 3-term and 5-term
/// polynomials trade accuracy (about a tenth and a hundredth of a radian)
/// for speed; the 11-term polynomial is accurate to about a milliradian and
/// serves as the reference tier.
#[derive(Clone, Copy, Debug, PartialEq, Eq, Structural)]
pub enum ArctanTier {
    Deg3,
    Deg5,
    Deg11,
}

/// Coefficients of the 3-term arctangent tier.
pub const ATAN3_A1: i64 = 981_700_000;

pub const ATAN3_A3: i64 = 196_300_000;

/// Coefficients of the 5-term arctangent tier.
pub const ATAN5_B1: i64 = 995_354_000;

pub const ATAN5_B3: i64 = -288_679_000;

pub const ATAN5_B5: i64 = 79_331_000;

/// Coefficients of the 11-term arctangent tier.
pub const ATAN11_D1: i64 = 999_977_260;

pub const ATAN11_D3: i64 = -332_623_470;

pub const ATAN11_D5: i64 = 193_543_460;

pub const ATAN11_D7: i64 = -116_432_870;

pub const ATAN11_D9: i64 = 52_653_320;

pub const ATAN11_D11: i64 = -11_721_200;

/// 3-term tier: one half-plane split on the sign of `x` picks the operand
/// ratio and the angle offset, then an odd cubic corrects the offset and the
/// sign of `y` reflects the result.
pub open spec fn spec_atan2_deg3(y: int, x: int) -> int {
    if y == 0 && x == 0 {
        0
    } else {
        let ay = iabs(y);
        let r = if x < 0 {
            spec_fdiv(x + ay, ay - x)
        } else {
            spec_fdiv(x - ay, x + ay)
        };
        let a = if x < 0 {
            THREE_QUARTER_PI as int
        } else {
            QUARTER_PI as int
        };
        let m2 = spec_fmul(ATAN3_A3 as int, spec_fmul(r, r)) - ATAN3_A1;
        let v = a + spec_fmul(m2, r);
        if y < 0 {
            -v
        } else {
            v
        }
    }
}

pub fn atan2_deg3(y: i64, x: i64) -> (r: i64)
    requires
        -ATAN2_ARG_MAX <= y <= ATAN2_ARG_MAX,
        -ATAN2_ARG_MAX <= x <= ATAN2_ARG_MAX,
    ensures
        r as int == spec_atan2_deg3(y as int, x as int),
        -ATAN2_MAX <= r <= ATAN2_MAX,
{
    if y == 0 && x == 0 {
        return 0;
    }
    let ay: i64 = if y < 0 {
        -y
    } else {
        y
    };
    let (q, a): (i64, i64) = if x < 0 {
        proof {
            lemma_fdiv_ratio_bound(x as int + ay as int, ay as int - x as int);
        }
        (fdiv(x + ay, ay - x), THREE_QUARTER_PI)
    } else {
        proof {
            lemma_fdiv_ratio_bound(x as int - ay as int, x as int + ay as int);
        }
        (fdiv(x - ay, x + ay), QUARTER_PI)
    };
    proof {
        lemma_fmul_bound(q as int, q as int, SCALE as int, SCALE as int);
        assert((q as int) * (q as int) >= 0) by (nonlinear_arith);
        lemma_tdiv_pos_bracket((q as int) * (q as int), SCALE as int);
        lemma_fmul_bound(ATAN3_A3 as int, spec_fmul(q as int, q as int), ATAN3_A3 as int,
            SCALE as int);
        crate::poly_bounds::lemma_atan3_correction_bound(q as int);
    }
    let m1 = fmul(q, q);
    let m2 = fmul(ATAN3_A3, m1) - ATAN3_A1;
    let v = a + fmul(m2, q);
    if y < 0 {
        -v
    } else {
        v
    }
}

/// Odd quintic used by the 5-term tier on a ratio in `[0, 1]`.
pub open spec fn spec_raw_atan5(z: int) -> int {
    let m = spec_fmul(z, z);
    spec_fmul(z, ATAN5_B1 + spec_fmul(m, ATAN5_B3 + spec_fmul(m, ATAN5_B5 as int)))
}

fn raw_atan5(z: i64) -> (r: i64)
    requires
        0 <= z <= SCALE,
    ensures
        r as int == spec_raw_atan5(z as int),
        0 <= r <= 995_354_000,
{
    proof {
        let s = SCALE as int;
        let gm = spec_fmul(z as int, z as int);
        assert(0 <= (z as int) * (z as int) <= s * s) by (nonlinear_arith)
            requires
                0 <= z as int <= s,
        ;
        lemma_tdiv_pos_bracket((z as int) * (z as int), s);
        lemma_tdiv_mono((z as int) * (z as int), s * s, s);
        crate::fixed::lemma_tdiv_multiple(s, s);
        assert(0 <= gm <= s);
        lemma_fmul_bound(gm, ATAN5_B5 as int, s, ATAN5_B5 as int);
        assert(gm * ATAN5_B5 >= 0) by (nonlinear_arith)
            requires
                gm >= 0,
        ;
        lemma_tdiv_pos_bracket(gm * ATAN5_B5, s);
        let gi1 = ATAN5_B3 + spec_fmul(gm, ATAN5_B5 as int);
        assert(-288_679_000 <= gi1 <= -209_348_000);
        lemma_fmul_bound(gm, gi1, s, 288_679_000int);
        assert(gm * gi1 <= 0) by (nonlinear_arith)
            requires
                gm >= 0,
                gi1 <= 0,
        ;
        lemma_tdiv_neg(-(gm * gi1), s);
        lemma_tdiv_pos_bracket(-(gm * gi1), s);
        let gi2 = ATAN5_B1 + spec_fmul(gm, gi1);
        assert(706_675_000 <= gi2 <= 995_354_000);
        lemma_fmul_bound(z as int, gi2, s, 995_354_000int);
        assert((z as int) * gi2 >= 0) by (nonlinear_arith)
            requires
                z as int >= 0,
                gi2 >= 0,
        ;
        lemma_tdiv_pos_bracket((z as int) * gi2, s);
        assert((z as int) * gi2 <= s * 995_354_000) by (nonlinear_arith)
            requires
                0 <= z as int <= s,
                0 <= gi2 <= 995_354_000,
        ;
        lemma_tdiv_mono((z as int) * gi2, s * 995_354_000, s);
        crate::fixed::lemma_tdiv_multiple(995_354_000int, s);
        assert(s * 995_354_000 == 995_354_000int * s) by (nonlinear_arith);
    }
    let m = fmul(z, z);
    let i1 = ATAN5_B3 + fmul(m, ATAN5_B5);
    let i2 = ATAN5_B1 + fmul(m, i1);
    fmul(z, i2)
}

/// 5-term tier: swap the operands when `|x| < |y|` and reflect through
/// `pi/2`, reflect through `pi` when `x < 0`, negate when `y < 0`.
pub open spec fn spec_atan2_deg5(y: int, x: int) -> int {
    if y == 0 && x == 0 {
        0
    } else {
        let ay = iabs(y);
        let ax = iabs(x);
        let r0 = if ax < ay {
            HALF_PI - spec_raw_atan5(spec_fdiv(ax, ay))
        } else {
            spec_raw_atan5(spec_fdiv(ay, ax))
        };
        let r1 = if x < 0 {
            PI - r0
        } else {
            r0
        };
        if y < 0 {
            -r1
        } else {
            r1
        }
    }
}

pub fn atan2_deg5(y: i64, x: i64) -> (r: i64)
    requires
        -ATAN2_ARG_MAX <= y <= ATAN2_ARG_MAX,
        -ATAN2_ARG_MAX <= x <= ATAN2_ARG_MAX,
    ensures
        r as int == spec_atan2_deg5(y as int, x as int),
        -PI <= r <= PI,
        y >= 0 ==> r >= 0,
        y < 0 ==> r <= 0,
        x >= 0 ==> -HALF_PI <= r <= HALF_PI,
        x < 0 ==> r >= HALF_PI || r <= -HALF_PI,
{
    if y == 0 && x == 0 {
        return 0;
    }
    let ay: i64 = if y < 0 {
        -y
    } else {
        y
    };
    let ax: i64 = if x < 0 {
        -x
    } else {
        x
    };
    let r0: i64 = if ax < ay {
        proof {
            lemma_fdiv_ratio_bound(ax as int, ay as int);
            crate::fixed::lemma_tdiv_pos_bracket((ax as int) * (SCALE as int), ay as int);
            assert((ax as int) * (SCALE as int) >= 0) by (nonlinear_arith)
                requires
                    ax as int >= 0,
            ;
        }
        HALF_PI - raw_atan5(fdiv(ax, ay))
    } else {
        proof {
            lemma_fdiv_ratio_bound(ay as int, ax as int);
            assert((ay as int) * (SCALE as int) >= 0) by (nonlinear_arith)
                requires
                    ay as int >= 0,
            ;
            crate::fixed::lemma_tdiv_pos_bracket((ay as int) * (SCALE as int), ax as int);
        }
        raw_atan5(fdiv(ay, ax))
    };
    let r1: i64 = if x < 0 {
        PI - r0
    } else {
        r0
    };
    if y < 0 {
        -r1
    } else {
        r1
    }
}

/// Odd 11th-degree polynomial used by the reference tier on a ratio in
/// `[0, 1]`.
pub open spec fn spec_raw_atan11(z: int) -> int {
    let m = spec_fmul(z, z);
    let i1 = ATAN11_D9 + spec_fmul(m, ATAN11_D11 as int);
    let i2 = ATAN11_D7 + spec_fmul(m, i1);
    let i3 = ATAN11_D5 + spec_fmul(m, i2);
    let i4 = ATAN11_D3 + spec_fmul(m, i3);
    spec_fmul(z, ATAN11_D1 + spec_fmul(m, i4))
}

fn raw_atan11(z: i64) -> (r: i64)
    requires
        0 <= z <= SCALE,
    ensures
        r as int == spec_raw_atan11(z as int),
        0 <= r <= 999_977_260,
{
    proof {
        let s = SCALE as int;
        let gm = spec_fmul(z as int, z as int);
        assert(0 <= (z as int) * (z as int) <= s * s) by (nonlinear_arith)
            requires
                0 <= z as int <= s,
        ;
        lemma_tdiv_pos_bracket((z as int) * (z as int), s);
        lemma_tdiv_mono((z as int) * (z as int), s * s, s);
        crate::fixed::lemma_tdiv_multiple(s, s);
        assert(0 <= gm <= s);
        lemma_fmul_bound(gm, ATAN11_D11 as int, s, 11_721_200int);
        assert(gm * ATAN11_D11 <= 0) by (nonlinear_arith)
            requires
                gm >= 0,
        ;
        lemma_tdiv_neg(-(gm * ATAN11_D11), s);
        lemma_tdiv_pos_bracket(-(gm * ATAN11_D11), s);
        let gi1 = ATAN11_D9 + spec_fmul(gm, ATAN11_D11 as int);
        assert(40_932_120 <= gi1 <= 52_653_320);
        lemma_fmul_bound(gm, gi1, s, 52_653_320int);
        assert(gm * gi1 >= 0) by (nonlinear_arith)
            requires
                gm >= 0,
                gi1 >= 0,
        ;
        lemma_tdiv_pos_bracket(gm * gi1, s);
        let gi2 = ATAN11_D7 + spec_fmul(gm, gi1);
        assert(-116_432_870 <= gi2 <= -63_779_550);
        lemma_fmul_bound(gm, gi2, s, 116_432_870int);
        assert(gm * gi2 <= 0) by (nonlinear_arith)
            requires
                gm >= 0,
                gi2 <= 0,
        ;
        lemma_tdiv_neg(-(gm * gi2), s);
        lemma_tdiv_pos_bracket(-(gm * gi2), s);
        let gi3 = ATAN11_D5 + spec_fmul(gm, gi2);
        assert(77_110_590 <= gi3 <= 193_543_460);
        lemma_fmul_bound(gm, gi3, s, 193_543_460int);
        assert(gm * gi3 >= 0) by (nonlinear_arith)
            requires
                gm >= 0,
                gi3 >= 0,
        ;
        lemma_tdiv_pos_bracket(gm * gi3, s);
        let gi4 = ATAN11_D3 + spec_fmul(gm, gi3);
        assert(-332_623_470 <= gi4 <= -139_080_010);
        lemma_fmul_bound(gm, gi4, s, 332_623_470int);
        assert(gm * gi4 <= 0) by (nonlinear_arith)
            requires
                gm >= 0,
                gi4 <= 0,
        ;
        lemma_tdiv_neg(-(gm * gi4), s);
        lemma_tdiv_pos_bracket(-(gm * gi4), s);
        let gi5 = ATAN11_D1 + spec_fmul(gm, gi4);
        assert(667_353_790 <= gi5 <= 999_977_260);
        lemma_fmul_bound(z as int, gi5, s, 999_977_260int);
        assert((z as int) * gi5 >= 0) by (nonlinear_arith)
            requires
                z as int >= 0,
                gi5 >= 0,
        ;
        lemma_tdiv_pos_bracket((z as int) * gi5, s);
        assert((z as int) * gi5 <= s * 999_977_260) by (nonlinear_arith)
            requires
                0 <= z as int <= s,
                0 <= gi5 <= 999_977_260,
        ;
        lemma_tdiv_mono((z as int) * gi5, s * 999_977_260, s);
        crate::fixed::lemma_tdiv_multiple(999_977_260int, s);
        assert(s * 999_977_260 == 999_977_260int * s) by (nonlinear_arith);
    }
    let m = fmul(z, z);
    let i1 = ATAN11_D9 + fmul(m, ATAN11_D11);
    let i2 = ATAN11_D7 + fmul(m, i1);
    let i3 = ATAN11_D5 + fmul(m, i2);
    let i4 = ATAN11_D3 + fmul(m, i3);
    let i5 = ATAN11_D1 + fmul(m, i4);
    fmul(z, i5)
}

/// Reference tier: the shape of the 5-term tier with the 11-term polynomial.
pub open spec fn spec_atan2_deg11(y: int, x: int) -> int {
    if y == 0 && x == 0 {
        0
    } else {
        let ay = iabs(y);
        let ax = iabs(x);
        let r0 = if ax < ay {
            HALF_PI - spec_raw_atan11(spec_fdiv(ax, ay))
        } else {
            spec_raw_atan11(spec_fdiv(ay, ax))
        };
        let r1 = if x < 0 {
            PI - r0
        } else {
            r0
        };
        if y < 0 {
            -r1
        } else {
            r1
        }
    }
}

pub fn atan2_deg11(y: i64, x: i64) -> (r: i64)
    requires
        -ATAN2_ARG_MAX <= y <= ATAN2_ARG_MAX,
        -ATAN2_ARG_MAX <= x <= ATAN2_ARG_MAX,
    ensures
        r as int == spec_atan2_deg11(y as int, x as int),
        -PI <= r <= PI,
        y >= 0 ==> r >= 0,
        y < 0 ==> r <= 0,
        x >= 0 ==> -HALF_PI <= r <= HALF_PI,
        x < 0 ==> r >= HALF_PI || r <= -HALF_PI,
{
    if y == 0 && x == 0 {
        return 0;
    }
    let ay: i64 = if y < 0 {
        -y
    } else {
        y
    };
    let ax: i64 = if x < 0 {
        -x
    } else {
        x
    };
    let r0: i64 = if ax < ay {
        proof {
            lemma_fdiv_ratio_bound(ax as int, ay as int);
            assert((ax as int) * (SCALE as int) >= 0) by (nonlinear_arith)
                requires
                    ax as int >= 0,
            ;
            crate::fixed::lemma_tdiv_pos_bracket((ax as int) * (SCALE as int), ay as int);
        }
        HALF_PI - raw_atan11(fdiv(ax, ay))
    } else {
        proof {
            lemma_fdiv_ratio_bound(ay as int, ax as int);
            assert((ay as int) * (SCALE as int) >= 0) by (nonlinear_arith)
                requires
                    ay as int >= 0,
            ;
            crate::fixed::lemma_tdiv_pos_bracket((ay as int) * (SCALE as int), ax as int);
        }
        raw_atan11(fdiv(ay, ax))
    };
    let r1: i64 = if x < 0 {
        PI - r0
    } else {
        r0
    };
    if y < 0 {
        -r1
    } else {
        r1
    }
}

/// The arctangent of `y / x` in the tier the ruler was built with.
pub open spec fn spec_atan2(tier: ArctanTier, y: int, x: int) -> int {
    match tier {
        ArctanTier::Deg3 => spec_atan2_deg3(y, x),
        ArctanTier::Deg5 => spec_atan2_deg5(y, x),
        ArctanTier::Deg11 => spec_atan2_deg11(y, x),
    }
}

pub fn atan2(y: i64, x: i64, tier: ArctanTier) -> (r: i64)
    requires
        -ATAN2_ARG_MAX <= y <= ATAN2_ARG_MAX,
        -ATAN2_ARG_MAX <= x <= ATAN2_ARG_MAX,
    ensures
        r as int == spec_atan2(tier, y as int, x as int),
        -ATAN2_MAX <= r <= ATAN2_MAX,
{
    match tier {
        ArctanTier::Deg3 => atan2_deg3(y, x),
        ArctanTier::Deg5 => atan2_deg5(y, x),
        ArctanTier::Deg11 => atan2_deg11(y, x),
    }
}

/// Every tier is odd in `y` away from the horizontal axis: reflecting the
/// point across that axis negates the angle, exactly as the platform
/// convention has it.
pub proof fn lemma_atan2_odd(tier: ArctanTier, y: int, x: int)
    requires
        y != 0,
    ensures
        spec_atan2(tier, -y, x) == -spec_atan2(tier, y, x),
{
    assert(iabs(-y) == iabs(y));
}

} // verus!
