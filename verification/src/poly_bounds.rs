//! Range and positivity bounds for the polynomial tiers.
//!
//! These proofs carry interval arithmetic through the truncated Horner
//! chains, plus two correlated bounds that plain intervals cannot reach: a
//! quartic lower bound for the 8th-degree cosine polynomial near the end of
//! the quadrant, where it comes within 2.5e-5 of zero, and a cubic bound on
//! the 3-term arctangent's correction, whose extremes sit exactly at the
//! ends of the ratio range. They stand apart from the trigonometry module
//! to keep their solver context small.

use crate::fixed::{
    lemma_fmul_bound, lemma_tdiv_mono, lemma_tdiv_neg, lemma_tdiv_pos_bracket, spec_fmul, tdiv,
    SCALE,
};
use crate::trig::{
    spec_cos4_poly, spec_cos8_poly, ATAN3_A1, ATAN3_A3, COS4_C2, COS4_C4, COS8_C2, COS8_C4,
    COS8_C6, COS8_C8, HALF_PI,
};
use vstd::prelude::*;

verus! {

/// The 3-term arctangent's odd cubic correction `(a3 q^2 - a1) q` never
/// leaves `[-(a1 - a3) - slack, (a1 - a3) + slack]` for a ratio `q` within
/// one unit: its extremes sit at `q == +-1`, where the cubic term cancels
/// `a3` exactly, and each truncation contributes at most one unit of slack.
pub proof fn lemma_atan3_correction_bound(q: int)
    requires
        -(SCALE as int) <= q <= SCALE as int,
    ensures
        -785_400_010 <= spec_fmul(
            spec_fmul(ATAN3_A3 as int, spec_fmul(q, q)) - ATAN3_A1,
            q,
        ) <= 785_400_010,
{
    let s = SCALE as int;
    let a1 = ATAN3_A1 as int;
    let a3 = ATAN3_A3 as int;
    let aq: int = if q >= 0 {
        q
    } else {
        -q
    };
    let m1 = spec_fmul(q, q);
    assert(q * q == aq * aq && 0 <= aq * aq && aq * aq <= s * s) by (nonlinear_arith)
        requires
            aq == if q >= 0 {
                q
            } else {
                -q
            },
            -s <= q <= s,
    ;
    lemma_tdiv_pos_bracket(aq * aq, s);
    lemma_tdiv_mono(aq * aq, s * s, s);
    crate::fixed::lemma_tdiv_multiple(s, s);
    assert(0 <= m1 <= s);
    let t = spec_fmul(a3, m1);
    assert(0 <= a3 * m1 && a3 * m1 <= a3 * s) by (nonlinear_arith)
        requires
            0 <= m1 <= s,
            a3 == 196_300_000,
    ;
    lemma_tdiv_pos_bracket(a3 * m1, s);
    lemma_tdiv_mono(a3 * m1, a3 * s, s);
    assert(a3 * s == s * a3) by (nonlinear_arith);
    crate::fixed::lemma_tdiv_multiple(a3, s);
    let m2 = t - a1;
    assert(-a1 <= m2 <= a3 - a1);
    // the correction's magnitude is (-m2) * aq
    let n = (0 - m2) * aq;
    assert(-n <= m2 * q <= n) by (nonlinear_arith)
        requires
            n == (0 - m2) * aq,
            aq == if q >= 0 {
                q
            } else {
                -q
            },
            m2 <= 0,
    ;
    crate::fixed::lemma_tdiv_abs_bound(m2 * q, n, s);
    // chain the two truncation brackets into a cubic bound on s^2 * n
    assert((t + 1) * s == t * s + s && s * t == t * s) by (nonlinear_arith);
    assert(s * t >= a3 * m1 - s + 1);
    assert(s * (0 - m2) == s * a1 - s * t) by (nonlinear_arith)
        requires
            m2 == t - a1,
    ;
    assert(s * (0 - m2) <= s * a1 - a3 * m1 + s - 1);
    assert(s * n == aq * (s * (0 - m2))) by (nonlinear_arith)
        requires
            n == (0 - m2) * aq,
    ;
    assert(aq * (s * (0 - m2)) <= aq * (s * a1 - a3 * m1 + s - 1)) by (nonlinear_arith)
        requires
            0 <= aq,
            s * (0 - m2) <= s * a1 - a3 * m1 + s - 1,
    ;
    assert(s * n <= aq * (s * a1 - a3 * m1 + s - 1));
    assert(s * (s * n) <= s * (aq * (s * a1 - a3 * m1 + s - 1))) by (nonlinear_arith)
        requires
            s * n <= aq * (s * a1 - a3 * m1 + s - 1),
            s > 0,
    ;
    assert((m1 + 1) * s == m1 * s + s && s * m1 == m1 * s) by (nonlinear_arith);
    assert(s * m1 >= aq * aq - s + 1);
    assert(s * (aq * (s * a1 - a3 * m1 + s - 1)) == aq * (s * (s * a1 - a3 * m1 + s - 1)))
        by (nonlinear_arith);
    assert(s * (s * a1 - a3 * m1 + s - 1) == s * s * a1 + s * (s - 1) - a3 * (s * m1))
        by (nonlinear_arith);
    assert(aq * (s * s * a1 + s * (s - 1) - a3 * (s * m1)) == aq * (s * s * a1 + s * (s - 1))
        - aq * (a3 * (s * m1))) by (nonlinear_arith);
    assert(a3 * (s * m1) >= a3 * (aq * aq - s + 1)) by (nonlinear_arith)
        requires
            s * m1 >= aq * aq - s + 1,
            a3 == 196_300_000,
    ;
    assert(aq * (a3 * (s * m1)) >= aq * (a3 * (aq * aq - s + 1))) by (nonlinear_arith)
        requires
            0 <= aq,
            a3 * (s * m1) >= a3 * (aq * aq - s + 1),
    ;
    assert(aq * (a3 * (aq * aq - s + 1)) == a3 * (aq * aq * aq) - a3 * (aq * (s - 1)))
        by (nonlinear_arith);
    let lin = s * s * a1 + (s - 1) * (s + a3);
    assert(lin * aq == aq * (s * s * a1 + s * (s - 1)) + a3 * (aq * (s - 1)))
        by (nonlinear_arith)
        requires
            lin == s * s * a1 + (s - 1) * (s + a3),
    ;
    assert(s * (s * n) <= lin * aq - a3 * (aq * aq * aq));
    // the cubic is largest at the end of the range
    let dz = s - aq;
    let pa = a3 * (s * s + s * aq + aq * aq);
    assert(s * s * s - aq * aq * aq == dz * (s * s + s * aq + aq * aq)) by (nonlinear_arith)
        requires
            dz == s - aq,
    ;
    assert(a3 * (s * s * s) - a3 * (aq * aq * aq) == dz * pa) by (nonlinear_arith)
        requires
            s * s * s - aq * aq * aq == dz * (s * s + s * aq + aq * aq),
            pa == a3 * (s * s + s * aq + aq * aq),
    ;
    assert(lin * s - lin * aq == dz * lin) by (nonlinear_arith)
        requires
            dz == s - aq,
    ;
    assert(s * aq <= s * s && aq * aq <= s * s) by (nonlinear_arith)
        requires
            0 <= aq <= s,
    ;
    assert(pa <= 3 * (196_300_000int * (s * s))) by (nonlinear_arith)
        requires
            pa == a3 * (s * s + s * aq + aq * aq),
            s * aq <= s * s,
            aq * aq <= s * s,
            a3 == 196_300_000,
    ;
    assert(lin >= 3 * (196_300_000int * (s * s))) by (nonlinear_arith)
        requires
            lin == s * s * a1 + (s - 1) * (s + a3),
            s == 1_000_000_000,
            a1 == 981_700_000,
            a3 == 196_300_000,
    ;
    assert(dz * (lin - pa) >= 0) by (nonlinear_arith)
        requires
            dz >= 0,
            lin - pa >= 0,
    ;
    assert(dz * lin - dz * pa == dz * (lin - pa)) by (nonlinear_arith);
    assert(lin * aq - a3 * (aq * aq * aq) <= lin * s - a3 * (s * s * s));
    assert(lin * s - a3 * (s * s * s) <= 785_400_002 * (s * (s * s))) by (nonlinear_arith)
        requires
            lin == s * s * a1 + (s - 1) * (s + a3),
            s == 1_000_000_000,
            a1 == 981_700_000,
            a3 == 196_300_000,
    ;
    assert(n <= 785_400_002 * s) by (nonlinear_arith)
        requires
            s * (s * n) <= 785_400_002 * (s * (s * s)),
            s == 1_000_000_000,
    ;
    lemma_tdiv_mono(n, 785_400_002int * s, s);
    crate::fixed::lemma_tdiv_multiple(785_400_002int, s);
    assert(tdiv(n, s) <= 785_400_002);
}

/// Quartic positivity tail for the 8th-degree cosine polynomial: over the
/// whole quadrant the truncated Horner chain stays above 1e-5, carried as a
/// correlated quartic lower bound that decreases toward the quadrant's end.
proof fn lemma_cos8_tail_positive(u: int, t8: int, h1: int, t6: int, h2: int, t4: int, h3: int, t2: int)
    requires
        0 <= u <= 2_467_401_101,
        t8 == spec_fmul(u, COS8_C8 as int),
        h1 == COS8_C6 + t8,
        -1_388_889 <= h1 <= -1_327_691,
        t6 == spec_fmul(u, h1),
        h2 == COS8_C4 + t6,
        38_239_716 <= h2 <= 41_666_667,
        t4 == spec_fmul(u, h2),
        h3 == COS8_C2 + t4,
        -500_000_000 <= h3 <= -397_191_620,
        t2 == spec_fmul(u, h3),
    ensures
        SCALE + t2 >= 10_000,
{
    let s = SCALE as int;
    let um = 2_467_401_101int;
    assert(u * COS8_C8 >= 0) by (nonlinear_arith)
        requires
            u >= 0,
    ;
    lemma_tdiv_pos_bracket(u * COS8_C8, s);
    assert(u * h1 <= 0) by (nonlinear_arith)
        requires
            u >= 0,
            h1 <= 0,
    ;
    lemma_tdiv_neg(-(u * h1), s);
    lemma_tdiv_pos_bracket(-(u * h1), s);
    assert(u * h2 >= 0) by (nonlinear_arith)
        requires
            u >= 0,
            h2 >= 0,
    ;
    lemma_tdiv_pos_bracket(u * h2, s);
    assert(u * h3 <= 0) by (nonlinear_arith)
        requires
            u >= 0,
            h3 <= 0,
    ;
    lemma_tdiv_neg(-(u * h3), s);
    lemma_tdiv_pos_bracket(-(u * h3), s);
    // At the quadrant's far end the polynomial comes within 2.5e-5 of
    // zero, where plain interval bounds go negative; carry the full quartic
    // through the Horner chain instead, tracking one unit of truncation per
    // stage.
    assert((t8 + 1) * s == t8 * s + s && s * t8 == t8 * s) by (nonlinear_arith);
    assert(s * t8 >= u * COS8_C8 - s + 1);
    assert(s * h1 == s * COS8_C6 + s * t8) by (nonlinear_arith)
        requires
            h1 == COS8_C6 + t8,
    ;
    let b1 = s * COS8_C6 + u * COS8_C8 - s + 1;
    assert(s * h1 >= b1);
    assert(s * t6 >= u * h1) by {
        assert(tdiv(-(u * h1), s) * s <= -(u * h1));
        assert(t6 == -tdiv(-(u * h1), s));
        assert(s * t6 == -(tdiv(-(u * h1), s) * s)) by (nonlinear_arith)
            requires
                t6 == -tdiv(-(u * h1), s),
        ;
    }
    assert(s * (s * t6) >= s * (u * h1)) by (nonlinear_arith)
        requires
            s * t6 >= u * h1,
            s > 0,
    ;
    assert(s * (u * h1) == u * (s * h1)) by (nonlinear_arith);
    assert(u * (s * h1) >= u * b1) by (nonlinear_arith)
        requires
            u >= 0,
            s * h1 >= b1,
    ;
    let b2 = s * s * COS8_C4 + u * s * COS8_C6 + u * u * COS8_C8 - u * s + u;
    assert(s * (s * h2) == s * s * COS8_C4 + s * (s * t6)) by (nonlinear_arith)
        requires
            h2 == COS8_C4 + t6,
    ;
    assert(u * b1 == u * s * COS8_C6 + u * u * COS8_C8 - u * s + u) by (nonlinear_arith)
        requires
            b1 == s * COS8_C6 + u * COS8_C8 - s + 1,
    ;
    assert(s * (s * h2) >= b2);
    assert((t4 + 1) * s == t4 * s + s && s * t4 == t4 * s) by (nonlinear_arith);
    assert(s * t4 >= u * h2 - s + 1);
    assert(s * (s * (s * t4)) >= s * (s * (u * h2)) - s * s * s + s * s) by (nonlinear_arith)
        requires
            s * t4 >= u * h2 - s + 1,
            s == 1_000_000_000,
    ;
    assert(s * (s * (u * h2)) == u * (s * (s * h2))) by (nonlinear_arith);
    assert(u * (s * (s * h2)) >= u * b2) by (nonlinear_arith)
        requires
            u >= 0,
            s * (s * h2) >= b2,
    ;
    let b3 = s * s * s * COS8_C2 + u * b2 - s * s * s + s * s;
    assert(s * (s * (s * h3)) == s * s * s * COS8_C2 + s * (s * (s * t4))) by (nonlinear_arith)
        requires
            h3 == COS8_C2 + t4,
    ;
    assert(s * (s * (s * h3)) >= b3);
    assert(s * t2 >= u * h3) by {
        assert(tdiv(-(u * h3), s) * s <= -(u * h3));
        assert(t2 == -tdiv(-(u * h3), s));
        assert(s * t2 == -(tdiv(-(u * h3), s) * s)) by (nonlinear_arith)
            requires
                t2 == -tdiv(-(u * h3), s),
        ;
    }
    assert(s * (s * (s * (s * t2))) >= u * (s * (s * (s * h3)))) by (nonlinear_arith)
        requires
            s * t2 >= u * h3,
            s > 0,
    ;
    assert(u * (s * (s * (s * h3))) >= u * b3) by (nonlinear_arith)
        requires
            u >= 0,
            s * (s * (s * h3)) >= b3,
    ;
    // G(u), the quartic lower bound of s^4 * (s + t2), decreases over the
    // quadrant; split its difference quotient into bounded parts.
    let ga = COS8_C8 as int;
    let gb = s * COS8_C6 - s + 1;
    let gc = s * s * COS8_C4;
    let gd = s * s * s * COS8_C2 - s * s * s + s * s;
    assert(b2 == gc + gb * u + ga * (u * u)) by (nonlinear_arith)
        requires
            b2 == s * s * COS8_C4 + u * s * COS8_C6 + u * u * COS8_C8 - u * s + u,
            ga == COS8_C8 as int,
            gb == s * COS8_C6 - s + 1,
            gc == s * s * COS8_C4,
    ;
    assert(b3 == gd + u * b2);
    assert(u * b3 == gd * u + u * (u * b2)) by (nonlinear_arith)
        requires
            b3 == gd + u * b2,
    ;
    assert(u * (u * b2) == gc * (u * u) + gb * (u * u * u) + ga * (u * u * u * u))
        by (nonlinear_arith)
        requires
            b2 == gc + gb * u + ga * (u * u),
    ;
    assert(u * b3 == ga * (u * u * u * u) + gb * (u * u * u) + gc * (u * u) + gd * u);
    let p1 = ga * (u * u * u + u * u * um + u * (um * um) + um * um * um);
    let p2 = gb * (u * u + u * um + um * um);
    let p3 = gc * (u + um);
    let du = u - um;
    assert(u * u * u * u - um * um * um * um == du * (u * u * u + u * u * um + u * (um * um)
        + um * um * um)) by (nonlinear_arith)
        requires
            du == u - um,
    ;
    assert(ga * (u * u * u * u) - ga * (um * um * um * um) == du * p1) by (nonlinear_arith)
        requires
            u * u * u * u - um * um * um * um == du * (u * u * u + u * u * um + u * (um * um) + um
                * um * um),
            p1 == ga * (u * u * u + u * u * um + u * (um * um) + um * um * um),
    ;
    assert(gb * (u * u * u) - gb * (um * um * um) == du * p2) by (nonlinear_arith)
        requires
            p2 == gb * (u * u + u * um + um * um),
            du == u - um,
    ;
    assert(gc * (u * u) - gc * (um * um) == du * p3) by (nonlinear_arith)
        requires
            p3 == gc * (u + um),
            du == u - um,
    ;
    assert(gd * u - gd * um == du * gd) by (nonlinear_arith)
        requires
            du == u - um,
    ;
    assert(du * p1 + du * p2 + du * p3 + du * gd == du * (p1 + p2 + p3 + gd))
        by (nonlinear_arith);
    assert(u * u * u <= um * um * um && u * u * um <= um * um * um && u * (um * um) <= um * um
        * um) by (nonlinear_arith)
        requires
            0 <= u <= um,
    ;
    assert(p1 <= 2_000_000_000_000_000_000_000_000_000_000_000) by (nonlinear_arith)
        requires
            p1 == ga * (u * u * u + u * u * um + u * (um * um) + um * um * um),
            u * u * u + u * u * um + u * (um * um) + um * um * um <= 4 * (um * um * um),
            um == 2_467_401_101,
            ga == 24_802,
    ;
    assert(u * u + u * um + um * um >= um * um) by (nonlinear_arith)
        requires
            0 <= u,
            0 <= um,
    ;
    assert(p2 <= -8_000_000_000_000_000_000_000_000_000_000_000) by (nonlinear_arith)
        requires
            p2 == gb * (u * u + u * um + um * um),
            u * u + u * um + um * um >= um * um,
            um == 2_467_401_101,
            gb == 1_000_000_000 * (-1_388_889) - 1_000_000_000 + 1,
    ;
    assert(p3 <= 210_000_000_000_000_000_000_000_000_000_000_000) by (nonlinear_arith)
        requires
            p3 == gc * (u + um),
            0 <= u <= um,
            um == 2_467_401_101,
            gc == 1_000_000_000 * 1_000_000_000 * 41_666_667,
    ;
    assert(gd <= -400_000_000_000_000_000_000_000_000_000_000_000) by (nonlinear_arith)
        requires
            gd == s * s * s * COS8_C2 - s * s * s + s * s,
            s == 1_000_000_000,
    ;
    assert(p1 + p2 + p3 + gd < 0);
    assert(du * (p1 + p2 + p3 + gd) >= 0) by (nonlinear_arith)
        requires
            du <= 0,
            p1 + p2 + p3 + gd < 0,
    ;
    let g_at = ga * (um * um * um * um) + gb * (um * um * um) + gc * (um * um) + gd * um;
    assert(u * b3 >= g_at);
    assert(s * s * s * s * s + g_at >= 10_000 * (s * s * s * s)) by (nonlinear_arith)
        requires
            g_at == ga * (um * um * um * um) + gb * (um * um * um) + gc * (um * um) + gd * um,
            um == 2_467_401_101,
            ga == 24_802,
            gb == 1_000_000_000 * (-1_388_889) - 1_000_000_000 + 1,
            gc == 1_000_000_000 * 1_000_000_000 * 41_666_667,
            gd == 1_000_000_000 * 1_000_000_000 * 1_000_000_000 * (-500_000_000) - 1_000_000_000
                * 1_000_000_000 * 1_000_000_000 + 1_000_000_000 * 1_000_000_000,
            s == 1_000_000_000,
    ;
    assert(s * (s * (s * (s * (s + t2)))) == s * s * s * s * s + s * (s * (s * (s * t2))))
        by (nonlinear_arith);
    assert(s * (s * (s * (s * (s + t2)))) >= 10_000 * (s * s * s * s));
    assert(s + t2 >= 10_000) by (nonlinear_arith)
        requires
            s * (s * (s * (s * (s + t2)))) >= 10_000 * (s * s * s * s),
            s == 1_000_000_000,
    ;

    assert(s + t2 >= 10_000);
}

/// Range of the 8th-degree cosine polynomial: it never exceeds one and --
/// via the quartic tail above -- stays at least 1e-5 over the whole
/// quadrant, so the longitude coefficient never goes negative.
proof fn lemma_cos8_poly_range(x: int)
    requires
        0 <= x <= HALF_PI,
    ensures
        10_000 <= spec_cos8_poly(x) <= SCALE,
{
    let s = SCALE as int;
    let u = spec_fmul(x, x);
    assert(0 <= x * x <= 1_570_796_327int * 1_570_796_327) by (nonlinear_arith)
        requires
            0 <= x <= 1_570_796_327,
    ;
    lemma_tdiv_pos_bracket(x * x, s);
    lemma_tdiv_mono(x * x, 1_570_796_327int * 1_570_796_327, s);
    assert(tdiv(1_570_796_327int * 1_570_796_327, s) <= 2_467_401_101);
    assert(0 <= u <= 2_467_401_101);
    let um = 2_467_401_101int;

    // t8 = u * C8 / s, then h1 = C6 + t8
    let t8 = spec_fmul(u, COS8_C8 as int);
    lemma_fmul_bound(u, COS8_C8 as int, um, COS8_C8 as int);
    assert(tdiv(um * COS8_C8, s) <= 61_198);
    assert(-61_198 <= t8 <= 61_198);
    assert(u * COS8_C8 >= 0) by (nonlinear_arith)
        requires
            u >= 0,
    ;
    lemma_tdiv_pos_bracket(u * COS8_C8, s);
    let h1 = COS8_C6 + t8;
    assert(-1_388_889 <= h1 <= -1_327_691);

    // t6 = u * h1 / s, then h2 = C4 + t6
    let t6 = spec_fmul(u, h1);
    lemma_fmul_bound(u, h1, um, 1_388_889int);
    assert(tdiv(um * 1_388_889, s) <= 3_426_951);
    assert(-3_426_951 <= t6 <= 3_426_951);
    assert(u * h1 <= 0) by (nonlinear_arith)
        requires
            u >= 0,
            h1 <= 0,
    ;
    lemma_tdiv_neg(-(u * h1), s);
    lemma_tdiv_pos_bracket(-(u * h1), s);
    assert(t6 <= 0);
    let h2 = COS8_C4 + t6;
    assert(38_239_716 <= h2 <= 41_666_667);

    // t4 = u * h2 / s, then h3 = C2 + t4
    let t4 = spec_fmul(u, h2);
    lemma_fmul_bound(u, h2, um, 41_666_667int);
    assert(tdiv(um * 41_666_667, s) <= 102_808_380);
    assert(u * h2 >= 0) by (nonlinear_arith)
        requires
            u >= 0,
            h2 >= 0,
    ;
    lemma_tdiv_pos_bracket(u * h2, s);
    assert(0 <= t4 <= 102_808_380);
    let h3 = COS8_C2 + t4;
    assert(-500_000_000 <= h3 <= -397_191_620);

    // t2 = u * h3 / s, then the result is s + t2
    let t2 = spec_fmul(u, h3);
    lemma_fmul_bound(u, h3, um, 500_000_000int);
    assert(tdiv(um * 500_000_000, s) <= 1_233_700_551);
    assert(u * h3 <= 0) by (nonlinear_arith)
        requires
            u >= 0,
            h3 <= 0,
    ;
    lemma_tdiv_neg(-(u * h3), s);
    lemma_tdiv_pos_bracket(-(u * h3), s);
    assert(t2 <= 0);
    assert(-1_233_700_551 <= t2);
    assert(s + t2 <= s);

    lemma_cos8_tail_positive(u, t8, h1, t6, h2, t4, h3, t2);
}

/// Sharper floor up to a hair beyond 89 degrees, where the quadratic bound
/// already clears 0.015 -- the slack that keeps the longitude coefficient
/// usable as a divisor.
proof fn lemma_cos8_poly_sharp(x: int)
    requires
        0 <= x <= 1_553_400_000,
    ensures
        spec_cos8_poly(x) >= 15_000_000,
{
    let s = SCALE as int;
    let u = spec_fmul(x, x);
    assert(0 <= x * x <= 1_570_796_327int * 1_570_796_327) by (nonlinear_arith)
        requires
            0 <= x <= 1_570_796_327,
    ;
    lemma_tdiv_pos_bracket(x * x, s);
    lemma_tdiv_mono(x * x, 1_570_796_327int * 1_570_796_327, s);
    assert(tdiv(1_570_796_327int * 1_570_796_327, s) <= 2_467_401_101);
    assert(0 <= u <= 2_467_401_101);
    let um = 2_467_401_101int;

    // t8 = u * C8 / s, then h1 = C6 + t8
    let t8 = spec_fmul(u, COS8_C8 as int);
    lemma_fmul_bound(u, COS8_C8 as int, um, COS8_C8 as int);
    assert(tdiv(um * COS8_C8, s) <= 61_198);
    assert(-61_198 <= t8 <= 61_198);
    assert(u * COS8_C8 >= 0) by (nonlinear_arith)
        requires
            u >= 0,
    ;
    lemma_tdiv_pos_bracket(u * COS8_C8, s);
    let h1 = COS8_C6 + t8;
    assert(-1_388_889 <= h1 <= -1_327_691);

    // t6 = u * h1 / s, then h2 = C4 + t6
    let t6 = spec_fmul(u, h1);
    lemma_fmul_bound(u, h1, um, 1_388_889int);
    assert(tdiv(um * 1_388_889, s) <= 3_426_951);
    assert(-3_426_951 <= t6 <= 3_426_951);
    assert(u * h1 <= 0) by (nonlinear_arith)
        requires
            u >= 0,
            h1 <= 0,
    ;
    lemma_tdiv_neg(-(u * h1), s);
    lemma_tdiv_pos_bracket(-(u * h1), s);
    assert(t6 <= 0);
    let h2 = COS8_C4 + t6;
    assert(38_239_716 <= h2 <= 41_666_667);

    // t4 = u * h2 / s, then h3 = C2 + t4
    let t4 = spec_fmul(u, h2);
    lemma_fmul_bound(u, h2, um, 41_666_667int);
    assert(tdiv(um * 41_666_667, s) <= 102_808_380);
    assert(u * h2 >= 0) by (nonlinear_arith)
        requires
            u >= 0,
            h2 >= 0,
    ;
    lemma_tdiv_pos_bracket(u * h2, s);
    assert(0 <= t4 <= 102_808_380);
    let h3 = COS8_C2 + t4;
    assert(-500_000_000 <= h3 <= -397_191_620);

    // t2 = u * h3 / s, then the result is s + t2
    let t2 = spec_fmul(u, h3);
    lemma_fmul_bound(u, h3, um, 500_000_000int);
    assert(tdiv(um * 500_000_000, s) <= 1_233_700_551);
    assert(u * h3 <= 0) by (nonlinear_arith)
        requires
            u >= 0,
            h3 <= 0,
    ;
    lemma_tdiv_neg(-(u * h3), s);
    lemma_tdiv_pos_bracket(-(u * h3), s);
    assert(t2 <= 0);
    assert(-1_233_700_551 <= t2);
    assert(s + t2 <= s);



    if x <= 1_553_400_000 {
        assert(x * x <= 1_553_400_000int * 1_553_400_000) by (nonlinear_arith)
            requires
                0 <= x <= 1_553_400_000,
        ;
        lemma_tdiv_mono(x * x, 1_553_400_000int * 1_553_400_000, s);
        assert(tdiv(1_553_400_000int * 1_553_400_000, s) <= 2_413_051_560);
        let um89 = 2_413_051_560int;
        assert(u <= um89);

        // Lower-bound h3 in scaled form: s * h3 >= s * C2 + u * H2LO - s + 1.
        let h2lo = 38_239_716int;
        assert(u * h2 >= u * h2lo) by (nonlinear_arith)
            requires
                u >= 0,
                h2 >= h2lo,
        ;
        // bracket: u * h2 < (t4 + 1) * s, so s * t4 > u * h2 - s
        assert((t4 + 1) * s == t4 * s + s) by (nonlinear_arith);
        assert(s * t4 == t4 * s) by (nonlinear_arith);
        assert(s * t4 > u * h2lo - s);
        assert(s * h3 == s * COS8_C2 + s * t4) by (nonlinear_arith)
            requires
                h3 == COS8_C2 + t4,
        ;
        assert(s * h3 > s * COS8_C2 + u * h2lo - s);

        // t2 = tdiv(u * h3, s) with u * h3 <= 0, so s * t2 >= u * h3.
        assert(s * t2 >= u * h3) by {
            assert(tdiv(-(u * h3), s) * s <= -(u * h3));
            assert(t2 == -tdiv(-(u * h3), s));
            assert(s * t2 == -(tdiv(-(u * h3), s) * s)) by (nonlinear_arith)
                requires
                    t2 == -tdiv(-(u * h3), s),
            ;
        }
        // Chain: s * s * t2 >= u * (s * h3) >= u * (s * C2 + u * h2lo - s).
        assert(s * (s * t2) >= s * (u * h3)) by (nonlinear_arith)
            requires
                s * t2 >= u * h3,
                s > 0,
        ;
        assert(s * (u * h3) == u * (s * h3)) by (nonlinear_arith);
        assert(u * (s * h3) >= u * (s * COS8_C2 + u * h2lo - s)) by (nonlinear_arith)
            requires
                u >= 0,
                s * h3 >= s * COS8_C2 + u * h2lo - s,
        ;
        assert(u * (s * COS8_C2 + u * h2lo - s) == u * s * COS8_C2 + u * u * h2lo - u * s)
            by (nonlinear_arith);

        // F(u) = h2lo * u^2 + (C2 - 1) * s * u + s^3 decreases on [0, um89],
        // and its value at um89 clears 15_000_000 * s^2.
        let f_at = h2lo * (um89 * um89) + (COS8_C2 - 1) * s * um89 + s * s * s;
        assert(u * s * COS8_C2 + u * u * h2lo - u * s >= f_at - s * s * s) by (nonlinear_arith)
            requires
                0 <= u <= um89,
                f_at == h2lo * (um89 * um89) + (COS8_C2 - 1) * s * um89 + s * s * s,
                h2lo == 38_239_716,
                s == 1_000_000_000,
                um89 == 2_413_051_560,
                COS8_C2 == -500_000_000,
        ;
        assert(f_at >= 15_000_000 * s * s) by (nonlinear_arith)
            requires
                f_at == h2lo * (um89 * um89) + (COS8_C2 - 1) * s * um89 + s * s * s,
                h2lo == 38_239_716,
                s == 1_000_000_000,
                um89 == 2_413_051_560,
                COS8_C2 == -500_000_000,
        ;
        assert(s * (s * t2) >= 15_000_000 * s * s - s * s * s);
        assert(t2 >= 15_000_000 - s) by (nonlinear_arith)
            requires
                s * (s * t2) >= 15_000_000 * s * s - s * s * s,
                s == 1_000_000_000,
        ;
        assert(s + t2 >= 15_000_000);
    }
}

/// Bounds on the 8th-degree cosine polynomial, combining the range and the
/// sharp near-pole floor.
pub proof fn lemma_cos8_poly_bounds(x: int)
    requires
        0 <= x <= HALF_PI,
    ensures
        10_000 <= spec_cos8_poly(x) <= SCALE,
        x <= 1_553_400_000 ==> spec_cos8_poly(x) >= 15_000_000,
{
    lemma_cos8_poly_range(x);
    if x <= 1_553_400_000 {
        lemma_cos8_poly_sharp(x);
    }
}

/// Bounds on the 4th-degree cosine polynomial used by the batch kernel.
pub proof fn lemma_cos4_poly_bounds(x: int)
    requires
        0 <= x <= HALF_PI,
    ensures
        15_000_000 <= spec_cos4_poly(x) <= SCALE,
{
    let s = SCALE as int;
    let u = spec_fmul(x, x);
    assert(0 <= x * x <= 1_570_796_327int * 1_570_796_327) by (nonlinear_arith)
        requires
            0 <= x <= 1_570_796_327,
    ;
    lemma_tdiv_pos_bracket(x * x, s);
    lemma_tdiv_mono(x * x, 1_570_796_327int * 1_570_796_327, s);
    assert(tdiv(1_570_796_327int * 1_570_796_327, s) <= 2_467_401_101);
    assert(0 <= u <= 2_467_401_101);
    let um = 2_467_401_101int;

    let t4 = spec_fmul(u, COS4_C4 as int);
    lemma_fmul_bound(u, COS4_C4 as int, um, COS4_C4 as int);
    assert(tdiv(um * COS4_C4, s) <= 102_801_011);
    assert(u * COS4_C4 >= 0) by (nonlinear_arith)
        requires
            u >= 0,
    ;
    lemma_tdiv_pos_bracket(u * COS4_C4, s);
    assert(0 <= t4 <= 102_801_011);
    let h = COS4_C2 + t4;
    assert(-499_999_900 <= h <= -397_198_889);

    let t2 = spec_fmul(u, h);
    lemma_fmul_bound(u, h, um, 499_999_900int);
    assert(tdiv(um * 499_999_900, s) <= 1_233_700_304);
    assert(u * h <= 0) by (nonlinear_arith)
        requires
            u >= 0,
            h <= 0,
    ;
    lemma_tdiv_neg(-(u * h), s);
    lemma_tdiv_pos_bracket(-(u * h), s);
    assert(-1_233_700_304 <= t2 <= 0);
    assert(s + t2 <= s);

    // Positivity over the whole quadrant: this tier bottoms out near 0.02,
    // so the correlated quadratic lower bound clears 0.015 everywhere.
    assert((t4 + 1) * s == t4 * s + s) by (nonlinear_arith);
    assert(s * t4 == t4 * s) by (nonlinear_arith);
    assert(s * t4 > u * COS4_C4 - s);
    assert(s * h == s * COS4_C2 + s * t4) by (nonlinear_arith)
        requires
            h == COS4_C2 + t4,
    ;
    assert(s * h > s * COS4_C2 + u * COS4_C4 - s);
    assert(s * t2 >= u * h) by {
        assert(tdiv(-(u * h), s) * s <= -(u * h));
        assert(t2 == -tdiv(-(u * h), s));
        assert(s * t2 == -(tdiv(-(u * h), s) * s)) by (nonlinear_arith)
            requires
                t2 == -tdiv(-(u * h), s),
        ;
    }
    assert(s * (s * t2) >= s * (u * h)) by (nonlinear_arith)
        requires
            s * t2 >= u * h,
            s > 0,
    ;
    assert(s * (u * h) == u * (s * h)) by (nonlinear_arith);
    assert(u * (s * h) >= u * (s * COS4_C2 + u * COS4_C4 - s)) by (nonlinear_arith)
        requires
            u >= 0,
            s * h >= s * COS4_C2 + u * COS4_C4 - s,
    ;
    assert(u * (s * COS4_C2 + u * COS4_C4 - s) == u * s * COS4_C2 + u * u * COS4_C4 - u * s)
        by (nonlinear_arith);

    let f_at = (COS4_C4 as int) * (um * um) + (COS4_C2 - 1) * s * um + s * s * s;
    assert(u * s * COS4_C2 + u * u * COS4_C4 - u * s >= f_at - s * s * s) by (nonlinear_arith)
        requires
            0 <= u <= um,
            f_at == (COS4_C4 as int) * (um * um) + (COS4_C2 - 1) * s * um + s * s * s,
            s == 1_000_000_000,
            um == 2_467_401_101,
            COS4_C2 == -499_999_900i64,
            COS4_C4 == 41_663_680i64,
    ;
    assert(f_at >= 15_000_000 * s * s) by (nonlinear_arith)
        requires
            f_at == (COS4_C4 as int) * (um * um) + (COS4_C2 - 1) * s * um + s * s * s,
            s == 1_000_000_000,
            um == 2_467_401_101,
            COS4_C2 == -499_999_900i64,
            COS4_C4 == 41_663_680i64,
    ;
    assert(s * (s * t2) >= 15_000_000 * s * s - s * s * s);
    assert(t2 >= 15_000_000 - s) by (nonlinear_arith)
        requires
            s * (s * t2) >= 15_000_000 * s * s - s * s * s,
            s == 1_000_000_000,
    ;
    assert(s + t2 >= 15_000_000);
}

} // verus!
