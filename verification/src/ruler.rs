//! The scalar ruler: distance, bearing and destination for single
//! coordinate pairs.
//!
//! The ruler flattens a small patch of the ellipsoid into a plane by scaling
//! coordinate deltas with the latitude-dependent coefficients `(kx, ky)`,
//! derived once per operation at the origin's latitude. The derivation at
//! the origin (rather than at the mean latitude of the two points) keeps
//! each operation a function of its first point alone; `distance(a, b)` and
//! `distance(b, a)` may therefore differ by the coefficient drift between
//! the two latitudes.

use crate::fixed::{
    fmul, fdiv, isqrt, lemma_fdiv_bound, lemma_fdiv_ratio_bound, lemma_fmul_bound,
    lemma_fmul_mono_lower, lemma_tdiv_mono, lemma_tdiv_multiple, lemma_tdiv_pos_bracket, muldiv,
    spec_fdiv, spec_fmul, spec_isqrt, spec_muldiv, tdiv, SCALE,
};
use crate::poly_bounds::lemma_cos8_poly_bounds;
use crate::trig::{
    atan2, cos8, iabs, latitude_to_quadrant, sin8, spec_atan2, spec_cos8, spec_cos8_poly,
    spec_cos_reduce, spec_sin8, spec_to_degrees, spec_to_radians, to_degrees, to_radians,
    ArctanTier, DEG_180, DEG_360, DEG_90, PI,
};
use vstd::arithmetic::div_mod::lemma_div_is_ordered_by_denominator;
use vstd::prelude::*;

verus! {

/// A (longitude, latitude) pair in fixed-point decimal degrees.
#[derive(Clone, Copy, Debug, PartialEq, Eq, Structural)]
pub struct Coord {
    pub lon: i64,
    pub lat: i64,
}

/// Semi-major axis of the reference ellipsoid for Earth, in fixed-point
/// meters.
pub const WGS84_RE: i64 = 6_378_137_000_000_000;

/// Eccentricity squared of the reference ellipsoid for Earth, fixed-point.
pub const WGS84_E2: i64 = 6_694_380;

/// Smallest and largest semi-major axis the ruler accepts (one thousand to
/// one hundred thousand kilometers): within these, every intermediate of the
/// coefficient derivation fits an `i64`.
pub const RE_MIN: i64 = 1_000_000_000_000_000;

pub const RE_MAX: i64 = 100_000_000_000_000_000;

/// Largest eccentricity squared the ruler accepts; guaranteed by the axis
/// ratio the constructor requires.
pub const E2_MAX: i64 = 400_000_000;

/// Latitude limit for the destination operation. Beyond 89 degrees the
/// longitude coefficient is no longer provably bounded away from zero, and
/// dividing by it could overflow.
pub const LAT_DEST_MAX: i64 = 89_000_000_000;

/// Largest travel distance the destination operation accepts, in fixed-point
/// meters (one hundred thousand kilometers).
pub const TRAVEL_MAX: i64 = 100_000_000_000_000_000;

/// Coefficient bounds guaranteed by `coefs` (fixed-point meters per degree):
/// the latitude coefficient always lies between them, and the longitude
/// coefficient does whenever the latitude stays within [`LAT_DEST_MAX`].
/// Over the whole latitude range the longitude coefficient is nonnegative,
/// tending to zero toward the poles (meridian convergence, not
/// special-cased).
pub const KCOEF_MIN: i64 = 100_000_000_000;

pub const KCOEF_MAX: i64 = 4_000_000_000_000_000;

/// Largest value `distance` can return.
pub const DISTANCE_MAX: i64 = 2_040_000_000_000_000_000;

/// Conventional coordinate ranges; the ruler's operations require them.
pub open spec fn coord_in_range(c: Coord) -> bool {
    -DEG_180 <= c.lon <= DEG_180 && -DEG_90 <= c.lat <= DEG_90
}

/// A fast geodesic approximation calculator using latitude-dependent
/// scaling.
#[derive(Clone, Copy, Debug)]
pub struct CheapRuler {
    /// Semi-major axis in fixed-point meters.
    pub re: i64,
    /// Eccentricity squared, fixed-point.
    pub e2: i64,
    /// The arctangent tier `bearing` uses.
    pub atan_tier: ArctanTier,
}

/// Eccentricity squared derived from the two semi-axes:
/// `1 - (minor / major)^2`.
pub open spec fn spec_eccentricity(major: int, minor: int) -> int {
    let q = spec_fdiv(minor, major);
    SCALE - spec_fmul(q, q)
}

/// The scaling coefficients `(kx, ky)` in fixed-point meters per degree,
/// given the cosine `c` of the latitude: with `w = 1 / (1 - e2 (1 - c^2))`
/// and `k = sqrt(w) * re * pi / 180`, the pair is `(k c, k w (1 - e2))`.
pub open spec fn spec_coefs_from_cos(re: int, e2: int, c: int) -> (int, int) {
    let t = SCALE - spec_fmul(c, c);
    let denom = SCALE - spec_fmul(e2, t);
    let w = spec_fdiv(SCALE as int, denom);
    let sqrt_w = spec_isqrt((w * SCALE) as nat) as int;
    let re_rad = spec_muldiv(re, PI as int, DEG_180 as int);
    let k = spec_fmul(sqrt_w, re_rad);
    (spec_fmul(k, c), spec_fmul(spec_fmul(k, w), SCALE - e2))
}

/// The latitude-dependent scaling coefficients `(kx, ky)` in fixed-point
/// meters per degree. The cosine is taken of the magnitude of the radian
/// latitude -- the cosine is even, and this keeps the reduction inside the
/// first quadrant.
pub open spec fn spec_coefs(re: int, e2: int, lat: int) -> (int, int) {
    spec_coefs_from_cos(re, e2, spec_cos8(iabs(spec_to_radians(lat))))
}

/// The shared tail of the coefficient derivation, from the latitude cosine
/// on; both the scalar ruler (8th-degree cosine) and the batch kernel
/// (4th-degree cosine) run through it.
pub(crate) fn scale_coefs(re: i64, e2: i64, c: i64) -> (r: (i64, i64))
    requires
        RE_MIN <= re <= RE_MAX,
        0 <= e2 <= E2_MAX,
        -300_000_000 <= c <= SCALE,
    ensures
        (r.0 as int, r.1 as int) == spec_coefs_from_cos(re as int, e2 as int, c as int),
        -KCOEF_MAX <= r.0 <= KCOEF_MAX,
        KCOEF_MIN <= r.1 <= KCOEF_MAX,
        0 <= c ==> 0 <= r.0,
        15_000_000 <= c ==> KCOEF_MIN <= r.0,
{
    let s = SCALE;
    proof {
        lemma_fmul_bound(c as int, c as int, SCALE as int, SCALE as int);
        lemma_tdiv_multiple(SCALE as int, SCALE as int);
        assert((c as int) * (c as int) >= 0) by (nonlinear_arith);
        lemma_tdiv_pos_bracket((c as int) * (c as int), SCALE as int);
    }
    let csq = fmul(c, c);
    let t = s - csq;
    proof {
        assert(0 <= t <= SCALE);
        lemma_fmul_bound(e2 as int, t as int, E2_MAX as int, SCALE as int);
        lemma_tdiv_multiple(E2_MAX as int, SCALE as int);
        assert((e2 as int) * (t as int) >= 0) by (nonlinear_arith)
            requires
                e2 as int >= 0,
                t as int >= 0,
        ;
        lemma_tdiv_pos_bracket((e2 as int) * (t as int), SCALE as int);
    }
    let et = fmul(e2, t);
    let denom = s - et;
    proof {
        assert(600_000_000 <= denom <= SCALE);
        lemma_fdiv_bound(SCALE as int, denom as int, SCALE as int, 600_000_000int);
        assert(tdiv((SCALE as int) * SCALE, 600_000_000int) == 1_666_666_666);
        assert((SCALE as int) * SCALE >= 0) by (nonlinear_arith);
        lemma_tdiv_pos_bracket((SCALE as int) * SCALE, denom as int);
        lemma_div_is_ordered_by_denominator((SCALE as int) * SCALE, denom as int, SCALE as int);
        lemma_tdiv_multiple(SCALE as int, SCALE as int);
    }
    let w = fdiv(s, denom);
    proof {
        assert(SCALE <= w <= 1_666_666_666);
        assert((w as int) * (SCALE as int) <= 1_666_666_666_000_000_000) by (nonlinear_arith)
            requires
                w as int <= 1_666_666_666,
        ;
        assert((w as int) * (SCALE as int) >= (SCALE as int) * (SCALE as int))
            by (nonlinear_arith)
            requires
                w as int >= SCALE as int,
        ;
    }
    let ws: u128 = (w as u128) * (s as u128);
    let sw = isqrt(ws);
    proof {
        assert(sw as int >= SCALE as int) by {
            if (sw as int) < SCALE as int {
                assert(((sw as int) + 1) * ((sw as int) + 1) <= (SCALE as int) * (SCALE as int))
                    by (nonlinear_arith)
                    requires
                        (sw as int) + 1 <= SCALE as int,
                        sw as int >= 0,
                ;
            }
        }
        assert(sw as int <= 1_291_000_000) by {
            if (sw as int) > 1_291_000_000 {
                assert((sw as int) * (sw as int) > 1_666_666_666_000_000_000)
                    by (nonlinear_arith)
                    requires
                        sw as int > 1_291_000_000,
                ;
            }
        }
    }
    let sqrt_w = sw as i64;
    proof {
        assert((re as int) * (PI as int) >= (RE_MIN as int) * (PI as int) && (re as int) * (
        PI as int) <= (RE_MAX as int) * (PI as int)) by (nonlinear_arith)
            requires
                RE_MIN as int <= re as int <= RE_MAX as int,
        ;
        lemma_tdiv_mono((RE_MIN as int) * (PI as int), (re as int) * (PI as int), DEG_180 as int);
        lemma_tdiv_mono((re as int) * (PI as int), (RE_MAX as int) * (PI as int), DEG_180 as int);
        assert(tdiv((RE_MIN as int) * (PI as int), DEG_180 as int) == 17_453_292_522_222);
        assert(tdiv((RE_MAX as int) * (PI as int), DEG_180 as int) == 1_745_329_252_222_222);
    }
    let re_rad = muldiv(re, PI, DEG_180);
    proof {
        assert(17_453_292_522_222 <= re_rad <= 1_745_329_252_222_222);
        lemma_fmul_bound(sqrt_w as int, re_rad as int, 1_291_000_000int, 1_745_329_252_222_222int);
        lemma_fmul_mono_lower(sqrt_w as int, re_rad as int, SCALE as int, 17_453_292_522_222int);
        assert(tdiv((SCALE as int) * 17_453_292_522_222, SCALE as int) == 17_453_292_522_222) by {
            assert((SCALE as int) * 17_453_292_522_222 == 17_453_292_522_222int * SCALE)
                by (nonlinear_arith);
            lemma_tdiv_multiple(17_453_292_522_222int, SCALE as int);
        }
        assert(tdiv(1_291_000_000int * 1_745_329_252_222_222, SCALE as int)
            <= 2_253_300_000_000_000);
    }
    let k = fmul(sqrt_w, re_rad);
    proof {
        assert(17_453_292_522_222 <= k <= 2_253_300_000_000_000);
        lemma_fmul_bound(k as int, c as int, 2_253_300_000_000_000int, SCALE as int);
        lemma_tdiv_multiple(2_253_300_000_000_000int, SCALE as int);
        assert((2_253_300_000_000_000int) * SCALE == (SCALE as int) * 2_253_300_000_000_000)
            by (nonlinear_arith);
        if 0 <= c {
            assert((k as int) * (c as int) >= 0) by (nonlinear_arith)
                requires
                    k as int >= 0,
                    c as int >= 0,
            ;
            lemma_tdiv_pos_bracket((k as int) * (c as int), SCALE as int);
        }
        if 15_000_000 <= c {
            lemma_fmul_mono_lower(k as int, c as int, 17_453_292_522_222int, 15_000_000int);
            assert(tdiv(17_453_292_522_222int * 15_000_000, SCALE as int) >= KCOEF_MIN);
        }
    }
    let kx = fmul(k, c);
    proof {
        lemma_fmul_bound(k as int, w as int, 2_253_300_000_000_000int, 1_666_666_666int);
        assert(tdiv(2_253_300_000_000_000int * 1_666_666_666, SCALE as int)
            <= 3_755_500_000_000_000);
        lemma_fmul_mono_lower(k as int, w as int, 17_453_292_522_222int, SCALE as int);
        assert(tdiv(17_453_292_522_222int * SCALE, SCALE as int) == 17_453_292_522_222) by {
            lemma_tdiv_multiple(17_453_292_522_222int, SCALE as int);
        }
    }
    let kw = fmul(k, w);
    proof {
        assert(17_453_292_522_222 <= kw <= 3_755_500_000_000_000);
        lemma_fmul_bound(kw as int, s as int - e2 as int, 3_755_500_000_000_000int, SCALE as int);
        lemma_tdiv_multiple(3_755_500_000_000_000int, SCALE as int);
        assert(3_755_500_000_000_000int * SCALE == (SCALE as int) * 3_755_500_000_000_000)
            by (nonlinear_arith);
        lemma_fmul_mono_lower(kw as int, s as int - e2 as int, 17_453_292_522_222int,
            600_000_000int);
        assert(tdiv(17_453_292_522_222int * 600_000_000, SCALE as int) >= KCOEF_MIN);
    }
    let ky = fmul(kw, s - e2);
    (kx, ky)
}

/// Scaled planar distance: the Euclidean norm of the coefficient-scaled
/// coordinate deltas, coefficients derived at the origin's latitude.
pub open spec fn spec_distance(r: CheapRuler, o: Coord, d: Coord) -> int {
    let ks = spec_coefs(r.re as int, r.e2 as int, o.lat as int);
    let dx = spec_fmul(d.lon - o.lon, ks.0);
    let dy = spec_fmul(d.lat - o.lat, ks.1);
    spec_isqrt((dx * dx + dy * dy) as nat) as int
}

/// Bearing from `o` to `d`: the arctangent of the scaled deltas, converted
/// to degrees and normalized into `[0, 360)`.
pub open spec fn spec_bearing(r: CheapRuler, o: Coord, d: Coord) -> int {
    let ks = spec_coefs(r.re as int, r.e2 as int, o.lat as int);
    let dx = spec_fmul(d.lon - o.lon, ks.0);
    let dy = spec_fmul(d.lat - o.lat, ks.1);
    let deg = spec_to_degrees(spec_atan2(r.atan_tier, dx, dy));
    if deg < 0 {
        deg + DEG_360
    } else {
        deg
    }
}

/// Destination after traveling `dist` along `bearing` from `o`: the inverse
/// of the distance formula, `(lon, lat)` as unbounded integers.
pub open spec fn spec_destination(r: CheapRuler, o: Coord, bearing: int, dist: int) -> (int, int) {
    let ks = spec_coefs(r.re as int, r.e2 as int, o.lat as int);
    let rad = spec_to_radians(bearing);
    let lon = o.lon + spec_fdiv(spec_fmul(dist, spec_sin8(rad)), ks.0);
    let lat = o.lat + spec_fdiv(spec_fmul(dist, spec_cos8(rad)), ks.1);
    (lon, lat)
}

impl CheapRuler {
    /// Well-formedness: the ellipsoid parameters stay inside the ranges the
    /// arithmetic is proved for.
    pub open spec fn wf(&self) -> bool {
        RE_MIN <= self.re <= RE_MAX && 0 <= self.e2 <= E2_MAX
    }

    /// A ruler for the reference ellipsoid for Earth, with the reference
    /// arctangent tier.
    #[allow(non_snake_case)]
    pub fn WGS84() -> (r: CheapRuler)
        ensures
            r.wf(),
            r.re == WGS84_RE,
            r.e2 == WGS84_E2,
            r.atan_tier == ArctanTier::Deg11,
    {
        CheapRuler { re: WGS84_RE, e2: WGS84_E2, atan_tier: ArctanTier::Deg11 }
    }

    /// A ruler for a custom ellipsoid, given its semi-major and semi-minor
    /// axes in fixed-point meters. The axes must lie in the supported range
    /// and the body must be no flatter than `minor / major == 4 / 5`, which
    /// keeps the derived eccentricity within [`E2_MAX`].
    pub fn new(major: i64, minor: i64) -> (r: CheapRuler)
        requires
            RE_MIN <= major <= RE_MAX,
            minor <= major,
            5 * minor >= 4 * major,
        ensures
            r.wf(),
            r.re == major,
            r.e2 as int == spec_eccentricity(major as int, minor as int),
            r.atan_tier == ArctanTier::Deg11,
    {
        proof {
            lemma_fdiv_ratio_bound(minor as int, major as int);
            assert((minor as int) * SCALE >= 0) by (nonlinear_arith)
                requires
                    minor as int >= 0,
            ;
            lemma_tdiv_pos_bracket((minor as int) * SCALE, major as int);
            assert((minor as int) * SCALE >= (major as int) * 800_000_000) by (nonlinear_arith)
                requires
                    5 * minor >= 4 * major,
            ;
            lemma_tdiv_mono((major as int) * 800_000_000, (minor as int) * SCALE, major as int);
            assert((major as int) * 800_000_000 == 800_000_000 * (major as int))
                by (nonlinear_arith);
            lemma_tdiv_multiple(800_000_000int, major as int);
            let q = spec_fdiv(minor as int, major as int);
            assert(800_000_000 <= q <= SCALE);
            lemma_fmul_bound(q, q, SCALE as int, SCALE as int);
            lemma_tdiv_multiple(SCALE as int, SCALE as int);
            lemma_fmul_mono_lower(q, q, 800_000_000int, 800_000_000int);
            assert(tdiv(800_000_000int * 800_000_000, SCALE as int) == 640_000_000);
        }
        let q = fdiv(minor, major);
        let e2 = SCALE - fmul(q, q);
        CheapRuler { re: major, e2, atan_tier: ArctanTier::Deg11 }
    }

    /// The same ruler with another arctangent tier, chosen at construction
    /// time.
    pub fn with_arctan_tier(self, tier: ArctanTier) -> (r: CheapRuler)
        ensures
            r.re == self.re,
            r.e2 == self.e2,
            r.atan_tier == tier,
    {
        CheapRuler { re: self.re, e2: self.e2, atan_tier: tier }
    }

    /// Derive the scaling coefficients at a latitude. Stateless: computed
    /// per call, never cached across calls.
    fn coefs(&self, lat: i64) -> (r: (i64, i64))
        requires
            self.wf(),
            -DEG_90 <= lat <= DEG_90,
        ensures
            (r.0 as int, r.1 as int) == spec_coefs(self.re as int, self.e2 as int, lat as int),
            0 <= r.0 <= KCOEF_MAX,
            KCOEF_MIN <= r.1 <= KCOEF_MAX,
            iabs(lat as int) <= LAT_DEST_MAX ==> KCOEF_MIN <= r.0,
    {
        let arad = latitude_to_quadrant(lat);
        proof {
            assert(spec_cos_reduce(arad as int) == (arad as int, 1int));
            lemma_cos8_poly_bounds(arad as int);
            assert(spec_cos8(arad as int) == spec_cos8_poly(arad as int));
        }
        let c = cos8(arad);
        scale_coefs(self.re, self.e2, c)
    }

    /// Distance in fixed-point meters between two points, coefficients
    /// derived at the origin's latitude.
    pub fn distance(&self, origin: Coord, destination: Coord) -> (r: i64)
        requires
            self.wf(),
            coord_in_range(origin),
            coord_in_range(destination),
        ensures
            r as int == spec_distance(*self, origin, destination),
            0 <= r <= DISTANCE_MAX,
    {
        let (kx, ky) = self.coefs(origin.lat);
        proof {
            lemma_fmul_bound(destination.lon as int - origin.lon as int, kx as int,
                2 * DEG_180 as int, KCOEF_MAX as int);
            lemma_fmul_bound(destination.lat as int - origin.lat as int, ky as int,
                2 * DEG_180 as int, KCOEF_MAX as int);
            assert(tdiv(2 * (DEG_180 as int) * KCOEF_MAX, SCALE as int)
                == 1_440_000_000_000_000_000);
        }
        let dx = fmul(destination.lon - origin.lon, kx);
        let dy = fmul(destination.lat - origin.lat, ky);
        proof {
            assert((dx as int) * (dx as int) + (dy as int) * (dy as int)
                < 0x4000_0000_0000_0000_0000_0000_0000_0000
                && (dx as int) * (dx as int) >= 0
                && (dy as int) * (dy as int) >= 0) by (nonlinear_arith)
                requires
                    -1_440_000_000_000_000_000 <= dx as int <= 1_440_000_000_000_000_000,
                    -1_440_000_000_000_000_000 <= dy as int <= 1_440_000_000_000_000_000,
            ;
        }
        let sq: i128 = (dx as i128) * (dx as i128) + (dy as i128) * (dy as i128);
        let root = isqrt(sq as u128);
        proof {
            assert(root as int <= DISTANCE_MAX as int) by {
                if (root as int) > DISTANCE_MAX as int {
                    assert((root as int) * (root as int)
                        > 2_040_000_000_000_000_000int * 2_040_000_000_000_000_000)
                        by (nonlinear_arith)
                        requires
                            root as int > 2_040_000_000_000_000_000,
                    ;
                    assert(2_040_000_000_000_000_000int * 2_040_000_000_000_000_000
                        > 2 * (1_440_000_000_000_000_000int * 1_440_000_000_000_000_000));
                    assert((dx as int) * (dx as int) + (dy as int) * (dy as int)
                        <= 2 * (1_440_000_000_000_000_000int * 1_440_000_000_000_000_000))
                        by (nonlinear_arith)
                        requires
                            -1_440_000_000_000_000_000 <= dx as int <= 1_440_000_000_000_000_000,
                            -1_440_000_000_000_000_000 <= dy as int <= 1_440_000_000_000_000_000,
                    ;
                }
            }
        }
        root as i64
    }

    /// Bearing in fixed-point degrees from `origin` to `destination`,
    /// normalized into `[0, 360)`.
    pub fn bearing(&self, origin: Coord, destination: Coord) -> (r: i64)
        requires
            self.wf(),
            coord_in_range(origin),
            coord_in_range(destination),
        ensures
            r as int == spec_bearing(*self, origin, destination),
            0 <= r < DEG_360,
    {
        let (kx, ky) = self.coefs(origin.lat);
        proof {
            lemma_fmul_bound(destination.lon as int - origin.lon as int, kx as int,
                2 * DEG_180 as int, KCOEF_MAX as int);
            lemma_fmul_bound(destination.lat as int - origin.lat as int, ky as int,
                2 * DEG_180 as int, KCOEF_MAX as int);
            assert(tdiv(2 * (DEG_180 as int) * KCOEF_MAX, SCALE as int)
                == 1_440_000_000_000_000_000);
        }
        let dx = fmul(destination.lon - origin.lon, kx);
        let dy = fmul(destination.lat - origin.lat, ky);
        let angle = atan2(dx, dy, self.atan_tier);
        let deg = to_degrees(angle);
        if deg < 0 {
            deg + DEG_360
        } else {
            deg
        }
    }

    /// The point reached by traveling `dist` fixed-point meters from
    /// `origin` along `bearing` fixed-point degrees: the inverse of the
    /// distance formula.
    pub fn destination(&self, origin: Coord, bearing: i64, dist: i64) -> (r: Coord)
        requires
            self.wf(),
            coord_in_range(origin),
            iabs(origin.lat as int) <= LAT_DEST_MAX,
            0 <= bearing <= DEG_360,
            0 <= dist <= TRAVEL_MAX,
        ensures
            (r.lon as int, r.lat as int) == spec_destination(
                *self,
                origin,
                bearing as int,
                dist as int,
            ),
    {
        let (kx, ky) = self.coefs(origin.lat);
        let rad = to_radians(bearing);
        proof {
            lemma_tdiv_pos_bracket((bearing as int) * (PI as int), DEG_180 as int);
            assert(0 <= rad);
        }
        let sinb = sin8(rad);
        let cosb = cos8(rad);
        proof {
            lemma_fmul_bound(dist as int, sinb as int, TRAVEL_MAX as int, SCALE as int);
            lemma_fmul_bound(dist as int, cosb as int, TRAVEL_MAX as int, SCALE as int);
            lemma_tdiv_multiple(TRAVEL_MAX as int, SCALE as int);
        }
        let tx = fmul(dist, sinb);
        let ty = fmul(dist, cosb);
        proof {
            lemma_fdiv_bound(tx as int, kx as int, TRAVEL_MAX as int, KCOEF_MIN as int);
            lemma_fdiv_bound(ty as int, ky as int, TRAVEL_MAX as int, KCOEF_MIN as int);
            assert(tdiv((TRAVEL_MAX as int) * SCALE, KCOEF_MIN as int) == 1_000_000_000_000_000);
        }
        let lon = origin.lon + fdiv(tx, kx);
        let lat = origin.lat + fdiv(ty, ky);
        Coord { lon, lat }
    }
}

/// A point is at distance zero from itself: both scaled deltas vanish, and
/// the integer square root of zero is zero.
pub proof fn lemma_distance_self_zero(r: CheapRuler, p: Coord)
    ensures
        spec_distance(r, p, p) == 0,
{
    let ks = spec_coefs(r.re as int, r.e2 as int, p.lat as int);
    assert(0 * ks.0 == 0 && 0 * ks.1 == 0) by (nonlinear_arith);
    assert(spec_fmul(0, ks.0) == 0 && spec_fmul(0, ks.1) == 0);
}

/// From one origin, a destination whose coordinate deltas are no larger in
/// magnitude than another's measures no farther: the ruler's distance is
/// monotone in both scaled deltas.
pub proof fn lemma_distance_monotone(r: CheapRuler, o: Coord, d1: Coord, d2: Coord)
    requires
        iabs(d1.lon - o.lon) <= iabs(d2.lon - o.lon),
        iabs(d1.lat - o.lat) <= iabs(d2.lat - o.lat),
    ensures
        spec_distance(r, o, d1) <= spec_distance(r, o, d2),
{
    let s = SCALE as int;
    let ks = spec_coefs(r.re as int, r.e2 as int, o.lat as int);
    let n1x = (d1.lon - o.lon) * ks.0;
    let n2x = (d2.lon - o.lon) * ks.0;
    let n1y = (d1.lat - o.lat) * ks.1;
    let n2y = (d2.lat - o.lat) * ks.1;
    assert(iabs(n1x) <= iabs(n2x) && iabs(n1y) <= iabs(n2y)) by (nonlinear_arith)
        requires
            iabs(d1.lon - o.lon) <= iabs(d2.lon - o.lon),
            iabs(d1.lat - o.lat) <= iabs(d2.lat - o.lat),
            n1x == (d1.lon - o.lon) * ks.0,
            n2x == (d2.lon - o.lon) * ks.0,
            n1y == (d1.lat - o.lat) * ks.1,
            n2y == (d2.lat - o.lat) * ks.1,
    ;
    crate::fixed::lemma_tdiv_neg(iabs(n1x), s);
    crate::fixed::lemma_tdiv_neg(iabs(n2x), s);
    crate::fixed::lemma_tdiv_neg(iabs(n1y), s);
    crate::fixed::lemma_tdiv_neg(iabs(n2y), s);
    lemma_tdiv_pos_bracket(iabs(n1x), s);
    lemma_tdiv_pos_bracket(iabs(n2x), s);
    lemma_tdiv_pos_bracket(iabs(n1y), s);
    lemma_tdiv_pos_bracket(iabs(n2y), s);
    let dx1 = spec_fmul(d1.lon - o.lon, ks.0);
    let dx2 = spec_fmul(d2.lon - o.lon, ks.0);
    let dy1 = spec_fmul(d1.lat - o.lat, ks.1);
    let dy2 = spec_fmul(d2.lat - o.lat, ks.1);
    assert(iabs(dx1) == tdiv(iabs(n1x), s) && iabs(dx2) == tdiv(iabs(n2x), s) && iabs(dy1)
        == tdiv(iabs(n1y), s) && iabs(dy2) == tdiv(iabs(n2y), s));
    lemma_tdiv_mono(iabs(n1x), iabs(n2x), s);
    lemma_tdiv_mono(iabs(n1y), iabs(n2y), s);
    assert(dx1 * dx1 + dy1 * dy1 <= dx2 * dx2 + dy2 * dy2 && 0 <= dx1 * dx1 + dy1 * dy1)
        by (nonlinear_arith)
        requires
            iabs(dx1) <= iabs(dx2),
            iabs(dy1) <= iabs(dy2),
    ;
    crate::fixed::lemma_isqrt_monotone(
        (dx1 * dx1 + dy1 * dy1) as nat,
        (dx2 * dx2 + dy2 * dy2) as nat,
    );
}

/// Traveling no distance stays put, whatever the bearing, as long as the
/// coefficients at the origin's latitude do not vanish.
pub proof fn lemma_destination_zero_distance(r: CheapRuler, o: Coord, bearing: int)
    requires
        spec_coefs(r.re as int, r.e2 as int, o.lat as int).0 != 0,
        spec_coefs(r.re as int, r.e2 as int, o.lat as int).1 != 0,
    ensures
        spec_destination(r, o, bearing, 0) == (o.lon as int, o.lat as int),
{
    let ks = spec_coefs(r.re as int, r.e2 as int, o.lat as int);
    let rad = spec_to_radians(bearing);
    assert(0 * spec_sin8(rad) == 0 && 0 * spec_cos8(rad) == 0) by (nonlinear_arith);
    assert(spec_fmul(0, spec_sin8(rad)) == 0 && spec_fmul(0, spec_cos8(rad)) == 0);
    assert(spec_fdiv(0, ks.0) == 0 && spec_fdiv(0, ks.1) == 0) by {
        assert(0 * SCALE == 0) by (nonlinear_arith);
        vstd::arithmetic::div_mod::lemma_div_of0(ks.0);
        vstd::arithmetic::div_mod::lemma_div_of0(ks.1);
    }
}

} // verus!
