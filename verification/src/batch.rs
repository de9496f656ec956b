//! Lane-parallel total length of a polyline.
//!
//! The kernel walks consecutive-vertex pairs in batches of [`LANES`] lanes.
//! Full batches load four origin and four destination coordinates at once;
//! the final partial batch uses the same bounds-checked, zero-padded load
//! and masks the lanes past the remainder to zero before the horizontal
//! sum, so padding contributes nothing and no load ever reaches past the
//! end of either input. Lane coefficients are rederived here from the
//! 4th-degree cosine tier rather than borrowed from the scalar ruler: lane
//! code trades the scalar tier's precision for a shorter polynomial.
//!
//! The result is exact to its specification: the sum over all
//! consecutive-vertex pairs of the kernel's pairwise distance.

use crate::fixed::{fmul, isqrt, lemma_fmul_bound, spec_fmul, spec_isqrt, tdiv, SCALE};
use crate::ruler::{scale_coefs, spec_coefs_from_cos, DISTANCE_MAX, KCOEF_MAX, WGS84_E2, WGS84_RE};
use crate::poly_bounds::lemma_cos4_poly_bounds;
use crate::trig::{
    cos4, iabs, latitude_to_quadrant, spec_cos4, spec_cos4_poly, spec_cos_reduce,
    spec_to_radians, DEG_180, DEG_90,
};
use vstd::arithmetic::div_mod::{lemma_fundamental_div_mod, lemma_remainder_lower};
use vstd::prelude::*;

verus! {

/// Lane width of the kernel.
pub const LANES: usize = 4;

/// The error the kernel reports when the two coordinate sequences disagree
/// in length.
#[derive(Clone, Copy, Debug, PartialEq, Eq, Structural)]
pub enum LengthError {
    MismatchedLengths,
}

/// The kernel's per-lane scaling coefficients: the shared derivation, fed
/// by the 4th-degree cosine and the Earth reference ellipsoid.
pub open spec fn spec_kernel_coefs(lat: int) -> (int, int) {
    spec_coefs_from_cos(WGS84_RE as int, WGS84_E2 as int, spec_cos4(iabs(spec_to_radians(lat))))
}

/// The kernel's pairwise distance between vertex `(olon, olat)` and vertex
/// `(dlon, dlat)`.
pub open spec fn spec_kernel_distance(olon: int, olat: int, dlon: int, dlat: int) -> int {
    let ks = spec_kernel_coefs(olat);
    let dx = spec_fmul(dlon - olon, ks.0);
    let dy = spec_fmul(dlat - olat, ks.1);
    spec_isqrt((dx * dx + dy * dy) as nat) as int
}

/// Sum of the kernel's pairwise distances over the first `k` pairs.
pub open spec fn spec_pair_sum(lons: Seq<i64>, lats: Seq<i64>, k: int) -> int
    decreases k,
{
    if k <= 0 {
        0
    } else {
        spec_pair_sum(lons, lats, k - 1) + spec_kernel_distance(
            lons[k - 1] as int,
            lats[k - 1] as int,
            lons[k] as int,
            lats[k] as int,
        )
    }
}

/// Total polyline length: zero for fewer than two vertices, otherwise the
/// sum over all consecutive-vertex pairs.
pub open spec fn spec_polyline_length(lons: Seq<i64>, lats: Seq<i64>) -> int {
    if lons.len() < 2 {
        0
    } else {
        spec_pair_sum(lons, lats, lons.len() - 1)
    }
}

/// All entries of a coordinate sequence within the conventional range.
pub open spec fn lons_in_range(lons: Seq<i64>) -> bool {
    forall|i: int| 0 <= i < lons.len() ==> -DEG_180 <= #[trigger] lons[i] <= DEG_180
}

pub open spec fn lats_in_range(lats: Seq<i64>) -> bool {
    forall|i: int| 0 <= i < lats.len() ==> -DEG_90 <= #[trigger] lats[i] <= DEG_90
}

/// One lane's distance computation, shared by every lane of a batch.
fn kernel_pair_distance(olon: i64, olat: i64, dlon: i64, dlat: i64) -> (r: i64)
    requires
        -DEG_180 <= olon <= DEG_180,
        -DEG_90 <= olat <= DEG_90,
        -DEG_180 <= dlon <= DEG_180,
        -DEG_90 <= dlat <= DEG_90,
    ensures
        r as int == spec_kernel_distance(olon as int, olat as int, dlon as int, dlat as int),
        0 <= r <= DISTANCE_MAX,
{
    let arad = latitude_to_quadrant(olat);
    proof {
        assert(spec_cos_reduce(arad as int) == (arad as int, 1int));
        lemma_cos4_poly_bounds(arad as int);
        assert(spec_cos4(arad as int) == spec_cos4_poly(arad as int));
    }
    let c = cos4(arad);
    let (kx, ky) = scale_coefs(WGS84_RE, WGS84_E2, c);
    proof {
        lemma_fmul_bound(dlon as int - olon as int, kx as int, 2 * DEG_180 as int,
            KCOEF_MAX as int);
        lemma_fmul_bound(dlat as int - olat as int, ky as int, 2 * DEG_180 as int,
            KCOEF_MAX as int);
        assert(tdiv(2 * (DEG_180 as int) * KCOEF_MAX, SCALE as int) == 1_440_000_000_000_000_000);
    }
    let dx = fmul(dlon - olon, kx);
    let dy = fmul(dlat - olat, ky);
    proof {
        assert((dx as int) * (dx as int) + (dy as int) * (dy as int)
            < 0x4000_0000_0000_0000_0000_0000_0000_0000 && (dx as int) * (dx as int) >= 0 && (
        dy as int) * (dy as int) >= 0) by (nonlinear_arith)
            requires
                -1_440_000_000_000_000_000 <= dx as int <= 1_440_000_000_000_000_000,
                -1_440_000_000_000_000_000 <= dy as int <= 1_440_000_000_000_000_000,
        ;
    }
    let sq: i128 = (dx as i128) * (dx as i128) + (dy as i128) * (dy as i128);
    let root = isqrt(sq as u128);
    proof {
        assert(root as int <= DISTANCE_MAX as int) by {
            if (root as int) > DISTANCE_MAX as int {
                assert((root as int) * (root as int) > 2_040_000_000_000_000_000int
                    * 2_040_000_000_000_000_000) by (nonlinear_arith)
                    requires
                        root as int > 2_040_000_000_000_000_000,
                ;
                assert(2_040_000_000_000_000_000int * 2_040_000_000_000_000_000 > 2 * (
                1_440_000_000_000_000_000int * 1_440_000_000_000_000_000));
                assert((dx as int) * (dx as int) + (dy as int) * (dy as int) <= 2 * (
                1_440_000_000_000_000_000int * 1_440_000_000_000_000_000)) by (nonlinear_arith)
                    requires
                        -1_440_000_000_000_000_000 <= dx as int <= 1_440_000_000_000_000_000,
                        -1_440_000_000_000_000_000 <= dy as int <= 1_440_000_000_000_000_000,
                ;
            }
        }
    }
    root as i64
}

/// Bounds-checked, zero-padded load of one lane group: element `j` is
/// `s[offset + j]` when that index exists and zero otherwise. No call ever
/// reads past the end of `s`.
fn read_lane(s: &[i64], offset: usize) -> (r: [i64; 4])
    ensures
        forall|j: int|
            0 <= j < 4 ==> #[trigger] r@[j] == if offset + j < s@.len() {
                s@[offset + j]
            } else {
                0i64
            },
{
    let avail: usize = if offset < s.len() {
        s.len() - offset
    } else {
        0
    };
    let l0: i64 = if avail > 0 {
        s[offset]
    } else {
        0
    };
    let l1: i64 = if avail > 1 {
        s[offset + 1]
    } else {
        0
    };
    let l2: i64 = if avail > 2 {
        s[offset + 2]
    } else {
        0
    };
    let l3: i64 = if avail > 3 {
        s[offset + 3]
    } else {
        0
    };
    let r = [l0, l1, l2, l3];
    proof {
        assert(r@[0] == l0 && r@[1] == l1 && r@[2] == l2 && r@[3] == l3);
    }
    r
}

/// Lane-parallel pairwise distance: each lane runs the shared derivation on
/// its own coordinates.
fn lane_distance(olon: [i64; 4], olat: [i64; 4], dlon: [i64; 4], dlat: [i64; 4]) -> (r: [i64; 4])
    requires
        forall|j: int|
            0 <= j < 4 ==> -DEG_180 <= #[trigger] olon@[j] <= DEG_180 && -DEG_90 <= #[trigger] olat@[j]
                <= DEG_90 && -DEG_180 <= #[trigger] dlon@[j] <= DEG_180 && -DEG_90
                <= #[trigger] dlat@[j] <= DEG_90,
    ensures
        forall|j: int|
            0 <= j < 4 ==> 0 <= #[trigger] r@[j] <= DISTANCE_MAX && r@[j] as int
                == spec_kernel_distance(
                olon@[j] as int,
                olat@[j] as int,
                dlon@[j] as int,
                dlat@[j] as int,
            ),
{
    let d0 = kernel_pair_distance(olon[0], olat[0], dlon[0], dlat[0]);
    let d1 = kernel_pair_distance(olon[1], olat[1], dlon[1], dlat[1]);
    let d2 = kernel_pair_distance(olon[2], olat[2], dlon[2], dlat[2]);
    let d3 = kernel_pair_distance(olon[3], olat[3], dlon[3], dlat[3]);
    let r = [d0, d1, d2, d3];
    proof {
        assert(r@[0] == d0 && r@[1] == d1 && r@[2] == d2 && r@[3] == d3);
    }
    r
}

/// Total length in fixed-point meters of the polyline whose vertices are
/// `(lons[i], lats[i])`. The two sequences must have the same length --
/// a mismatch is a reported error, never undefined behavior -- and zero or
/// one vertex has length zero. The result is exactly the sum of the
/// kernel's pairwise distances.
pub fn length(lons: &[i64], lats: &[i64]) -> (r: Result<i128, LengthError>)
    requires
        lons_in_range(lons@),
        lats_in_range(lats@),
    ensures
        match r {
            Ok(total) => lons@.len() == lats@.len() && total as int == spec_polyline_length(
                lons@,
                lats@,
            ) && total >= 0,
            Err(e) => lons@.len() != lats@.len() && e == LengthError::MismatchedLengths,
        },
{
    let n = lons.len();
    if lats.len() != n {
        return Err(LengthError::MismatchedLengths);
    }
    if n < 2 {
        return Ok(0);
    }
    let num_chunks = (n - 1) / LANES;
    proof {
        lemma_remainder_lower((n - 1) as int, 4int);
        assert(4 * (num_chunks as int) <= (n - 1) as int);
    }
    let mut total: i128 = 0;
    let mut c: usize = 0;
    while c < num_chunks
        invariant
            2 <= n == lons@.len() == lats@.len(),
            num_chunks == ((n - 1) as int) / 4,
            4 * (num_chunks as int) <= (n - 1) as int,
            c <= num_chunks,
            lons_in_range(lons@),
            lats_in_range(lats@),
            total as int == spec_pair_sum(lons@, lats@, 4 * c),
            0 <= total as int <= (4 * c) * (DISTANCE_MAX as int),
        decreases num_chunks - c,
    {
        proof {
            assert(4 * ((c + 1) as int) <= 4 * (num_chunks as int)) by (nonlinear_arith)
                requires
                    (c as int) < (num_chunks as int),
            ;
        }
        let offset = c * 4;
        proof {
            assert(offset as int == 4 * (c as int));
            assert(offset + 4 <= n - 1);
        }
        let po = read_lane(lons, offset);
        let qo = read_lane(lats, offset);
        let pd = read_lane(lons, offset + 1);
        let qd = read_lane(lats, offset + 1);
        let d = lane_distance(po, qo, pd, qd);
        proof {
            let k = 4 * (c as int);
            assert(spec_pair_sum(lons@, lats@, k + 1) == spec_pair_sum(lons@, lats@, k)
                + spec_kernel_distance(lons@[k] as int, lats@[k] as int, lons@[k + 1] as int,
            lats@[k + 1] as int));
            assert(spec_pair_sum(lons@, lats@, k + 2) == spec_pair_sum(lons@, lats@, k + 1)
                + spec_kernel_distance(lons@[k + 1] as int, lats@[k + 1] as int,
            lons@[k + 2] as int, lats@[k + 2] as int));
            assert(spec_pair_sum(lons@, lats@, k + 3) == spec_pair_sum(lons@, lats@, k + 2)
                + spec_kernel_distance(lons@[k + 2] as int, lats@[k + 2] as int,
            lons@[k + 3] as int, lats@[k + 3] as int));
            assert(spec_pair_sum(lons@, lats@, k + 4) == spec_pair_sum(lons@, lats@, k + 3)
                + spec_kernel_distance(lons@[k + 3] as int, lats@[k + 3] as int,
            lons@[k + 4] as int, lats@[k + 4] as int));
            assert((4 * (c as int)) * (DISTANCE_MAX as int) + 4 * (DISTANCE_MAX as int) == (4 * (
            (c + 1) as int)) * (DISTANCE_MAX as int)) by (nonlinear_arith);
            assert((4 * ((c + 1) as int)) * (DISTANCE_MAX as int) <= ((n - 1) as int) * (
            DISTANCE_MAX as int)) by (nonlinear_arith)
                requires
                    4 * ((c + 1) as int) <= (n - 1) as int,
                    DISTANCE_MAX as int > 0,
            ;
            assert(((n - 1) as int) * (DISTANCE_MAX as int) < i128::MAX) by (nonlinear_arith)
                requires
                    (n - 1) as int <= 0xFFFF_FFFF_FFFF_FFFF,
                    DISTANCE_MAX == 2_040_000_000_000_000_000i64,
            ;
        }
        total = total + (d[0] as i128) + (d[1] as i128) + (d[2] as i128) + (d[3] as i128);
        c = c + 1;
    }
    let rem = (n - 1) % LANES;
    proof {
        lemma_fundamental_div_mod((n - 1) as int, 4int);
    }
    if rem > 0 {
        let offset = num_chunks * 4;
        proof {
            assert(offset as int == 4 * (num_chunks as int));
            assert(offset as int + rem as int == (n - 1) as int);
        }
        let po = read_lane(lons, offset);
        let qo = read_lane(lats, offset);
        let pd = read_lane(lons, offset + 1);
        let qd = read_lane(lats, offset + 1);
        let d = lane_distance(po, qo, pd, qd);
        // mask out the lanes past the remainder before the horizontal sum
        let m0: i64 = d[0];
        let m1: i64 = if rem > 1 {
            d[1]
        } else {
            0
        };
        let m2: i64 = if rem > 2 {
            d[2]
        } else {
            0
        };
        let m3: i64 = if rem > 3 {
            d[3]
        } else {
            0
        };
        proof {
            let k = offset as int;
            assert(spec_pair_sum(lons@, lats@, k + 1) == spec_pair_sum(lons@, lats@, k)
                + spec_kernel_distance(lons@[k] as int, lats@[k] as int, lons@[k + 1] as int,
            lats@[k + 1] as int));
            if rem >= 2 {
                assert(spec_pair_sum(lons@, lats@, k + 2) == spec_pair_sum(lons@, lats@, k + 1)
                    + spec_kernel_distance(lons@[k + 1] as int, lats@[k + 1] as int,
                lons@[k + 2] as int, lats@[k + 2] as int));
            }
            if rem >= 3 {
                assert(spec_pair_sum(lons@, lats@, k + 3) == spec_pair_sum(lons@, lats@, k + 2)
                    + spec_kernel_distance(lons@[k + 2] as int, lats@[k + 2] as int,
                lons@[k + 3] as int, lats@[k + 3] as int));
            }
            assert((4 * (num_chunks as int)) * (DISTANCE_MAX as int) + 4 * (DISTANCE_MAX as int)
                <= (((n - 1) as int) + 4) * (DISTANCE_MAX as int)) by (nonlinear_arith)
                requires
                    4 * (num_chunks as int) <= (n - 1) as int,
                    DISTANCE_MAX as int > 0,
            ;
            assert((((n - 1) as int) + 4) * (DISTANCE_MAX as int) < i128::MAX)
                by (nonlinear_arith)
                requires
                    (n - 1) as int <= 0xFFFF_FFFF_FFFF_FFFF,
                    DISTANCE_MAX == 2_040_000_000_000_000_000i64,
            ;
        }
        total = total + (m0 as i128) + (m1 as i128) + (m2 as i128) + (m3 as i128);
    }
    Ok(total)
}

} // verus!
