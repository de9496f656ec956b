//! Interpolation along the line between two points.
//!
//! `point_at_ratio_between` interpolates directly in coordinate space --
//! deliberately not a true geodesic interpolation, which is acceptable at
//! city scale. `points_along_line` walks the line in equal ratio steps so
//! that consecutive points are at most the requested spacing apart, and
//! includes or excludes the exact endpoints as asked.

use crate::fixed::{
    fdiv, fmul, lemma_fmul_fraction, lemma_fmul_ratio_interior, lemma_tdiv_mono,
    lemma_tdiv_multiple, spec_fdiv, spec_fmul, SCALE,
};
use crate::ruler::{
    coord_in_range, spec_bearing, spec_destination, spec_distance, CheapRuler, Coord,
    LAT_DEST_MAX, TRAVEL_MAX,
};
use crate::trig::iabs;
use vstd::prelude::*;

verus! {

/// Linear interpolation of both coordinates: `start + ratio * (end - start)`.
pub open spec fn spec_lerp(start: Coord, end: Coord, ratio: int) -> (int, int) {
    (
        start.lon + spec_fmul(end.lon - start.lon, ratio),
        start.lat + spec_fmul(end.lat - start.lat, ratio),
    )
}

/// A ratio of zero lands exactly on the start point.
pub proof fn lemma_lerp_zero(start: Coord, end: Coord)
    ensures
        spec_lerp(start, end, 0) == (start.lon as int, start.lat as int),
{
    assert((end.lon - start.lon) * 0 == 0 && (end.lat - start.lat) * 0 == 0) by (nonlinear_arith);
    assert(spec_fmul(end.lon - start.lon, 0) == 0 && spec_fmul(end.lat - start.lat, 0) == 0);
}

/// A ratio of one whole unit lands exactly on the end point.
pub proof fn lemma_lerp_one(start: Coord, end: Coord)
    ensures
        spec_lerp(start, end, SCALE as int) == (end.lon as int, end.lat as int),
{
    lemma_tdiv_multiple(end.lon - start.lon, SCALE as int);
    lemma_tdiv_multiple(end.lat - start.lat, SCALE as int);
}

/// Away from both endpoints: whenever the longitudes differ by at least one
/// unit in the walking direction and one ratio step already moves the
/// longitude a whole unit, an interpolant at a ratio strictly inside
/// `(0, 1)` differs from both endpoints. (Swap the roles of the two points,
/// or read latitude for longitude, for the symmetric cases.)
pub proof fn lemma_lerp_strictly_interior(start: Coord, end: Coord, ratio: int)
    requires
        1 <= ratio < SCALE,
        end.lon - start.lon >= 1,
        ratio * (end.lon - start.lon) >= SCALE,
    ensures
        start.lon < spec_lerp(start, end, ratio).0 < end.lon,
{
    lemma_fmul_ratio_interior(end.lon - start.lon, ratio);
}

/// The interpolant itself, shared by the ruler method and the lazy
/// interpolator below.
fn lerp_point(start: Coord, end: Coord, ratio: i64) -> (r: Coord)
    requires
        coord_in_range(start),
        coord_in_range(end),
        0 <= ratio <= SCALE,
    ensures
        (r.lon as int, r.lat as int) == spec_lerp(start, end, ratio as int),
        coord_in_range(r),
{
    proof {
        lemma_fmul_fraction(end.lon as int - start.lon as int, ratio as int);
        lemma_fmul_fraction(end.lat as int - start.lat as int, ratio as int);
    }
    let dlon = fmul(end.lon - start.lon, ratio);
    let dlat = fmul(end.lat - start.lat, ratio);
    Coord { lon: start.lon + dlon, lat: start.lat + dlat }
}

/// A lazy, finite, single-pass generator of evenly spaced points along a
/// line: each call of [`next`](Self::next) hands out one point, walking the
/// ratio from the first offset in steps of `step` while it stays below one
/// whole unit, then the end point exactly once if it was asked for, then
/// nothing. It cannot be restarted.
pub struct LinePointInterpolator {
    /// Starting point of the line.
    pub start: Coord,
    /// Ending point of the line.
    pub end: Coord,
    /// Current offset ratio along the line, fixed-point in `[0, 1]`.
    pub offset: i64,
    /// Ratio step between consecutive points.
    pub step: i64,
    /// Whether the end point is still owed as the final item.
    pub include_last: bool,
}

impl LinePointInterpolator {
    /// Well-formedness: points in range, a positive step of at most one
    /// whole unit, and an offset that never runs more than one step past
    /// the end.
    pub open spec fn wf(&self) -> bool {
        &&& coord_in_range(self.start)
        &&& coord_in_range(self.end)
        &&& 1 <= self.step <= SCALE
        &&& 0 <= self.offset <= SCALE as int + self.step
    }

    /// One when the end point is still owed, zero after; the second
    /// component of the termination measure.
    pub open spec fn pending_end(&self) -> int {
        if self.include_last {
            1int
        } else {
            0int
        }
    }

    /// A fresh interpolator. With `include_ends` the walk starts at ratio
    /// zero (the exact start point) and owes the end point; without it the
    /// walk starts one step in and owes nothing.
    pub fn new(start: Coord, end: Coord, step: i64, include_ends: bool) -> (r: Self)
        requires
            coord_in_range(start),
            coord_in_range(end),
            1 <= step <= SCALE,
        ensures
            r.wf(),
            r.start == start,
            r.end == end,
            r.step == step,
            r.include_last == include_ends,
            r.offset as int == if include_ends {
                0int
            } else {
                step as int
            },
    {
        let offset: i64 = match include_ends {
            true => 0,
            false => step,
        };

        Self { start, end, offset, step, include_last: include_ends }
    }

    /// The point at the current offset; advances the offset by one step.
    fn advance(&mut self) -> (r: Coord)
        requires
            old(self).wf(),
            old(self).offset < SCALE,
        ensures
            final(self).wf(),
            (r.lon as int, r.lat as int) == spec_lerp(
                old(self).start,
                old(self).end,
                old(self).offset as int,
            ),
            coord_in_range(r),
            final(self).start == old(self).start,
            final(self).end == old(self).end,
            final(self).step == old(self).step,
            final(self).include_last == old(self).include_last,
            final(self).offset as int == old(self).offset + old(self).step,
    {
        let current = lerp_point(self.start, self.end, self.offset);

        self.offset = self.offset + self.step;

        current
    }

    /// Called once the ratio has reached the end of the line: hands out the
    /// end point if it is still owed.
    fn stop(&mut self) -> (r: Option<Coord>)
        requires
            old(self).wf(),
        ensures
            final(self).wf(),
            final(self).start == old(self).start,
            final(self).end == old(self).end,
            final(self).step == old(self).step,
            final(self).offset == old(self).offset,
            old(self).include_last ==> r == Some(old(self).end) && !final(self).include_last,
            !old(self).include_last ==> r == Option::<Coord>::None && *final(self) == *old(self),
    {
        if self.include_last {
            self.include_last = false;
            Some(self.end)
        } else {
            None
        }
    }

    /// The next point of the walk: an interpolant while the ratio is below
    /// one, then the end point once if owed, then nothing.
    pub fn next(&mut self) -> (r: Option<Coord>)
        requires
            old(self).wf(),
        ensures
            final(self).wf(),
            final(self).start == old(self).start,
            final(self).end == old(self).end,
            final(self).step == old(self).step,
            old(self).offset < SCALE ==> ({
                &&& r matches Some(p) && (p.lon as int, p.lat as int) == spec_lerp(
                    old(self).start,
                    old(self).end,
                    old(self).offset as int,
                )
                &&& final(self).offset as int == old(self).offset + old(self).step
                &&& final(self).include_last == old(self).include_last
            }),
            old(self).offset >= SCALE && old(self).include_last ==> r == Some(old(self).end)
                && !final(self).include_last && final(self).offset == old(self).offset,
            old(self).offset >= SCALE && !old(self).include_last ==> r == Option::<Coord>::None
                && *final(self) == *old(self),
    {
        if self.offset < SCALE {
            Some(self.advance())
        } else {
            self.stop()
        }
    }
}

impl CheapRuler {
    /// The point at `ratio` (fixed-point, `0` start to `SCALE` end) along
    /// the straight coordinate-space segment from `start` to `end`.
    pub fn point_at_ratio_between(&self, start: Coord, end: Coord, ratio: i64) -> (r: Coord)
        requires
            coord_in_range(start),
            coord_in_range(end),
            0 <= ratio <= SCALE,
        ensures
            (r.lon as int, r.lat as int) == spec_lerp(start, end, ratio as int),
            coord_in_range(r),
    {
        lerp_point(start, end, ratio)
    }

    /// The point `dist` fixed-point meters from `start` along the bearing
    /// toward `end`.
    pub fn point_at_distance_between(&self, start: Coord, end: Coord, dist: i64) -> (r: Coord)
        requires
            self.wf(),
            coord_in_range(start),
            coord_in_range(end),
            iabs(start.lat as int) <= LAT_DEST_MAX,
            0 <= dist <= TRAVEL_MAX,
        ensures
            (r.lon as int, r.lat as int) == spec_destination(
                *self,
                start,
                spec_bearing(*self, start, end),
                dist as int,
            ),
    {
        let bearing = self.bearing(start, end);
        self.destination(start, bearing, dist)
    }

    /// The ratio step `points_along_line` walks with: the requested spacing
    /// as a fraction of the total distance, capped at one whole unit (a
    /// spacing beyond the total distance leaves no interior points either
    /// way).
    pub open spec fn spec_line_step(&self, start: Coord, end: Coord, max_distance: int) -> int {
        let q = spec_fdiv(max_distance, spec_distance(*self, start, end));
        if q > SCALE {
            SCALE as int
        } else {
            q
        }
    }

    /// Evenly spaced points along the segment from `start` to `end`, never
    /// farther apart than `max_distance` fixed-point meters of ratio
    /// spacing. With `include_ends` the exact start and end points frame
    /// the output; without it only the strictly interior lattice is
    /// returned. A segment of distance zero has no usable step; the guard
    /// yields a single point (the start, when ends are asked for) or
    /// nothing. `max_distance` must resolve to at least one ratio unit
    /// (`distance <= max_distance * SCALE`), which every positive spacing
    /// at sensible scales does.
    pub fn points_along_line(
        &self,
        start: Coord,
        end: Coord,
        max_distance: i64,
        include_ends: bool,
    ) -> (r: Vec<Coord>)
        requires
            self.wf(),
            coord_in_range(start),
            coord_in_range(end),
            1 <= max_distance,
            spec_distance(*self, start, end) <= max_distance * SCALE,
        ensures
            ({
                let d = spec_distance(*self, start, end);
                let step = self.spec_line_step(start, end, max_distance as int);
                &&& (d == 0 && include_ends) ==> r@ == seq![start]
                &&& (d == 0 && !include_ends) ==> r@.len() == 0
                &&& (d > 0 && !include_ends) ==> {
                    &&& forall|j: int|
                        0 <= j < r@.len() ==> ((#[trigger] r@[j]).lon as int, r@[j].lat as int)
                            == spec_lerp(start, end, (j + 1) * step) && 1 <= (j + 1) * step
                            < SCALE
                    &&& (r@.len() + 1) * step >= SCALE
                }
                &&& (d > 0 && include_ends) ==> {
                    &&& r@.len() >= 2
                    &&& r@[0] == start
                    &&& r@[r@.len() - 1] == end
                    &&& forall|j: int|
                        0 <= j < r@.len() - 1 ==> ((#[trigger] r@[j]).lon as int,
                        r@[j].lat as int) == spec_lerp(start, end, j * step) && j * step < SCALE
                    &&& (r@.len() - 1) * step >= SCALE
                }
            }),
    {
        let dist = self.distance(start, end);
        if dist == 0 {
            let mut out: Vec<Coord> = Vec::new();
            if include_ends {
                out.push(start);
                proof {
                    assert(out@ =~= seq![start]);
                }
            }
            return out;
        }
        let step: i64 = if max_distance >= dist {
            proof {
                lemma_tdiv_mono((dist as int) * SCALE, (max_distance as int) * SCALE, dist as int);
                assert((dist as int) * SCALE == (SCALE as int) * dist) by (nonlinear_arith);
                lemma_tdiv_multiple(SCALE as int, dist as int);
                assert(self.spec_line_step(start, end, max_distance as int) == SCALE as int);
            }
            SCALE
        } else {
            proof {
                lemma_tdiv_mono(dist as int, (max_distance as int) * SCALE, dist as int);
                vstd::arithmetic::div_mod::lemma_div_by_self(dist as int);
                lemma_tdiv_mono((max_distance as int) * SCALE, (dist as int) * SCALE, dist as int);
                assert((dist as int) * SCALE == (SCALE as int) * dist) by (nonlinear_arith);
                lemma_tdiv_multiple(SCALE as int, dist as int);
            }
            fdiv(max_distance, dist)
        };
        proof {
            assert(1 <= step <= SCALE);
            assert(step as int == self.spec_line_step(start, end, max_distance as int));
        }
        let ghost first: int = if include_ends {
            0int
        } else {
            step as int
        };
        let mut out: Vec<Coord> = Vec::new();
        let mut it = LinePointInterpolator::new(start, end, step, include_ends);
        loop
            invariant
                coord_in_range(start),
                coord_in_range(end),
                1 <= step <= SCALE,
                it.wf(),
                it.start == start,
                it.end == end,
                it.step == step,
                first == if include_ends {
                    0int
                } else {
                    step as int
                },
                ({
                    ||| {
                        &&& it.include_last == include_ends
                        &&& it.offset as int == first + out@.len() * step
                        &&& forall|j: int|
                            0 <= j < out@.len() ==> ((#[trigger] out@[j]).lon as int,
                            out@[j].lat as int) == spec_lerp(start, end, first + j * step) && 0
                                <= first + j * step < SCALE
                    }
                    ||| {
                        &&& include_ends
                        &&& !it.include_last
                        &&& it.offset >= SCALE
                        &&& out@.len() >= 2
                        &&& out@[0] == start
                        &&& out@[out@.len() - 1] == end
                        &&& forall|j: int|
                            0 <= j < out@.len() - 1 ==> ((#[trigger] out@[j]).lon as int,
                            out@[j].lat as int) == spec_lerp(start, end, j * step) && j * step
                                < SCALE
                        &&& (out@.len() - 1) * step >= SCALE
                    }
                }),
            ensures
                it.offset >= SCALE,
                !it.include_last,
            decreases SCALE + step - it.offset, it.pending_end(),
        {
            let ghost before = it;
            let item = it.next();
            match item {
                Some(p) => {
                    out.push(p);
                    proof {
                        let n = out@.len() as int;
                        assert(0int * step == 0) by (nonlinear_arith);
                        if before.offset < SCALE {
                            // an interior interpolant was appended
                            assert((n - 1) * step + step == n * step) by (nonlinear_arith);
                            assert(out@[n - 1] == p);
                        } else {
                            // the owed end point was appended
                            lemma_lerp_zero(start, end);
                            assert(out@[0].lon as int == start.lon as int && out@[0].lat as int
                                == start.lat as int);
                            assert(out@[0] == start);
                            assert(out@[n - 1] == end);
                        }
                    }
                },
                None => {
                    break;
                },
            }
        }
        proof {
            assert(0int * step == 0) by (nonlinear_arith);
            if !include_ends {
                let n = out@.len() as int;
                assert(n * step + step == (n + 1) * step) by (nonlinear_arith);
                assert forall|j: int| 0 <= j < n implies #[trigger] ((j + 1) * step) == first + j
                    * step by {
                    assert((j + 1) * step == j * step + step) by (nonlinear_arith);
                }
            }
        }
        out
    }
}

} // verus!
