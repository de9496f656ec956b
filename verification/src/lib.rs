//! A fast, city-scale geodesic approximation library built on the cheap-ruler
//! model: a locally flat Earth with latitude-dependent scaling factors.
//!
//! All quantities are fixed-point numbers: an `i64` holding the real value
//! multiplied by [`fixed::SCALE`] (nano resolution). Degrees, radians and
//! meters all use the same resolution, so `40.7484` degrees is stored as
//! `40_748_400_000` and a meter as `1_000_000_000`. Working over integers
//! keeps every operation exact and lets each function's contract pin its
//! result down to the unit.

use vstd::prelude::*;

pub mod batch;
pub mod fixed;
pub mod interp;
pub mod poly_bounds;
pub mod ruler;
pub mod trig;

verus! {

/// Marker trait satisfied by every scalar type. Measuring front ends that
/// feed single-precision coordinate constants into the ruler may narrow it
/// with a conversion bound of their own.
pub trait MaybeFromf32 {}

impl<T> MaybeFromf32 for T {}

} // verus!
