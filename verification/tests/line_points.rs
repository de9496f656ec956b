//! Boundary behavior of `points_along_line`: exact endpoints in and out of
//! the output, spacing, and the degenerate zero-distance segment.

use geo_ruler::interp::LinePointInterpolator;
use geo_ruler::ruler::{CheapRuler, Coord};

fn fx(v: f64) -> i64 {
    (v * 1e9).round() as i64
}

fn empire_state() -> Coord {
    Coord { lon: fx(-73.9857), lat: fx(40.7484) }
}

fn flatiron() -> Coord {
    Coord { lon: fx(-73.9897), lat: fx(40.7411) }
}

#[test]
fn ends_are_exact_when_included() {
    let ruler = CheapRuler::WGS84();
    let points = ruler.points_along_line(empire_state(), flatiron(), fx(100.), true);
    assert!(points.len() >= 2);
    assert_eq!(points[0], empire_state());
    assert_eq!(points[points.len() - 1], flatiron());
}

#[test]
fn ends_are_absent_when_excluded() {
    let ruler = CheapRuler::WGS84();
    let points = ruler.points_along_line(empire_state(), flatiron(), fx(100.), false);
    assert!(!points.is_empty());
    for &p in &points {
        assert_ne!(p, empire_state());
        assert_ne!(p, flatiron());
    }
}

#[test]
fn spacing_never_exceeds_the_maximum() {
    let ruler = CheapRuler::WGS84();
    let max_distance = fx(100.);
    let points = ruler.points_along_line(empire_state(), flatiron(), max_distance, true);
    for pair in points.windows(2) {
        let d = ruler.distance(pair[0], pair[1]);
        // within one percent, as the ratio arithmetic rounds down
        assert!((d as f64) <= (max_distance as f64) * 1.01);
    }
}

#[test]
fn zero_distance_segment_is_guarded() {
    let ruler = CheapRuler::WGS84();
    let p = empire_state();
    let with_ends = ruler.points_along_line(p, p, fx(100.), true);
    assert_eq!(with_ends, vec![p]);
    let without_ends = ruler.points_along_line(p, p, fx(100.), false);
    assert!(without_ends.is_empty());
}

#[test]
fn interpolator_is_lazy_and_single_pass() {
    // a step of one quarter: three interior interpolants, then the end once
    let mut it = LinePointInterpolator::new(empire_state(), flatiron(), 250_000_000, true);
    let first = it.next().expect("points is empty");
    assert_eq!(first, empire_state());
    let mut count: usize = 1;
    let mut last = first;
    while let Some(p) = it.next() {
        last = p;
        count += 1;
    }
    assert_eq!(count, 5);
    assert_eq!(last, flatiron());
    assert_eq!(it.next(), None);
    assert_eq!(it.next(), None);
}

#[test]
fn spacing_beyond_the_span_leaves_only_the_frame() {
    let ruler = CheapRuler::WGS84();
    let points = ruler.points_along_line(empire_state(), flatiron(), fx(100_000.), true);
    assert_eq!(points, vec![empire_state(), flatiron()]);
    let interior = ruler.points_along_line(empire_state(), flatiron(), fx(100_000.), false);
    assert!(interior.is_empty());
}
