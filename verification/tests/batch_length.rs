//! The lane-parallel length kernel against the scalar ruler, over every
//! boundary length around the lane width, and its mismatched-length error.

use geo_ruler::batch::{length, LengthError};
use geo_ruler::ruler::{CheapRuler, Coord};

const RELATIVE_ERROR: f64 = 0.01;

fn fx(v: f64) -> i64 {
    (v * 1e9).round() as i64
}

/// A deterministic polyline of `n` vertices wiggling through a city.
fn polyline(n: usize) -> (Vec<i64>, Vec<i64>) {
    let mut lons: Vec<i64> = Vec::new();
    let mut lats: Vec<i64> = Vec::new();
    for i in 0..n {
        let t = i as f64;
        lons.push(fx(-73.9857 + 0.0013 * t + 0.0004 * (if i % 3 == 0 { 1.0 } else { -1.0 })));
        lats.push(fx(40.7484 + 0.0009 * t + 0.0003 * (if i % 2 == 0 { 1.0 } else { -1.0 })));
    }
    (lons, lats)
}

fn scalar_total(lons: &[i64], lats: &[i64]) -> f64 {
    let ruler = CheapRuler::WGS84();
    let mut total: f64 = 0.0;
    for i in 1..lons.len() {
        let a = Coord { lon: lons[i - 1], lat: lats[i - 1] };
        let b = Coord { lon: lons[i], lat: lats[i] };
        total += ruler.distance(a, b) as f64 / 1e9;
    }
    total
}

fn check_length(n: usize) {
    let (lons, lats) = polyline(n);
    let batch = length(&lons, &lats).unwrap() as f64 / 1e9;
    let scalar = scalar_total(&lons, &lats);
    if n < 2 {
        assert_eq!(batch, 0.0);
    } else {
        let err = (batch - scalar).abs() / scalar;
        assert!(err < RELATIVE_ERROR, "n {n}: batch {batch} scalar {scalar}");
    }
}

#[test]
fn batch_matches_scalar_at_every_boundary_length() {
    for &n in &[0usize, 1, 2, 4, 5, 7] {
        check_length(n);
    }
}

#[test]
fn batch_matches_scalar_on_a_long_prime_polyline() {
    check_length(1019);
}

#[test]
fn mismatched_lengths_are_a_reported_error() {
    let (lons, mut lats) = polyline(6);
    lats.pop();
    assert_eq!(length(&lons, &lats), Err(LengthError::MismatchedLengths));
}

#[test]
fn test_simd_length_basic() {
    let lats: Vec<f64> = vec![40.7484, 40.7500, 40.7516, 40.7532, 40.7540, 40.7550, 40.7590];
    let lons: Vec<f64> = vec![-73.9857, -73.9840, -73.9823, -73.9806, -73.9790, -73.9770,
        -73.9990];

    let lons_fixed: Vec<i64> = lons.iter().map(|&v| fx(v)).collect();
    let lats_fixed: Vec<i64> = lats.iter().map(|&v| fx(v)).collect();

    let simd_length = length(&lons_fixed, &lats_fixed).unwrap() as f64 / 1e9;

    let ruler = CheapRuler::WGS84();
    let mut reference_length: f64 = 0.0;
    for i in 1..lons_fixed.len() {
        let a = Coord { lon: lons_fixed[i - 1], lat: lats_fixed[i - 1] };
        let b = Coord { lon: lons_fixed[i], lat: lats_fixed[i] };
        reference_length += ruler.distance(a, b) as f64 / 1e9;
    }

    let err = (simd_length - reference_length).abs() / reference_length;
    assert!(err < RELATIVE_ERROR as f64);
}
