//! Round-trip, involution and cross-validation properties of the ruler,
//! sampled over bearings and distances, with the geo crate's exact
//! ellipsoidal solver as the reference.

use geo::{Bearing, Destination, Distance, Geodesic, Point};
use geo_ruler::ruler::{CheapRuler, Coord};

const RELATIVE_ERROR: f64 = 0.01;

fn fx(v: f64) -> i64 {
    (v * 1e9).round() as i64
}

fn fl(v: i64) -> f64 {
    v as f64 / 1e9
}

fn as_point(c: Coord) -> Point<f64> {
    Point::new(fl(c.lon), fl(c.lat))
}

fn origin() -> Coord {
    Coord { lon: fx(-73.9857), lat: fx(40.7484) }
}

#[test]
fn round_trip_distance() {
    let ruler = CheapRuler::WGS84();
    let origin = origin();

    let mut bearing: i64 = 0;
    while bearing < 360 {
        for &distance in &[100i64, 550, 1000] {
            let d = distance * 1_000_000_000;
            let destination = ruler.destination(origin, bearing * 1_000_000_000, d);
            let back = ruler.distance(origin, destination);
            let error = (back - d).abs() as f64 / d as f64;
            assert!(error < RELATIVE_ERROR, "bearing {bearing} distance {distance}");
        }
        bearing += 7;
    }
}

#[test]
fn destination_is_involutory() {
    let ruler = CheapRuler::WGS84();
    let origin = origin();

    let mut bearing: i64 = 0;
    while bearing < 360 {
        for &distance in &[100i64, 550, 1000] {
            let d = distance * 1_000_000_000;
            let b = bearing * 1_000_000_000;
            let destination = ruler.destination(origin, b, d);
            let inverse = (b + 180_000_000_000) % 360_000_000_000;
            let back = ruler.destination(destination, inverse, d);
            let error = fl(ruler.distance(origin, back)) / fl(d);
            assert!(error < RELATIVE_ERROR, "bearing {bearing} distance {distance}");
        }
        bearing += 7;
    }
}

#[test]
fn destination_is_precise() {
    let ruler = CheapRuler::WGS84();
    let origin = origin();

    let mut bearing: i64 = 0;
    while bearing < 360 {
        for &distance in &[100i64, 550, 1000] {
            let d = distance * 1_000_000_000;
            let exact = Geodesic.destination(as_point(origin), bearing as f64, distance as f64);
            let approx = ruler.destination(origin, bearing * 1_000_000_000, d);
            let error = Geodesic.distance(exact, as_point(approx)) / distance as f64;
            assert!(error < RELATIVE_ERROR, "bearing {bearing} distance {distance}");
        }
        bearing += 7;
    }
}

#[test]
fn two_landmarks_match_the_exact_model() {
    let ruler = CheapRuler::WGS84();
    let empire_state = Coord { lon: fx(-73.9857), lat: fx(40.7484) };
    let flatiron = Coord { lon: fx(-73.9897), lat: fx(40.7411) };

    let exact_distance = Geodesic.distance(as_point(empire_state), as_point(flatiron));
    let approx_distance = fl(ruler.distance(empire_state, flatiron));
    assert!((exact_distance - approx_distance).abs() / exact_distance < RELATIVE_ERROR);
    // the two buildings are under a kilometer apart
    assert!(850. < approx_distance && approx_distance < 910.);

    let exact_bearing = Geodesic.bearing(as_point(empire_state), as_point(flatiron)).rem_euclid(
        360.,
    );
    let approx_bearing = fl(ruler.bearing(empire_state, flatiron)).rem_euclid(360.);
    assert!((exact_bearing - approx_bearing).abs() / exact_bearing < RELATIVE_ERROR);
    // the bearing points roughly south-south-west
    assert!(195. < approx_bearing && approx_bearing < 210.);
}

#[test]
fn distance_to_self_is_zero() {
    let ruler = CheapRuler::WGS84();
    let p = origin();
    assert_eq!(ruler.distance(p, p), 0);
}

#[test]
fn destination_with_zero_distance_stays_put() {
    let ruler = CheapRuler::WGS84();
    let p = origin();
    let q = ruler.destination(p, 123_000_000_000, 0);
    assert_eq!(p, q);
}

#[test]
fn bearing_is_normalized() {
    let ruler = CheapRuler::WGS84();
    let center = origin();
    for &(dlon, dlat) in
        &[(1i64, 0i64), (1, 1), (0, 1), (-1, 1), (-1, 0), (-1, -1), (0, -1), (1, -1)] {
        let target = Coord {
            lon: center.lon + dlon * 1_000_000,
            lat: center.lat + dlat * 1_000_000,
        };
        let b = ruler.bearing(center, target);
        assert!(0 <= b && b < 360_000_000_000);
    }
}

#[test]
fn poles_are_not_special_cased_for_distance() {
    let ruler = CheapRuler::WGS84();
    let near_pole = Coord { lon: 0, lat: fx(89.9) };
    let pole = Coord { lon: 0, lat: fx(90.0) };
    let d = ruler.distance(near_pole, pole);
    // a tenth of a degree of latitude is about eleven kilometers
    assert!(10_000 < fl(d) as i64 && (fl(d) as i64) < 12_000);
}
