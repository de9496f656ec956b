//! The scalar ruler measured against the exact ellipsoidal reference from
//! the geo crate.

use geo::{Bearing, Destination, Distance, Geodesic, GeodesicMeasure, InterpolatePoint, Point};
use geo_ruler::ruler::{CheapRuler, Coord};

const RELATIVE_ERROR: f64 = 0.01;
const EPSILON: f64 = 0.01;

fn fx(v: f64) -> i64 {
    (v * 1e9).round() as i64
}

fn fl(v: i64) -> f64 {
    v as f64 / 1e9
}

fn coord(lon: f64, lat: f64) -> Coord {
    Coord { lon: fx(lon), lat: fx(lat) }
}

fn as_point(c: Coord) -> Point<f64> {
    Point::new(fl(c.lon), fl(c.lat))
}

fn relative_eq(a: f64, b: f64, max_relative: f64) -> bool {
    let scale = a.abs().max(b.abs());
    (a - b).abs() <= scale * max_relative
}

#[test]
fn distance() {
    let empire_state = Point::new(-73.9857, 40.7484);
    let flatiron = Point::new(-73.9897, 40.7411);

    let distance_geodesic = Geodesic.distance(empire_state, flatiron);
    let distance_ruler = fl(CheapRuler::WGS84().distance(
        coord(-73.9857, 40.7484),
        coord(-73.9897, 40.7411),
    ));

    assert!(relative_eq(distance_geodesic, distance_ruler, RELATIVE_ERROR));
}

#[test]
fn destination() {
    let empire_state = Point::new(-73.9857, 40.7484);
    let distance = 100.;
    let bearing = 45.;

    let geodesic_point = Geodesic.destination(empire_state, bearing, distance);
    let ruler_point = CheapRuler::WGS84().destination(coord(-73.9857, 40.7484), fx(bearing), fx(
        distance,
    ));

    let error = Geodesic.distance(geodesic_point, as_point(ruler_point)) / distance;

    assert!(error.abs() <= EPSILON);
}

#[test]
fn bearing() {
    let empire_state = Point::new(-73.9857, 40.7484);
    let flatiron = Point::new(-73.9897, 40.7411);

    let bearing_geodesic = Geodesic.bearing(empire_state, flatiron).rem_euclid(360.);
    let bearing_ruler = fl(CheapRuler::WGS84().bearing(
        coord(-73.9857, 40.7484),
        coord(-73.9897, 40.7411),
    ))
    .rem_euclid(360.);

    assert!(relative_eq(bearing_geodesic, bearing_ruler, RELATIVE_ERROR));
}

#[test]
fn interpolate_distance() {
    let empire_state = Point::new(-73.9857, 40.7484);
    let flatiron = Point::new(-73.9897, 40.7411);
    let distance = 100.;

    let geodesic_point = Geodesic.point_at_distance_between(empire_state, flatiron, distance);
    let ruler_point = CheapRuler::WGS84().point_at_distance_between(
        coord(-73.9857, 40.7484),
        coord(-73.9897, 40.7411),
        fx(distance),
    );

    let error = Geodesic.distance(geodesic_point, as_point(ruler_point)) / distance;

    assert!(error.abs() <= EPSILON);
}

#[test]
fn interpolate_ratio() {
    let empire_state = Point::new(-73.9857, 40.7484);
    let flatiron = Point::new(-73.9897, 40.7411);
    let ratio = 0.15;

    let geodesic_point = Geodesic.point_at_ratio_between(empire_state, flatiron, ratio);
    let ruler_point = CheapRuler::WGS84().point_at_ratio_between(
        coord(-73.9857, 40.7484),
        coord(-73.9897, 40.7411),
        fx(ratio),
    );

    let error = Geodesic.distance(geodesic_point, as_point(ruler_point));

    assert!(error.abs() <= EPSILON);
}

#[test]
fn interpolate_along_no_ends() {
    let empire_state = coord(-73.9857, 40.7484);
    let flatiron = coord(-73.9897, 40.7411);
    let max_distance = 100.;

    let ruler = CheapRuler::WGS84();
    let points = ruler.points_along_line(empire_state, flatiron, fx(max_distance), false);

    assert!(!points.is_empty(), "points is empty");

    let mut found_empire_state = false;
    let mut found_flatiron = false;
    let mut prev = points[0];

    if prev == empire_state {
        found_empire_state = true;
    }
    if prev == flatiron {
        found_flatiron = true;
    }

    for &curr in &points[1..] {
        let distance = Geodesic.distance(as_point(prev), as_point(curr));

        if curr == empire_state {
            found_empire_state = true;
        }
        if curr == flatiron {
            found_flatiron = true;
        }

        prev = curr;

        assert!(distance < max_distance || relative_eq(distance, max_distance, RELATIVE_ERROR));
    }

    assert!(!found_flatiron && !found_empire_state);
}

#[test]
fn interpolate_along_with_ends() {
    let empire_state = coord(-73.9857, 40.7484);
    let flatiron = coord(-73.9897, 40.7411);
    let max_distance = 100.;

    let ruler = CheapRuler::WGS84();
    let points = ruler.points_along_line(empire_state, flatiron, fx(max_distance), true);

    assert!(!points.is_empty(), "points is empty");

    let mut found_empire_state = false;
    let mut found_flatiron = false;
    let mut prev = points[0];

    if prev == empire_state {
        found_empire_state = true;
    }
    if prev == flatiron {
        found_flatiron = true;
    }

    for &curr in &points[1..] {
        let distance = Geodesic.distance(as_point(prev), as_point(curr));

        if curr == empire_state {
            found_empire_state = true;
        }
        if curr == flatiron {
            found_flatiron = true;
        }

        prev = curr;

        assert!(distance < max_distance || relative_eq(distance, max_distance, RELATIVE_ERROR));
    }

    assert!(found_flatiron && found_empire_state);
}

#[test]
fn non_standard_model() {
    let olympus_mons = Point::new(-226.2, 18.65);
    let karzok_crater = Point::new(-226.192, 18.2292);

    let mars_equatorial_radius = 3_396_200.;
    let mars_polar_radius = 3_376_200.;
    let mars_flattening = 0.00589;

    let mars_geoid = GeodesicMeasure::new(mars_equatorial_radius, mars_flattening);
    let mars_ruler = CheapRuler::new(fx(mars_equatorial_radius), fx(mars_polar_radius));

    let distance_geodesic = mars_geoid.distance(olympus_mons, karzok_crater);
    // Mars longitudes in the source data run past -180; slide the pair into
    // the conventional range, which leaves their distance unchanged.
    let distance_ruler = fl(mars_ruler.distance(
        coord(-226.2 + 360., 18.65),
        coord(-226.192 + 360., 18.2292),
    ));

    assert!(relative_eq(distance_geodesic, distance_ruler, RELATIVE_ERROR));
}
