//! Accuracy of the arctangent tiers against the platform function, over a
//! grid of operands, each tier held to its documented error bound.

use geo_ruler::ruler::{CheapRuler, Coord};
use geo_ruler::trig::{atan2, ArctanTier};

fn fx(v: f64) -> i64 {
    (v * 1e9).round() as i64
}

fn angular_error(a: f64, b: f64) -> f64 {
    let two_pi = 2.0 * std::f64::consts::PI;
    let d = (a - b).rem_euclid(two_pi);
    d.min(two_pi - d)
}

fn check_tier(tier: ArctanTier, bound: f64) {
    let mut y = -1000.0f64;
    while y <= 1000.0 {
        let mut x = -1000.0f64;
        while x <= 1000.0 {
            if !(x == 0.0 && y == 0.0) {
                let approx = atan2(fx(y), fx(x), tier) as f64 / 1e9;
                let exact = y.atan2(x);
                let err = angular_error(approx, exact);
                assert!(err <= bound, "tier {tier:?} at ({x}, {y}): error {err}");
            }
            x += 77.0;
        }
        y += 77.0;
    }
    // the axes, where the quadrant splits sit
    for &v in &[-1000.0f64, -1.0, 1.0, 1000.0] {
        let on_x = atan2(fx(0.0), fx(v), tier) as f64 / 1e9;
        assert!(angular_error(on_x, (0.0f64).atan2(v)) <= bound);
        let on_y = atan2(fx(v), fx(0.0), tier) as f64 / 1e9;
        assert!(angular_error(on_y, v.atan2(0.0)) <= bound);
    }
}

#[test]
fn three_term_tier_stays_within_a_tenth_radian() {
    check_tier(ArctanTier::Deg3, 0.1);
}

#[test]
fn five_term_tier_stays_within_a_hundredth_radian() {
    check_tier(ArctanTier::Deg5, 0.01);
}

#[test]
fn eleven_term_tier_stays_within_a_thousandth_radian() {
    check_tier(ArctanTier::Deg11, 0.001);
}

#[test]
fn origin_maps_to_zero() {
    for &tier in &[ArctanTier::Deg3, ArctanTier::Deg5, ArctanTier::Deg11] {
        assert_eq!(atan2(0, 0, tier), 0);
    }
}

#[test]
fn bearing_tiers_agree_on_a_city_block() {
    let empire_state = Coord { lon: fx(-73.9857), lat: fx(40.7484) };
    let flatiron = Coord { lon: fx(-73.9897), lat: fx(40.7411) };

    let reference =
        CheapRuler::WGS84().with_arctan_tier(ArctanTier::Deg11).bearing(empire_state, flatiron)
            as f64 / 1e9;
    let five = CheapRuler::WGS84().with_arctan_tier(ArctanTier::Deg5).bearing(
        empire_state,
        flatiron,
    ) as f64 / 1e9;
    let three = CheapRuler::WGS84().with_arctan_tier(ArctanTier::Deg3).bearing(
        empire_state,
        flatiron,
    ) as f64 / 1e9;

    // a tenth and a hundredth of a radian, in degrees
    assert!((five - reference).abs() <= 0.6);
    assert!((three - reference).abs() <= 5.8);
}
