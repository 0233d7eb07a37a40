use webmercator_dist::{is_valid_increment, plan, within_scan, Plan, LATITUDE_LIMIT_BITS};

fn plan_for(increment: f64) -> Plan {
    plan(Some(increment.to_bits()))
}

/// Runs the scan's schedule for an increment, as the program does: from the
/// equator, adding the increment, while the library keeps the latitude inside.
fn samples(increment: f64) -> Vec<f64> {
    assert_eq!(plan_for(increment), Plan::Scan);
    let mut out = Vec::new();
    let mut latitude = 0.0f64;
    while within_scan(latitude.to_bits()) {
        out.push(latitude);
        latitude += increment;
    }
    out
}

#[test]
fn increment_thirty_samples_in_order() {
    assert_eq!(samples(30.0), vec![0.0, 30.0, 60.0, 90.0]);
}

#[test]
fn increment_ten_gives_ten_samples() {
    let s = samples(10.0);
    assert_eq!(s.len(), 10);
    for (k, lat) in s.iter().enumerate() {
        assert_eq!(*lat, 10.0 * k as f64);
    }
}

#[test]
fn increment_ninety_gives_equator_and_pole() {
    assert_eq!(samples(90.0), vec![0.0, 90.0]);
}

#[test]
fn increment_that_overshoots_stops_before_pole() {
    assert_eq!(samples(40.0), vec![0.0, 40.0, 80.0]);
}

#[test]
fn invalid_increments_are_out_of_range() {
    assert_eq!(plan_for(0.0), Plan::OutOfRange);
    assert_eq!(plan_for(-5.0), Plan::OutOfRange);
    assert_eq!(plan_for(95.0), Plan::OutOfRange);
}

#[test]
fn missing_argument_gives_usage() {
    assert_eq!(plan(None), Plan::Usage);
    assert_eq!(plan("abc".parse::<f64>().ok().map(f64::to_bits)), Plan::Usage);
}

#[test]
fn special_values_are_out_of_range() {
    assert_eq!(plan_for(-0.0), Plan::OutOfRange);
    assert_eq!(plan_for(f64::NAN), Plan::OutOfRange);
    assert_eq!(plan_for(-f64::NAN), Plan::OutOfRange);
    assert_eq!(plan_for(f64::INFINITY), Plan::OutOfRange);
    assert_eq!(plan_for(f64::NEG_INFINITY), Plan::OutOfRange);
}

#[test]
fn limits_of_the_increment() {
    assert_eq!(plan_for(90.0), Plan::Scan);
    assert_eq!(plan_for(f64::from_bits(90.0f64.to_bits() + 1)), Plan::OutOfRange);
    assert_eq!(plan_for(f64::from_bits(1)), Plan::Scan);
    assert_eq!(plan_for(f64::MIN_POSITIVE), Plan::Scan);
    assert_eq!(plan_for(1e-300), Plan::Scan);
    assert_eq!(plan_for(89.999), Plan::Scan);
}

#[test]
fn validity_matches_float_comparison() {
    let values = [
        0.0, -0.0, 1e-320, 0.5, 1.0, 30.0, 63.99, 64.0, 89.9999999, 90.0, 90.0000001, 127.9,
        128.0, 1e300, -1.0, -90.0, -1e300, f64::INFINITY, f64::NEG_INFINITY, f64::NAN,
    ];
    for v in values {
        assert_eq!(is_valid_increment(v.to_bits()), v > 0.0 && v <= 90.0, "{v}");
        assert_eq!(within_scan(v.to_bits()), v <= 90.0, "{v}");
    }
}

#[test]
fn latitude_limit_encodes_ninety() {
    assert_eq!(f64::from_bits(LATITUDE_LIMIT_BITS), 90.0);
}

#[test]
fn scan_bound_on_negative_and_special_latitudes() {
    assert!(within_scan((-0.0f64).to_bits()));
    assert!(within_scan(f64::NEG_INFINITY.to_bits()));
    assert!(within_scan((-1e300f64).to_bits()));
    assert!(!within_scan(f64::INFINITY.to_bits()));
    assert!(!within_scan(f64::NAN.to_bits()));
    assert!(!within_scan((-f64::NAN).to_bits()));
    assert!(!within_scan(90.00000000000001f64.to_bits()));
}
