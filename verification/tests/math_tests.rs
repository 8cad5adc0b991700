use raytracer::math::{
    acos, atan2, degrees_to_radians, floor, ln, powi, sin_cos, tan, whole, HALF_PI, PI,
};
use raytracer::scalar::{INFINITY, NEG_INFINITY, ONE};

fn to_float(x: i64) -> f64 {
    x as f64 / 1e9
}

fn to_fixed(x: f64) -> i64 {
    (x * 1e9).round() as i64
}

fn close(got: i64, want: f64, tolerance: f64) -> bool {
    (to_float(got) - want).abs() <= tolerance
}

#[test]
fn sine_and_cosine_follow_the_real_functions() {
    let mut k = -2000;
    while k <= 2000 {
        let x = k as f64 * 0.01;
        let (s, c) = sin_cos(to_fixed(x));
        assert!(close(s, x.sin(), 1e-7), "sin {} gave {}", x, to_float(s));
        assert!(close(c, x.cos(), 1e-7), "cos {} gave {}", x, to_float(c));
        k += 7;
    }
}

#[test]
fn sine_and_cosine_at_the_quarter_turns() {
    assert_eq!(sin_cos(0), (0, ONE));
    let (s, c) = sin_cos(HALF_PI);
    assert!(close(s, 1.0, 1e-8));
    assert!(close(c, 0.0, 1e-8));
    let (s, c) = sin_cos(PI);
    assert!(close(s, 0.0, 1e-8));
    assert!(close(c, -1.0, 1e-8));
    let (s, c) = sin_cos(-HALF_PI);
    assert!(close(s, -1.0, 1e-8));
    assert!(close(c, 0.0, 1e-8));
}

#[test]
fn tangent_of_an_eighth_turn_is_one() {
    assert!(close(tan(PI / 4), 1.0, 1e-7));
    assert!(close(tan(to_fixed(0.3)), 0.3f64.tan(), 1e-7));
}

#[test]
fn degrees_become_radians() {
    assert!(close(degrees_to_radians(180 * ONE), std::f64::consts::PI, 1e-7));
    assert!(close(degrees_to_radians(90 * ONE), std::f64::consts::FRAC_PI_2, 1e-7));
    assert_eq!(degrees_to_radians(0), 0);
}

#[test]
fn atan2_covers_the_four_quadrants() {
    let points = [
        (1.0, 1.0),
        (1.0, -1.0),
        (-1.0, 1.0),
        (-1.0, -1.0),
        (0.5, 2.0),
        (2.0, 0.5),
        (-0.25, 3.0),
        (3.0, -0.25),
        (0.0, 1.0),
        (0.0, -1.0),
        (1.0, 0.0),
        (-1.0, 0.0),
    ];
    for (y, x) in points {
        let got = atan2(to_fixed(y), to_fixed(x));
        assert!(close(got, f64::atan2(y, x), 1e-7), "atan2({}, {}) gave {}", y, x, to_float(got));
    }
    assert_eq!(atan2(0, 0), 0);
}

#[test]
fn acos_runs_from_half_a_turn_down_to_zero() {
    assert!(close(acos(-ONE), std::f64::consts::PI, 1e-7));
    assert!(close(acos(0), std::f64::consts::FRAC_PI_2, 1e-7));
    assert!(close(acos(ONE), 0.0, 1e-7));
    assert!(close(acos(to_fixed(0.3)), 0.3f64.acos(), 1e-6));
}

#[test]
fn logarithm_follows_the_real_function() {
    let values = [0.001, 0.01, 0.1, 0.25, 0.5, 0.75, 0.999, 1.0, 1.5, 2.0, 10.0, 12345.678];
    for x in values {
        let got = ln(to_fixed(x));
        assert!(close(got, x.ln(), 1e-6), "ln {} gave {}", x, to_float(got));
    }
    assert_eq!(ln(ONE), 0);
}

#[test]
fn logarithm_of_nothing_is_negative_infinity() {
    assert_eq!(ln(0), NEG_INFINITY);
    assert_eq!(ln(-ONE), NEG_INFINITY);
    assert_eq!(ln(INFINITY), INFINITY);
}

#[test]
fn floor_goes_down_also_below_zero() {
    assert_eq!(floor(1_500_000_000), ONE);
    assert_eq!(floor(-1_500_000_000), -2 * ONE);
    assert_eq!(floor(-ONE), -ONE);
    assert_eq!(floor(0), 0);
    assert_eq!(floor(INFINITY), INFINITY);
    assert_eq!(whole(2_999_999_999), 2);
    assert_eq!(whole(-1), -1);
    assert_eq!(whole(-ONE - 1), -2);
}

#[test]
fn powers_by_repeated_multiplication() {
    assert_eq!(powi(2 * ONE, 0), ONE);
    assert_eq!(powi(2 * ONE, 5), 32 * ONE);
    assert_eq!(powi(-3 * ONE, 3), -27 * ONE);
    assert_eq!(powi(500_000_000, 2), 250_000_000);
}

#[test]
fn sine_and_cosine_stay_between_minus_one_and_one() {
    let mut x: i64 = -40 * ONE;
    while x <= 40 * ONE {
        let (s, c) = sin_cos(x);
        assert!(-ONE <= s && s <= ONE && -ONE <= c && c <= ONE, "at {}: {} {}", x, s, c);
        x += 12_345_679;
    }
    for x in [HALF_PI, -HALF_PI, PI, -PI, HALF_PI - 1, HALF_PI + 1, 2 * PI, i64::MAX, i64::MIN, INFINITY] {
        let (s, c) = sin_cos(x);
        assert!(-ONE <= s && s <= ONE && -ONE <= c && c <= ONE);
    }
}

#[test]
fn the_logarithm_changes_its_sign_at_one() {
    let mut x: i64 = 1;
    while x < ONE {
        assert!(ln(x) <= 0, "ln {} gave {}", x, ln(x));
        x += 1_234_567;
    }
    for x in [ONE - 1, ONE - 2, ONE - 3, ONE - 1000] {
        assert!(ln(x) <= 0);
    }
    for x in [ONE, ONE + 1, ONE + 2, ONE + 1000, 2 * ONE, 1_000_000 * ONE, INFINITY - 1] {
        assert!(ln(x) >= 0, "ln {} gave {}", x, ln(x));
    }
}

#[test]
fn a_sine_and_a_cosine_belong_to_one_angle() {
    // The pair lies on the circle: what is left of one beside the lesser part is the other.
    assert_eq!(raytracer::math::on_circle(0, ONE), (0, ONE));
    assert_eq!(raytracer::math::on_circle(0, -ONE), (0, -ONE));
    assert_eq!(raytracer::math::on_circle(ONE, 1), (ONE - 1, 1));
    assert_eq!(raytracer::math::on_circle(600_000_000, 800_000_123), (600_000_000, 800_000_000));
    assert_eq!(raytracer::math::on_circle(-800_000_123, -600_000_000), (-800_000_000, -600_000_000));
    assert_eq!(raytracer::math::on_circle(500_000_000, 900_000_000), (500_000_000, 866_025_403));
    assert_eq!(raytracer::math::on_circle(-900_000_000, 500_000_000), (-866_025_403, 500_000_000));
    assert_eq!(raytracer::math::on_circle(0, 0), (0, ONE));
    // What is past one is held at one first.
    assert_eq!(raytracer::math::on_circle(2 * ONE, 5), (ONE - 1, 5));
    assert_eq!(raytracer::math::on_circle(-7 * ONE, 9 * ONE), (-ONE, 0));
    for tenth in -70..=70 {
        let (s, c) = sin_cos(tenth * ONE / 10);
        let squares = (s as i128) * (s as i128) + (c as i128) * (c as i128);
        let one = (ONE as i128) * (ONE as i128);
        assert!(one - 2 * (ONE as i128) <= squares && squares <= one, "at {} tenths", tenth);
    }
}
