use raytracer::scalar::{INFINITY, ONE};
use raytracer::vec3::{Vec3, Vector};

fn v(x: i64, y: i64, z: i64) -> Vector {
    Vec3::new(x * ONE, y * ONE, z * ONE)
}

#[test]
fn components_come_back_as_they_went_in() {
    let a = Vec3::new("x", "y", "z");
    assert_eq!(*a.x(), "x");
    assert_eq!(*a.y(), "y");
    assert_eq!(*a.z(), "z");
    assert_eq!(*a.index(0), "x");
    assert_eq!(*a.index(1), "y");
    assert_eq!(*a.index(2), "z");
    let mut b = Vec3::new(1u8, 2u8, 3u8);
    b.set(1, 9);
    assert_eq!(b, Vec3::new(1, 9, 3));
}

#[test]
fn all_zero_and_one() {
    assert_eq!(Vec3::all(7), Vec3::new(7, 7, 7));
    assert_eq!(Vec3::zero(), Vec3::new(0, 0, 0));
    assert_eq!(Vec3::one(), Vec3::new(ONE, ONE, ONE));
}

#[test]
fn sums_differences_and_products() {
    let a = v(1, 2, 3);
    let b = v(4, -5, 6);
    assert_eq!(a.plus(&b), v(5, -3, 9));
    assert_eq!(a.minus(&b), v(-3, 7, -3));
    assert_eq!(a.times(&b), v(4, -10, 18));
    assert_eq!(a.scaled(2 * ONE), v(2, 4, 6));
    assert_eq!(a.divided(2 * ONE), Vec3::new(ONE / 2, ONE, 3 * ONE / 2));
    assert_eq!(a.negated(), v(-1, -2, -3));
}

#[test]
fn dot_and_cross() {
    let a = v(1, 2, 3);
    let b = v(4, -5, 6);
    assert_eq!(a.dot(&b), 12 * ONE);
    assert_eq!(a.cross(&b), v(27, 6, -13));
    assert_eq!(v(1, 0, 0).cross(&v(0, 1, 0)), v(0, 0, 1));
}

#[test]
fn lengths() {
    let a = v(3, 4, 12);
    assert_eq!(a.length_squared(), 169 * ONE);
    assert_eq!(a.length(), 13 * ONE);
    assert_eq!(v(0, 0, 0).length(), 0);
}

#[test]
fn unit_vectors_have_length_one() {
    assert_eq!(v(0, 3, 4).unit_vector(), Vec3::new(0, 600_000_000, 800_000_000));
    assert_eq!(v(0, 3, 4).into_unit_vector(), Vec3::new(0, 600_000_000, 800_000_000));
    assert_eq!(v(0, 0, -7).unit_vector(), v(0, 0, -1));
}

#[test]
fn the_unit_vector_of_nothing_is_nothing() {
    assert_eq!(v(0, 0, 0).unit_vector(), v(0, 0, 0));
}

#[test]
fn near_zero_is_below_ten_billionths() {
    assert!(Vec3::new(9, -9, 0).near_zero());
    assert!(!Vec3::new(10, 0, 0).near_zero());
    assert!(!Vec3::new(0, 0, -10).near_zero());
}

#[test]
fn reflection_turns_the_part_along_the_normal() {
    let n = v(0, 1, 0);
    assert_eq!(v(1, -1, 0).reflect(&n), v(1, 1, 0));
    assert_eq!(v(2, -3, 5).reflect(&n), v(2, 3, 5));
}

#[test]
fn refraction_straight_on_goes_straight_on() {
    let n = v(0, 1, 0);
    let down = v(0, -1, 0);
    assert_eq!(down.refract(&n, ONE), down);
    assert_eq!(down.refract(&n, 3 * ONE / 2), down);
}

#[test]
fn refraction_bends_towards_the_normal_in_glass() {
    // sin = 0.6 outside, and 0.4 inside glass of index 1.5.
    let n = v(0, 1, 0);
    let incoming = Vec3::new(600_000_000, -800_000_000, 0);
    let bent = incoming.refract(&n, 2 * ONE / 3);
    let x = *bent.x() as f64 / 1e9;
    let y = *bent.y() as f64 / 1e9;
    assert!((x - 0.4).abs() < 1e-8, "x = {}", x);
    assert!((y + (1.0f64 - 0.16).sqrt()).abs() < 1e-8, "y = {}", y);
    assert_eq!(*bent.z(), 0);
}

#[test]
fn random_vectors_stay_in_their_range() {
    let mut moved = false;
    for _ in 0..200 {
        let a = Vec3::random();
        assert!(a.e0 >= 0 && a.e0 < ONE && a.e1 >= 0 && a.e1 < ONE && a.e2 >= 0 && a.e2 < ONE);
        let b = Vec3::random_range(-2 * ONE, 5 * ONE);
        assert!(b.e0 >= -2 * ONE && b.e0 < 5 * ONE);
        assert!(b.e1 >= -2 * ONE && b.e1 < 5 * ONE);
        assert!(b.e2 >= -2 * ONE && b.e2 < 5 * ONE);
        if b.e0 != -2 * ONE || b.e1 != -2 * ONE || b.e2 != -2 * ONE {
            moved = true;
        }
    }
    assert!(moved);
}

#[test]
fn random_draws_differ() {
    let first = Vec3::random();
    let mut other = false;
    for _ in 0..50 {
        if Vec3::random() != first {
            other = true;
        }
    }
    assert!(other);
}

#[test]
fn a_draw_inside_the_ball_is_divided_by_its_squared_length() {
    let p = Vec3::new(ONE / 2, 0, 0);
    assert_eq!(Vec3::accept(&p), Some(Vec3::new(2 * ONE, 0, 0)));
    assert_eq!(Vec3::accept(&Vec3::new(ONE, 0, 0)), None);
    assert_eq!(Vec3::accept(&Vec3::new(0, 0, 0)), None);
    assert_eq!(Vec3::accept(&Vec3::new(ONE, ONE, ONE)), None);
}

#[test]
fn random_directions_come_from_inside_the_ball() {
    for _ in 0..100 {
        let d = Vec3::random_unit_vector();
        // A draw p with 0 < |p|^2 < 1 divided by |p|^2 has a length above one.
        assert!(d.length() >= ONE - 10, "length {}", d.length());
    }
}

#[test]
fn hemisphere_vectors_point_with_the_normal() {
    let n = v(0, 0, 1);
    assert_eq!(Vec3::toward(v(1, 2, 3), &n), v(1, 2, 3));
    assert_eq!(Vec3::toward(v(1, 2, -3), &n), v(-1, -2, 3));
    assert_eq!(Vec3::toward(v(1, 2, 0), &n), v(-1, -2, 0));
    for _ in 0..100 {
        let d = Vec3::random_on_hemisphere(&n);
        assert!(d.dot(&n) >= 0);
    }
}

#[test]
fn operators_do_what_the_named_methods_do() {
    let a = v(1, 2, 3);
    let b = v(4, -5, 6);
    assert_eq!(a + b, a.plus(&b));
    assert_eq!(a - b, a.minus(&b));
    assert_eq!(-a, a.negated());
    assert_eq!(a * b, a.times(&b));
    assert_eq!(a * (ONE / 2), a.scaled(ONE / 2));
    assert_eq!(a / (4 * ONE), a.divided(4 * ONE));
    assert_eq!(a / 0, Vec3::all(INFINITY));
}

#[test]
fn lengths_at_the_scale_of_a_scene() {
    assert_eq!(v(300, 400, 0).length(), 500 * ONE);
    assert_eq!(v(0, 0, 308_025).length(), 308_025 * ONE);
    assert_eq!(v(100_000, 0, 0).length(), 100_000 * ONE);
    assert_eq!(v(3_000_000, 4_000_000, 0).length(), 5_000_000 * ONE);
    assert_eq!(v(2_000_000_000, 0, 0).length(), 2_000_000_000 * ONE);
    assert_eq!(v(0, 0, 308_025).unit_vector(), v(0, 0, 1));
    assert_eq!(v(300_000, 0, -400_000).unit_vector(), Vec3::new(600_000_000, 0, -800_000_000));
    let slanted = v(-100, 120, -987).length() as f64 / 1e9;
    assert!((slanted - 998_569.0f64.sqrt()).abs() < 1e-8, "length {}", slanted);
    assert_eq!(Vec3::new(1, 0, 0).unit_vector(), v(1, 0, 0));
    assert_eq!(Vec3::new(0, -3, 4).unit_vector(), Vec3::new(0, -600_000_000, 800_000_000));
    assert_eq!(Vec3::new(INFINITY, 0, 0).length(), INFINITY);
    assert_eq!(Vec3::new(INFINITY, INFINITY, i64::MIN).length(), INFINITY);
    assert_eq!(Vec3::new(i64::MIN, 0, 0).unit_vector(), v(-1, 0, 0));
}

#[test]
fn how_far_a_vector_reaches_along_another() {
    assert_eq!(v(1000, 0, 0).along(&v(1000, 0, 0)), 1000 * ONE);
    assert_eq!(v(0, 0, -1000).along(&v(0, 0, -1000)), 1000 * ONE);
    assert_eq!(v(3000, 4000, 0).along(&v(0, 50_000, 0)), 4000 * ONE);
    assert_eq!(v(3000, 4000, 0).along(&v(0, 0, 0)), 0);
    assert_eq!(v(1, 1, 0).along(&v(-3, -4, 0)), -7 * ONE / 5);
    assert_eq!(v(1, 2, 3).raw_dot(&v(4, -5, 6)), 12 * (ONE as i128) * (ONE as i128));
    assert_eq!(v(3, 4, 0).raw_length(), 5 * ONE as u128);
}

#[test]
fn the_part_of_a_vector_across_another() {
    // Across a direction along the first axis, what is left is the rest.
    assert_eq!(v(1000, 3, 4).across(&v(7, 0, 0)).length(), 5 * ONE);
    assert_eq!(v(1000, 3, 4).across(&v(7, 0, 0)), v(0, 4, -3));
    // Nothing lies across a direction that the vector runs along.
    assert_eq!(v(600, 800, 0).across(&v(3, 4, 0)), v(0, 0, 0));
    assert_eq!(v(-600, -800, 0).across(&v(3, 4, 0)), v(0, 0, 0));
    // Across a direction without length the vector itself is left.
    assert_eq!(v(1, 2, 3).across(&v(0, 0, 0)), v(1, 2, 3));
    // At the scale of a scene, and beyond what a product of scalars holds.
    assert_eq!(v(0, 3_000_000, 0).across(&v(1_000_000, 0, 0)), v(0, 0, -3_000_000));
}

#[test]
fn the_other_side_of_a_right_triangle() {
    assert_eq!(v(3, 0, 0).leg(5 * ONE), Some(4 * ONE));
    assert_eq!(v(0, 0, 0).leg(90 * ONE), Some(90 * ONE));
    assert_eq!(v(0, 5, 0).leg(5 * ONE), Some(0));
    assert_eq!(Vec3::new(0, 5 * ONE + 1, 0).leg(5 * ONE), None);
    assert_eq!(v(3, 4, 12).leg(13 * ONE), Some(0));
    assert_eq!(v(300_000, 0, 0).leg(500_000 * ONE), Some(400_000 * ONE));
    // The sign of the long side does not count.
    assert_eq!(v(3, 0, 0).leg(-5 * ONE), Some(4 * ONE));
    // A side of a thousandth against a long side of fifteen thousand.
    assert_eq!(Vec3::new(0, 0, 0).leg(15_000 * ONE), Some(15_000 * ONE));
    assert_eq!(Vec3::new(ONE / 1000, 0, 0).leg(ONE / 1000), Some(0));
}
