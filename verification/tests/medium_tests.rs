use raytracer::constant_medium::ConstantMedium;
use raytracer::hittable::{Hittable, Translate};
use raytracer::hittable_list::HittableList;
use raytracer::interval::Interval;
use raytracer::ray::Ray;
use raytracer::scalar::{INFINITY, ONE};
use raytracer::sphere::Sphere;
use raytracer::vec3::{Point, Vec3};

fn p(x: i64, y: i64, z: i64) -> Point {
    Vec3::new(x * ONE, y * ONE, z * ONE)
}

fn forward() -> Interval {
    Interval::from(0, INFINITY)
}

fn fog(radius: i64, density: i64) -> ConstantMedium<Sphere> {
    ConstantMedium::from(Sphere::new(p(0, 0, 0), radius, 0), density, 5)
}

#[test]
fn the_density_is_kept_as_minus_its_inverse() {
    assert_eq!(fog(ONE, 2 * ONE).neg_inv_density, -ONE / 2);
    assert_eq!(fog(ONE, ONE / 4).neg_inv_density, -4 * ONE);
    assert_eq!(fog(ONE, 2 * ONE).phase_function, 5);
}

#[test]
fn the_box_of_a_mist_is_that_of_its_boundary() {
    assert_eq!(fog(ONE, ONE).bounding_box().e0, Interval::from(-ONE, ONE));
}

#[test]
fn a_short_free_path_scatters_inside() {
    let mist = fog(ONE, ONE);
    let r = Ray::new(p(0, 0, 5), p(0, 0, -1));
    // -ln(e^-1) / 1 = 1: the ray enters at 4 and scatters one further on.
    let e_inverse = 367_879_441;
    let rec = mist.hit_with(&r, forward(), e_inverse).unwrap();
    assert!((rec.t - 5 * ONE).abs() < 100, "t = {}", rec.t);
    assert!(rec.p.e2.abs() < 100 && rec.p.e0 == 0 && rec.p.e1 == 0);
    assert_eq!(rec.mat, 5);
}

#[test]
fn a_long_free_path_passes_through() {
    let mist = fog(ONE, ONE);
    let r = Ray::new(p(0, 0, 5), p(0, 0, -1));
    // -ln(0.1) = 2.30 is more than the way of 2 through the sphere.
    assert!(mist.hit_with(&r, forward(), ONE / 10).is_none());
    // -ln(0.14) = 1.97 is less.
    assert!(mist.hit_with(&r, forward(), 140_000_000).is_some());
    // A sample of zero stands for an endless free path.
    assert!(mist.hit_with(&r, forward(), 0).is_none());
}

#[test]
fn a_ray_that_misses_the_boundary_is_not_scattered() {
    let mist = fog(ONE, 100 * ONE);
    assert!(mist.hit_with(&Ray::new(p(3, 0, 5), p(0, 0, -1)), forward(), ONE / 2).is_none());
    // The boundary lies behind the ray: no way through it is left in the range.
    assert!(mist.hit_with(&Ray::new(p(0, 0, 5), p(0, 0, 1)), forward(), ONE / 2).is_none());
    assert!(mist.hit_with(&Ray::new(p(0, 0, 5), p(0, 0, 1)), forward(), ONE - 1).is_none());
}

#[test]
fn a_ray_that_starts_inside_counts_its_way_from_the_start() {
    let mist = fog(ONE, ONE);
    let r = Ray::new(p(0, 0, 0), p(0, 0, -1));
    // The ray leaves at 1: a free path of 0.5 scatters, one of 1.2 does not.
    let rec = mist.hit_with(&r, forward(), 606_530_660).unwrap();
    assert!((rec.t - ONE / 2).abs() < 100, "t = {}", rec.t);
    assert!(mist.hit_with(&r, forward(), 301_194_212).is_none());
}

#[test]
fn mist_hangs_in_a_list_beside_other_surfaces() {
    let mut world: HittableList<Box<dyn Hittable>> = HittableList::new();
    world.add(Box::new(fog(ONE, 1000 * ONE)));
    world.add(Box::new(Sphere::new(p(0, 0, -10), ONE, 1)));
    let r = Ray::new(p(0, 0, 5), p(0, 0, -1));
    // Mist as thick as this scatters the ray as good as at once.
    for _ in 0..50 {
        let rec = world.hit(&r, forward()).unwrap();
        assert_eq!(rec.mat, 5);
        assert!(rec.t >= 4 * ONE && rec.t < 4 * ONE + ONE / 10);
    }
    // None at all lets the ray through to the sphere behind.
    let mut clear: HittableList<Box<dyn Hittable>> = HittableList::new();
    clear.add(Box::new(fog(ONE, 1)));
    clear.add(Box::new(Sphere::new(p(0, 0, -10), ONE, 1)));
    let mut through = 0;
    for _ in 0..50 {
        if clear.hit(&r, forward()).unwrap().mat == 1 {
            through += 1;
        }
    }
    assert!(through >= 49);
}

#[test]
fn the_scattering_rate_follows_the_way_through_the_mist() {
    let cases = [(ONE, ONE / 2), (ONE, ONE), (2 * ONE, ONE / 4), (ONE / 2, 3 * ONE)];
    for (radius, density) in cases {
        let mist = fog(radius, density);
        let r = Ray::new(Vec3::new(0, 0, 5 * ONE), p(0, 0, -1));
        let trials = 40_000;
        let mut scattered = 0;
        for _ in 0..trials {
            if mist.hit(&r, forward()).is_some() {
                scattered += 1;
            }
        }
        let rate = scattered as f64 / trials as f64;
        let way = 2.0 * radius as f64 / 1e9;
        let want = 1.0 - (-way * density as f64 / 1e9).exp();
        assert!((rate - want).abs() < 0.02, "rate {} against {}", rate, want);
    }
}

#[test]
fn an_empty_way_inside_the_range_gives_no_event() {
    // The ray enters the sphere at 8 and leaves it at 12; the range ends just before 8.
    let mist = fog(ONE, ONE);
    let r = Ray::new(p(0, 0, 5), Vec3::new(0, 0, -ONE / 2));
    let range = Interval::from(0, 8 * ONE - 1);
    for sample in [ONE - 1, ONE - 2, ONE / 2, ONE / 1000, 1, 0] {
        assert!(mist.hit_with(&r, range, sample).is_none(), "sample {}", sample);
    }
    // So does a range that begins where the ray leaves.
    let late = Interval::from(12 * ONE, INFINITY);
    for sample in [ONE - 1, ONE / 2, 1] {
        assert!(mist.hit_with(&r, late, sample).is_none());
    }
    for _ in 0..200 {
        assert!(mist.hit(&r, range).is_none());
    }
}

#[test]
fn an_event_lies_within_the_range_and_the_boundary() {
    let r = Ray::new(p(0, 0, 5), Vec3::new(0, 0, -ONE / 2));
    let ranges = [
        Interval::from(0, INFINITY),
        Interval::from(0, 9 * ONE),
        Interval::from(10 * ONE, INFINITY),
        Interval::from(9 * ONE, 11 * ONE),
        Interval::from(8 * ONE, 8 * ONE + 1),
        Interval::from(12 * ONE - 1, 12 * ONE),
    ];
    for density in [ONE / 10, ONE, 50 * ONE] {
        let mist = fog(ONE, density);
        for range in ranges {
            let mut sample = 0;
            while sample < ONE {
                if let Some(rec) = mist.hit_with(&r, range, sample) {
                    assert!(range.min <= rec.t && rec.t <= range.max, "t = {}", rec.t);
                    assert!(8 * ONE <= rec.t && rec.t <= 12 * ONE, "t = {}", rec.t);
                    assert_eq!(rec.p, r.at(rec.t));
                    assert_eq!(rec.mat, 5);
                }
                sample += 9_999_991;
            }
            for _ in 0..50 {
                if let Some(rec) = mist.hit(&r, range) {
                    assert!(range.min <= rec.t && rec.t <= range.max);
                }
            }
        }
    }
}

#[test]
fn mist_of_negative_density_scatters_nothing() {
    // A free path that would lie before the entry is none.
    let mist = fog(ONE, -ONE);
    let r = Ray::new(p(0, 0, 5), p(0, 0, -1));
    for sample in [ONE / 10, ONE / 2, ONE - 1000] {
        assert!(mist.hit_with(&r, forward(), sample).is_none());
    }
}

#[test]
fn mist_that_was_moved_keeps_its_material_and_the_range() {
    let moved = Translate::new(fog(2 * ONE, 1000 * ONE), p(10, 0, 0));
    let r = Ray::new(p(10, 0, 5), p(0, 0, -1));
    let mut seen = 0;
    for _ in 0..50 {
        if let Some(rec) = moved.hit(&r, Interval::from(3 * ONE, 4 * ONE)) {
            assert_eq!(rec.mat, 5);
            assert!(3 * ONE <= rec.t && rec.t <= 4 * ONE);
            assert_eq!(rec.p, Vec3::new(10 * ONE, 0, 5 * ONE - rec.t));
            seen += 1;
        }
    }
    assert!(seen > 0);
    // In a list, behind a box of the hierarchy, the same holds.
    let mut world: HittableList<Translate<ConstantMedium<Sphere>>> = HittableList::new();
    world.add(Translate::new(fog(2 * ONE, 1000 * ONE), p(10, 0, 0)));
    for _ in 0..20 {
        if let Some(rec) = world.hit(&r, Interval::from(3 * ONE, 4 * ONE)) {
            assert_eq!(rec.mat, 5);
            assert!(3 * ONE <= rec.t && rec.t <= 4 * ONE);
        }
    }
}
