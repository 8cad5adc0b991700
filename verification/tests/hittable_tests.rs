use raytracer::hittable::{HitRecord, Hittable, RotateY, Translate};
use raytracer::hittable_list::HittableList;
use raytracer::interval::Interval;
use raytracer::quad::Quad;
use raytracer::ray::Ray;
use raytracer::scalar::{INFINITY, ONE};
use raytracer::sphere::Sphere;
use raytracer::vec3::{Point, Vec3};

fn p(x: i64, y: i64, z: i64) -> Point {
    Vec3::new(x * ONE, y * ONE, z * ONE)
}

fn forward() -> Interval {
    Interval::from(0, INFINITY)
}

fn near(a: Point, b: Point, tolerance: i64) -> bool {
    (a.e0 - b.e0).abs() <= tolerance
        && (a.e1 - b.e1).abs() <= tolerance
        && (a.e2 - b.e2).abs() <= tolerance
}

#[test]
fn a_ray_at_a_parameter() {
    let r = Ray::with_time(p(1, 2, 3), p(0, -1, 2), 7);
    assert_eq!(r.at(0), p(1, 2, 3));
    assert_eq!(r.at(2 * ONE), p(1, 0, 7));
    assert_eq!(r.at(-ONE / 2), Vec3::new(ONE, 5 * ONE / 2, 2 * ONE));
    assert_eq!(*r.origin(), p(1, 2, 3));
    assert_eq!(*r.direction(), p(0, -1, 2));
    assert_eq!(r.time(), 7);
    assert_eq!(Ray::new(p(1, 2, 3), p(0, -1, 2)).time(), 0);
}

#[test]
fn the_normal_is_turned_against_the_ray() {
    let r = Ray::new(p(0, 0, 5), p(0, 0, -1));
    let front = HitRecord::new(&r, ONE, p(0, 0, 4), p(0, 0, 1), 2, (3, 4));
    assert!(front.front_face);
    assert_eq!(front.normal, p(0, 0, 1));
    assert_eq!((front.t, front.p, front.mat, front.u, front.v), (ONE, p(0, 0, 4), 2, 3, 4));
    let back = HitRecord::new(&r, ONE, p(0, 0, 4), p(0, 0, -1), 2, (3, 4));
    assert!(!back.front_face);
    assert_eq!(back.normal, p(0, 0, 1));
    let grazing = HitRecord::new(&r, ONE, p(0, 0, 4), p(1, 0, 0), 2, (3, 4));
    assert!(!grazing.front_face);
    assert_eq!(grazing.normal, p(-1, 0, 0));
}

#[test]
fn a_moved_sphere_is_hit_where_it_has_moved_to() {
    let moved = Translate::new(Sphere::new(p(0, 0, 0), ONE, 0), p(10, 0, 0));
    let rec = moved.hit(&Ray::new(p(10, 0, 5), p(0, 0, -1)), forward()).unwrap();
    assert_eq!(rec.t, 4 * ONE);
    assert_eq!(rec.p, p(10, 0, 1));
    assert_eq!(rec.normal, p(0, 0, 1));
    assert!(moved.hit(&Ray::new(p(0, 0, 5), p(0, 0, -1)), forward()).is_none());
    assert_eq!(moved.bounding_box().e0, Interval::from(9 * ONE, 11 * ONE));
}

#[test]
fn translate_round_trip() {
    let offsets = [p(1, 2, 3), p(-7, 0, 2), Vec3::new(123_456_789, -5, 17 * ONE)];
    let rays = [
        Ray::new(p(0, 0, 5), p(0, 0, -1)),
        Ray::new(p(3, 3, 3), p(-1, -1, -1)),
        Ray::new(Vec3::new(ONE / 2, 0, -4 * ONE), Vec3::new(0, ONE / 10, ONE)),
        Ray::new(p(5, 5, 5), p(0, 1, 0)),
    ];
    for v in offsets {
        let inner = Sphere::new(p(0, 0, 0), ONE, 0);
        let outer = Translate::new(Sphere::new(p(0, 0, 0), ONE, 0), v);
        for r in rays {
            let back = Ray::with_time(r.orig.minus(&v), r.dir, r.tm);
            let want = inner.hit(&back, forward());
            let got = outer.hit(&r, forward());
            assert_eq!(got.is_some(), want.is_some());
            if let (Some(got), Some(want)) = (got, want) {
                assert_eq!(got.p, want.p.plus(&v));
                assert_eq!(got.t, want.t);
                assert_eq!(got.normal, want.normal);
            }
        }
    }
}

#[test]
fn a_quarter_turn_brings_a_sphere_round() {
    // A sphere at (2, 0, 0), turned by 90 degrees about the second axis, comes to (0, 0, -2).
    let turned = RotateY::new(Sphere::new(p(2, 0, 0), ONE, 0), 90 * ONE);
    let rec = turned.hit(&Ray::new(p(0, 0, 5), p(0, 0, -1)), forward()).unwrap();
    assert!((rec.t - 6 * ONE).abs() < 100, "t = {}", rec.t);
    assert!(near(rec.p, p(0, 0, -1), 100));
    assert!(near(rec.normal, p(0, 0, 1), 100));
    assert!(turned.hit(&Ray::new(p(2, 0, 5), p(0, 0, -1)), forward()).is_none());
}

#[test]
fn rotation_round_trip() {
    let angles = [30 * ONE, -45 * ONE, 77 * ONE, 180 * ONE, 3 * ONE / 2];
    let rays = [
        Ray::new(p(0, 0, 5), p(0, 0, -1)),
        Ray::new(p(3, 3, 3), p(-1, -1, -1)),
        Ray::new(Vec3::new(ONE / 2, ONE / 4, -4 * ONE), Vec3::new(0, ONE / 10, ONE)),
    ];
    for angle in angles {
        for axis in 0..3 {
            let plain = Sphere::new(Vec3::new(ONE / 4, 0, ONE / 8), ONE, 0);
            let there = RotateY::about(Sphere::new(Vec3::new(ONE / 4, 0, ONE / 8), ONE, 0), axis, angle);
            let back = RotateY::about(there, axis, -angle);
            for r in rays {
                let want = plain.hit(&r, forward()).unwrap();
                let got = back.hit(&r, forward()).unwrap();
                assert!(near(got.p, want.p, 200), "{:?} against {:?}", got.p, want.p);
                assert!((got.t - want.t).abs() <= 200);
            }
        }
    }
}

#[test]
fn quarter_turns_there_and_back_change_nothing() {
    let turns = [(0, ONE), (0, -ONE), (ONE, 0), (-ONE, 0)];
    let rays = [
        Ray::new(p(0, 0, 5), p(0, 0, -1)),
        Ray::new(p(3, 3, 3), p(-1, -1, -1)),
        Ray::new(Vec3::new(ONE / 2, ONE / 4, -4 * ONE), Vec3::new(0, ONE / 10, ONE)),
        Ray::new(p(9, 0, 0), p(0, 1, 0)),
    ];
    for (sin_theta, cos_theta) in turns {
        for axis in 0..3 {
            let ball = || Sphere::new(Vec3::new(ONE / 4, 0, ONE / 8), ONE, 0);
            let plain = ball();
            let bbox = *plain.bounding_box();
            let there = RotateY { object: ball(), axis, sin_theta, cos_theta, bbox };
            let back = RotateY { object: there, axis, sin_theta: -sin_theta, cos_theta, bbox };
            for r in rays {
                assert_eq!(back.hit(&r, forward()), plain.hit(&r, forward()));
            }
        }
    }
}

#[test]
fn a_turn_about_each_axis() {
    let ball = || Sphere::new(p(2, 0, 0), ONE, 0);
    // About the first axis the sphere stays where it is.
    let about_x = RotateY::about(ball(), 0, 90 * ONE);
    assert!(about_x.hit(&Ray::new(p(2, 0, 5), p(0, 0, -1)), forward()).is_some());
    // About the third axis it comes to (0, 2, 0).
    let about_z = RotateY::about(ball(), 2, 90 * ONE);
    assert!(about_z.hit(&Ray::new(p(0, 2, 5), p(0, 0, -1)), forward()).is_some());
    assert!(about_z.hit(&Ray::new(p(2, 0, 5), p(0, 0, -1)), forward()).is_none());
}

#[test]
fn a_list_reports_the_nearest_hit() {
    let mut world = HittableList::new();
    assert!(world.hit(&Ray::new(p(0, 0, 5), p(0, 0, -1)), forward()).is_none());
    world.add(Sphere::new(p(0, 0, -10), ONE, 1));
    world.add(Sphere::new(p(0, 0, 0), ONE, 2));
    world.add(Sphere::new(p(0, 0, -5), ONE, 3));
    let rec = world.hit(&Ray::new(p(0, 0, 5), p(0, 0, -1)), forward()).unwrap();
    assert_eq!(rec.t, 4 * ONE);
    assert_eq!(rec.mat, 2);
    let rec = world.hit(&Ray::new(p(0, 0, 5), p(0, 0, -1)), Interval::from(7 * ONE, INFINITY)).unwrap();
    assert_eq!(rec.t, 9 * ONE);
    assert_eq!(rec.mat, 3);
    assert_eq!(world.objects.len(), 3);
}

#[test]
fn the_box_of_a_list_grows_with_each_surface() {
    let mut world = HittableList::default();
    world.add(Sphere::new(p(0, 0, 0), ONE, 0));
    assert_eq!(world.bounding_box().e0, Interval::from(-ONE, ONE));
    world.add(Sphere::new(p(5, 0, 0), 2 * ONE, 0));
    assert_eq!(world.bounding_box().e0, Interval::from(-ONE, 7 * ONE));
    assert_eq!(world.bounding_box().e1, Interval::from(-2 * ONE, 2 * ONE));
}

#[test]
fn boxed_surfaces_of_many_kinds_share_a_list() {
    let mut world: HittableList<Box<dyn Hittable>> = HittableList::new();
    world.add(Box::new(Sphere::new(p(0, 0, 0), ONE, 1)));
    world.add(Box::new(Quad::new(p(-1, -1, 3), p(2, 0, 0), p(0, 2, 0), 2)));
    world.add(Box::new(Translate::new(Sphere::new(p(0, 0, 0), ONE, 3), p(0, 0, 4))));
    let rec = world.hit(&Ray::new(p(0, 0, 10), p(0, 0, -1)), forward()).unwrap();
    assert_eq!(rec.t, 5 * ONE);
    assert_eq!(rec.mat, 3);
    let rec = world.hit(&Ray::new(p(0, 0, 10), p(0, 0, -1)), Interval::from(6 * ONE, INFINITY)).unwrap();
    assert_eq!(rec.t, 7 * ONE);
    assert_eq!(rec.mat, 2);
}

fn flat_reference(q: [f64; 3], u: [f64; 3], v: [f64; 3], o: [f64; 3], d: [f64; 3]) -> Option<f64> {
    let cross = |a: [f64; 3], b: [f64; 3]| {
        [a[1] * b[2] - a[2] * b[1], a[2] * b[0] - a[0] * b[2], a[0] * b[1] - a[1] * b[0]]
    };
    let dot = |a: [f64; 3], b: [f64; 3]| a[0] * b[0] + a[1] * b[1] + a[2] * b[2];
    let n = cross(u, v);
    let denom = dot(n, d);
    if denom.abs() < 1e-8 {
        return None;
    }
    let t = (dot(n, q) - dot(n, o)) / denom;
    if t < 0.001 {
        return None;
    }
    let at = [o[0] + t * d[0] - q[0], o[1] + t * d[1] - q[1], o[2] + t * d[2] - q[2]];
    let alpha = dot(n, cross(at, v)) / dot(n, n);
    let beta = dot(n, cross(u, at)) / dot(n, n);
    if (0.0..=1.0).contains(&alpha) && (0.0..=1.0).contains(&beta) {
        Some(t)
    } else {
        None
    }
}

#[test]
fn a_room_of_five_hundred_and_fifty_five_is_seen_from_its_camera() {
    let walls: [([i64; 3], [i64; 3], [i64; 3]); 6] = [
        ([555, 0, 0], [0, 555, 0], [0, 0, 555]),
        ([0, 0, 0], [0, 555, 0], [0, 0, 555]),
        ([343, 554, 332], [-130, 0, 0], [0, 0, -105]),
        ([0, 0, 0], [555, 0, 0], [0, 0, 555]),
        ([555, 555, 555], [-555, 0, 0], [0, 0, -555]),
        ([0, 0, 555], [555, 0, 0], [0, 555, 0]),
    ];
    let mut world: HittableList<Quad> = HittableList::new();
    for (k, (q, u, v)) in walls.iter().enumerate() {
        world.add(Quad::new(p(q[0], q[1], q[2]), p(u[0], u[1], u[2]), p(v[0], v[1], v[2]), k));
    }
    let float = |a: [i64; 3]| [a[0] as f64, a[1] as f64, a[2] as f64];
    let mut seen = [0usize; 6];
    for i in -8i64..=8 {
        for j in -8i64..=8 {
            let dir = [i * 40 + 3, j * 40 - 7, 1000];
            let r = Ray::new(p(278, 278, -800), p(dir[0], dir[1], dir[2]));
            let got = world.hit(&r, Interval::from(ONE / 1000, INFINITY));
            let mut want: Option<(f64, usize)> = None;
            for (k, (q, u, v)) in walls.iter().enumerate() {
                if let Some(t) = flat_reference(float(*q), float(*u), float(*v), [278.0, 278.0, -800.0], float(dir)) {
                    if want.map_or(true, |(best, _)| t < best) {
                        want = Some((t, k));
                    }
                }
            }
            let (t, k) = want.expect("every ray into the room meets a wall");
            let rec = got.expect("the room is closed");
            assert!((rec.t as f64 / 1e9 - t).abs() < 1e-6, "t = {} against {}", rec.t, t);
            assert_eq!(rec.mat, k);
            seen[k] += 1;
        }
    }
    // Every wall is seen, and a ray at the lamp under the ceiling meets the lamp.
    assert!(seen.iter().enumerate().all(|(k, n)| k == 2 || *n > 0), "{:?}", seen);
    let r = Ray::new(p(278, 278, -800), p(0, 276, 1080));
    let rec = world.hit(&r, Interval::from(ONE / 1000, INFINITY)).unwrap();
    assert_eq!(rec.mat, 2);
    assert_eq!(rec.t, ONE);
    assert_eq!(rec.p, p(278, 554, 280));
}

#[test]
fn a_turned_and_moved_box_in_a_room() {
    // The tall box of the room: 165 by 330 by 165, turned by 15 degrees and moved.
    let mut sides: HittableList<Quad> = HittableList::new();
    for side in Quad::new_box(&p(0, 0, 0), &p(165, 330, 165), 7) {
        sides.add(side);
    }
    let tall = Translate::new(RotateY::new(sides, 15 * ONE), p(265, 0, 295));
    // Straight down onto the middle of its top.
    let (sin, cos) = (15.0f64.to_radians().sin(), 15.0f64.to_radians().cos());
    let middle = [cos * 82.5 + sin * 82.5 + 265.0, -sin * 82.5 + cos * 82.5 + 295.0];
    let orig = Vec3::new((middle[0] * 1e9) as i64, 500 * ONE, (middle[1] * 1e9) as i64);
    let rec = tall.hit(&Ray::new(orig, p(0, -1, 0)), forward()).unwrap();
    assert!((rec.t - 170 * ONE).abs() <= 100, "t = {}", rec.t);
    assert!((rec.p.e1 - 330 * ONE).abs() <= 100);
    assert_eq!(rec.mat, 7);
    assert!(rec.front_face);
    // From the camera of the room towards its middle: the front of the box.
    let r = Ray::new(p(278, 278, -800), Vec3::new((middle[0] * 1e9) as i64 - 278 * ONE, -100 * ONE, (middle[1] * 1e9) as i64 + 800 * ONE));
    let rec = tall.hit(&r, Interval::from(ONE / 1000, INFINITY)).unwrap();
    // The point lies on a side of the box: turned back, one coordinate is on a face.
    let local = [rec.p.e0 as f64 / 1e9 - 265.0, rec.p.e1 as f64 / 1e9, rec.p.e2 as f64 / 1e9 - 295.0];
    let back = [cos * local[0] - sin * local[2], local[1], sin * local[0] + cos * local[2]];
    let on_face = |x: f64, top: f64| x.abs() < 1e-5 || (x - top).abs() < 1e-5;
    assert!(on_face(back[0], 165.0) || on_face(back[1], 330.0) || on_face(back[2], 165.0), "{:?}", back);
    assert!((-1e-5..=165.00001).contains(&back[0]) && (-1e-5..=330.00001).contains(&back[1]) && (-1e-5..=165.00001).contains(&back[2]));
    // Beside the box the ray passes.
    assert!(tall.hit(&Ray::new(p(100, 500, 100), p(0, -1, 0)), forward()).is_none());
}
