use raytracer::hittable::Hittable;
use raytracer::interval::Interval;
use raytracer::quad::{Quad, Shape2D};
use raytracer::ray::Ray;
use raytracer::scalar::{INFINITY, ONE};
use raytracer::vec3::{Point, Vec3};

fn p(x: i64, y: i64, z: i64) -> Point {
    Vec3::new(x * ONE, y * ONE, z * ONE)
}

fn forward() -> Interval {
    Interval::from(0, INFINITY)
}

fn down_at(x: i64, y: i64) -> Ray {
    Ray::new(Vec3::new(x, y, 5 * ONE), p(0, 0, -1))
}

fn shape(s: Shape2D) -> Quad {
    Quad::with_shape(p(0, 0, 0), p(2, 0, 0), p(0, 2, 0), 4, s)
}

#[test]
fn a_parallelogram_is_hit_inside_its_edges() {
    let q = Quad::new(p(0, 0, 0), p(2, 0, 0), p(0, 2, 0), 4);
    let rec = q.hit(&down_at(ONE / 2, 3 * ONE / 2), forward()).unwrap();
    assert_eq!(rec.t, 5 * ONE);
    assert_eq!(rec.p, Vec3::new(ONE / 2, 3 * ONE / 2, 0));
    assert_eq!(rec.normal, p(0, 0, 1));
    assert!(rec.front_face);
    assert_eq!(rec.mat, 4);
    assert_eq!((rec.u, rec.v), (ONE / 4, 3 * ONE / 4));
    assert!(q.hit(&down_at(5 * ONE / 2, ONE), forward()).is_none());
    assert!(q.hit(&down_at(ONE, -ONE / 2), forward()).is_none());
}

#[test]
fn the_edges_of_a_parallelogram_belong_to_it() {
    let q = Quad::new(p(0, 0, 0), p(2, 0, 0), p(0, 2, 0), 4);
    assert!(q.hit(&down_at(0, 0), forward()).is_some());
    assert!(q.hit(&down_at(2 * ONE, 2 * ONE), forward()).is_some());
}

#[test]
fn the_ends_of_the_range_belong_to_it() {
    let q = Quad::new(p(0, 0, 0), p(2, 0, 0), p(0, 2, 0), 4);
    let r = down_at(ONE, ONE);
    assert!(q.hit(&r, Interval::from(0, 5 * ONE)).is_some());
    assert!(q.hit(&r, Interval::from(5 * ONE, INFINITY)).is_some());
    assert!(q.hit(&r, Interval::from(0, 5 * ONE - 1)).is_none());
    assert!(q.hit(&r, Interval::from(5 * ONE + 1, INFINITY)).is_none());
}

#[test]
fn a_ray_along_the_plane_misses() {
    let q = Quad::new(p(0, 0, 0), p(2, 0, 0), p(0, 2, 0), 4);
    assert!(q.hit(&Ray::new(p(-5, 1, 0), p(1, 0, 0)), forward()).is_none());
    assert!(q.hit(&Ray::new(p(-5, 1, 1), p(1, 0, 0)), forward()).is_none());
}

#[test]
fn a_hit_from_behind_turns_the_normal() {
    let q = Quad::new(p(0, 0, 0), p(2, 0, 0), p(0, 2, 0), 4);
    let rec = q.hit(&Ray::new(p(1, 1, -3), p(0, 0, 1)), forward()).unwrap();
    assert_eq!(rec.t, 3 * ONE);
    assert!(!rec.front_face);
    assert_eq!(rec.normal, p(0, 0, -1));
}

#[test]
fn a_triangle_is_half_a_parallelogram() {
    let t = shape(Shape2D::Triangle);
    assert!(t.hit(&down_at(ONE / 2, ONE / 2), forward()).is_some());
    assert!(t.hit(&down_at(3 * ONE / 2, 3 * ONE / 2), forward()).is_none());
    // Its edges do not belong to it.
    assert!(t.hit(&down_at(0, ONE), forward()).is_none());
    assert!(t.hit(&down_at(ONE, ONE), forward()).is_none());
    // The box round the edge along the second axis is padded before the boxes are joined.
    assert_eq!(t.bounding_box().e0, Interval::from(-50_000, 2 * ONE));
    assert_eq!(t.bounding_box().e1, Interval::from(0, 2 * ONE));
}

#[test]
fn a_disc_lies_round_the_corner_point() {
    let c = shape(Shape2D::Circle);
    let rec = c.hit(&down_at(ONE, 0), forward()).unwrap();
    assert_eq!((rec.u, rec.v), (3 * ONE / 4, ONE / 2));
    assert!(c.hit(&down_at(-ONE, -ONE), forward()).is_some());
    assert!(c.hit(&down_at(3 * ONE / 2, 3 * ONE / 2), forward()).is_none());
    assert!(c.hit(&down_at(2 * ONE, 0), forward()).is_none());
    assert_eq!(c.bounding_box().e0, Interval::from(-2 * ONE, 2 * ONE));
    assert_eq!(c.bounding_box().e1, Interval::from(-2 * ONE, 2 * ONE));
    let e = shape(Shape2D::Ellipse);
    assert!(e.hit(&down_at(ONE, 0), forward()).is_some());
    assert!(e.hit(&down_at(2 * ONE, 0), forward()).is_none());
}

#[test]
fn a_ring_has_a_hole() {
    let ring = shape(Shape2D::Annulus { inner: ONE / 2 });
    assert!(ring.hit(&down_at(0, 0), forward()).is_none());
    assert!(ring.hit(&down_at(ONE / 2, 0), forward()).is_none());
    assert!(ring.hit(&down_at(ONE, 0), forward()).is_none());
    assert!(ring.hit(&down_at(3 * ONE / 2, 0), forward()).is_some());
    assert!(ring.hit(&down_at(2 * ONE, 0), forward()).is_none());
}

#[test]
fn shapes_test_the_plane_coordinates() {
    let half = ONE / 2;
    assert_eq!(Shape2D::Parallelogram.interior(half, ONE), Some((half, ONE)));
    assert_eq!(Shape2D::Parallelogram.interior(half, ONE + 1), None);
    assert_eq!(Shape2D::Triangle.interior(half, half - 1), Some((half, half - 1)));
    assert_eq!(Shape2D::Triangle.interior(half, half), None);
    assert_eq!(Shape2D::Circle.interior(half, 0), Some((3 * ONE / 4, half)));
    assert_eq!(Shape2D::Circle.interior(ONE, 0), None);
    assert_eq!(Shape2D::Annulus { inner: half }.interior(half, 0), None);
    assert_eq!(Shape2D::Annulus { inner: half }.interior(0, -3 * ONE / 4), Some((half, ONE / 8)));
}

#[test]
fn a_box_has_six_sides() {
    let sides = Quad::new_box(&p(1, 2, 3), &p(0, 0, 0), 9);
    assert_eq!(sides.len(), 6);
    let corners = [p(0, 0, 3), p(1, 0, 3), p(1, 0, 0), p(0, 0, 0), p(0, 2, 3), p(0, 0, 0)];
    let first = [p(1, 0, 0), p(0, 0, -3), p(-1, 0, 0), p(0, 0, 3), p(1, 0, 0), p(1, 0, 0)];
    let second = [p(0, 2, 0), p(0, 2, 0), p(0, 2, 0), p(0, 2, 0), p(0, 0, -3), p(0, 0, 3)];
    for k in 0..6 {
        assert_eq!(sides[k].q, corners[k]);
        assert_eq!(sides[k].u, first[k]);
        assert_eq!(sides[k].v, second[k]);
        assert_eq!(sides[k].mat, 9);
        assert_eq!(sides[k].shape, Shape2D::Parallelogram);
    }
}

#[test]
fn a_ray_into_a_box_meets_the_side_it_faces() {
    let sides = Quad::new_box(&p(-1, -1, -1), &p(1, 1, 1), 0);
    let r = Ray::new(p(0, 0, 5), p(0, 0, -1));
    let hits: Vec<i64> = sides.iter().filter_map(|s| s.hit(&r, forward())).map(|rec| rec.t).collect();
    assert_eq!(hits, vec![4 * ONE, 6 * ONE]);
}

#[test]
fn what_a_flat_shape_works_out_once() {
    let q = Quad::new(p(0, 0, 3), p(2, 0, 0), p(0, 4, 0), 1);
    assert_eq!(q.normal, p(0, 0, 1));
    assert_eq!(q.d, 3 * ONE);
    // u x v = (0, 0, 8).
    assert_eq!(q.area, 8 * ONE);
    assert_eq!(q.bounding_box().e2, Interval::from(3 * ONE - 50_000, 3 * ONE + 50_000));
}

#[test]
fn a_ray_in_the_plane_of_the_far_box_face_hits_the_edge_and_misses_the_box() {
    let q = Quad::new(p(0, 0, 0), p(2, 0, 0), p(0, 2, 0), 4);
    let r = down_at(2 * ONE, ONE);
    assert!(q.hit(&r, forward()).is_some());
    assert!(!q.bounding_box().hit(&r, forward()));
    let inside = down_at(2 * ONE - 1000, ONE);
    assert!(q.hit(&inside, forward()).is_some());
    assert!(q.bounding_box().hit(&inside, forward()));
}

#[test]
fn a_wall_of_a_room_is_hit_in_its_middle() {
    let wall = Quad::new(p(0, 0, 0), p(555, 0, 0), p(0, 555, 0), 1);
    assert_eq!(wall.normal, p(0, 0, 1));
    assert_eq!(wall.area, 308_025 * ONE);
    assert_eq!(wall.d, 0);
    let rec = wall.hit(&Ray::new(p(277, 277, 5), p(0, 0, -1)), forward()).unwrap();
    assert_eq!(rec.t, 5 * ONE);
    assert_eq!(rec.p, p(277, 277, 0));
    let near = |got: i64, want: f64| (got as f64 / 1e9 - want).abs() < 1e-8;
    assert!(near(rec.u, 277.0 / 555.0) && near(rec.v, 277.0 / 555.0));
    assert!(wall.hit(&Ray::new(p(556, 277, 5), p(0, 0, -1)), forward()).is_none());
    assert!(wall.hit(&Ray::new(p(554, 554, 5), p(0, 0, -1)), forward()).is_some());
}

#[test]
fn a_wall_seen_along_a_long_slanted_ray() {
    // The back wall of a room, seen from the camera of the room along a ray of length 1000.
    let back = Quad::new(p(555, 0, 555), p(-555, 0, 0), p(0, 555, 0), 1);
    let r = Ray::new(p(278, 278, -760), p(100, -120, 987));
    let rec = back.hit(&r, Interval::from(ONE / 1000, INFINITY)).unwrap();
    let t = 1315.0 / 987.0;
    let near = |got: i64, want: f64| (got as f64 / 1e9 - want).abs() < 1e-6;
    assert!(near(rec.t, t), "t = {}", rec.t);
    assert!(near(rec.p.e0, 278.0 + 100.0 * t) && near(rec.p.e1, 278.0 - 120.0 * t));
    assert!(near(rec.p.e2, 555.0));
    assert!(near(rec.u, (555.0 - 278.0 - 100.0 * t) / 555.0), "u = {}", rec.u);
    assert!(near(rec.v, (278.0 - 120.0 * t) / 555.0), "v = {}", rec.v);
    assert_eq!(rec.normal, p(0, 0, -1));
}

#[test]
fn a_backdrop_of_five_hundred_is_hit() {
    let backdrop = Quad::new(p(0, 0, -500), p(500, 0, 0), p(0, 500, 0), 1);
    assert_eq!(backdrop.normal, p(0, 0, 1));
    let r = Ray::new(p(400, 278, 760), p(-150, -28, -1260));
    let rec = backdrop.hit(&r, Interval::from(ONE / 1000, INFINITY)).unwrap();
    assert_eq!(rec.t, ONE);
    assert_eq!(rec.p, p(250, 250, -500));
    assert_eq!((rec.u, rec.v), (ONE / 2, ONE / 2));
}

#[test]
fn a_slanted_wall_at_the_scale_of_a_room() {
    // A wall through (0,0,0), (300,0,400) and (0,500,0): its normal is (-0.8, 0, 0.6).
    let wall = Quad::new(p(0, 0, 0), p(300, 0, 400), p(0, 500, 0), 1);
    assert_eq!(wall.area, 250_000 * ONE);
    assert_eq!(wall.normal, Vec3::new(-800_000_000, 0, 600_000_000));
    // A ray against the normal into the middle of the wall, (150, 250, 200).
    let r = Ray::new(Vec3::new(-650 * ONE, 250 * ONE, 800 * ONE), p(800, 0, -600));
    let rec = wall.hit(&r, forward()).unwrap();
    let near = |got: i64, want: f64| (got as f64 / 1e9 - want).abs() < 1e-6;
    assert!(near(rec.t, 1.0), "t = {}", rec.t);
    assert!(near(rec.u, 0.5) && near(rec.v, 0.5), "u, v = {}, {}", rec.u, rec.v);
    let sides = Quad::new_box(&p(0, 0, 0), &p(165, 330, 165), 0);
    let from_above = Ray::new(p(80, 1000, 80), p(0, -670, 0));
    let hits: Vec<i64> = sides.iter().filter_map(|s| s.hit(&from_above, forward())).map(|rec| rec.t).collect();
    assert_eq!(hits, vec![ONE, 1_492_537_313]);
}

#[test]
fn a_wall_is_hit_in_its_very_middle() {
    // The six walls of a room of 555, each met straight on over its middle.
    let walls = [
        (Quad::new(p(555, 0, 0), p(0, 555, 0), p(0, 0, 555), 1), p(100, 555 / 2, 555 / 2), p(1, 0, 0)),
        (Quad::new(p(0, 0, 0), p(0, 555, 0), p(0, 0, 555), 1), p(100, 555 / 2, 555 / 2), p(-1, 0, 0)),
        (Quad::new(p(0, 0, 0), p(555, 0, 0), p(0, 0, 555), 1), p(555 / 2, 100, 555 / 2), p(0, -2, 0)),
        (Quad::new(p(555, 555, 555), p(-555, 0, 0), p(0, 0, -555), 1), p(555 / 2, 100, 555 / 2), p(0, 7, 0)),
        (Quad::new(p(0, 0, 555), p(555, 0, 0), p(0, 555, 0), 1), p(555 / 2, 555 / 2, 100), p(0, 0, 1)),
        (Quad::new(p(0, 0, 0), p(0, 555, 0), p(555, 0, 0), 1), p(555 / 2, 555 / 2, 100), p(0, 0, -1)),
    ];
    for (wall, from, dir) in walls.iter() {
        let mut orig = *from;
        // The start lies over q + u/2 + v/2, whichever way the edges run.
        let mid = wall.q.plus(&wall.u.divided(2 * ONE)).plus(&wall.v.divided(2 * ONE));
        if dir.e0 != 0 {
            orig = Vec3::new(from.e0, mid.e1, mid.e2);
        } else if dir.e1 != 0 {
            orig = Vec3::new(mid.e0, from.e1, mid.e2);
        } else {
            orig = Vec3::new(mid.e0, mid.e1, from.e2);
        }
        let rec = wall.hit(&Ray::new(orig, *dir), forward()).unwrap();
        assert_eq!(rec.u, ONE / 2);
        assert_eq!(rec.v, ONE / 2);
        assert_eq!(rec.p, mid);
        assert_eq!(wall.area, 308_025 * ONE);
    }
    // A wall at the edge of the range of a scene.
    let wall = Quad::new(p(-15_000, -15_000, 15_000), p(15_000, 0, 0), p(0, 15_000, 0), 1);
    let rec = wall.hit(&Ray::new(p(-7_500, -7_500, -15_000), p(0, 0, 3)), forward()).unwrap();
    assert_eq!(rec.t, 10_000 * ONE);
    assert_eq!((rec.u, rec.v), (ONE / 2, ONE / 2));
}

#[test]
fn a_ray_along_the_normal_through_the_middle_hits_however_the_shape_is_turned() {
    let shapes = [
        (p(100, 50, 200), p(300, 400, 0), p(0, -100, 500)),
        (p(555, 0, 0), p(-555, 10, 3), p(1, 555, -555)),
        (p(-7000, 9000, 14_000), p(15_000, -15_000, 15_000), p(-15_000, 15_000, 15_000)),
        // A shape of the area 0.0025 and a bit: the least is 0.0011.
        (Vec3::new(17, -3, 5), Vec3::new(40_000_000, 30_000_000, 0), Vec3::new(0, 30_000_000, 40_000_000)),
        (p(0, 0, 0), p(1, 1, 1), p(-1, 1, 0)),
    ];
    for (q, u, v) in shapes.iter() {
        let quad = Quad::new(*q, *u, *v, 2);
        let middle = q.plus(&u.divided(2 * ONE)).plus(&v.divided(2 * ONE));
        for back in [0, ONE / 3, 250 * ONE, -40 * ONE] {
            let orig = middle.minus(&quad.normal.scaled(back));
            let r = Ray::new(orig, quad.normal);
            let rec = quad.hit(&r, Interval::from(-INFINITY, INFINITY)).unwrap();
            assert!((rec.t - back).abs() <= 20_000, "t = {} for {}", rec.t, back);
            assert!((rec.u - ONE / 2).abs() <= ONE / 100 && (rec.v - ONE / 2).abs() <= ONE / 100, "{} {}", rec.u, rec.v);
            assert!(0 <= rec.u && rec.u <= ONE && 0 <= rec.v && rec.v <= ONE);
        }
    }
}
