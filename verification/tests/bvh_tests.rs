use raytracer::bvh::{box_key, sort_by_box_min, BVHNode, BvhChild};
use raytracer::constant_medium::ConstantMedium;
use raytracer::hittable::Hittable;
use raytracer::hittable_list::HittableList;
use raytracer::interval::Interval;
use raytracer::quad::Quad;
use raytracer::ray::Ray;
use raytracer::scalar::{INFINITY, ONE};
use raytracer::sphere::Sphere;
use raytracer::vec3::{Point, Vec3};

fn p(x: i64, y: i64, z: i64) -> Point {
    Vec3::new(x * ONE, y * ONE, z * ONE)
}

fn forward() -> Interval {
    Interval::from(0, INFINITY)
}

/// A small generator of numbers, so that a battery is the same at every run.
fn next(state: &mut u64) -> i64 {
    *state = state.wrapping_mul(6364136223846793005).wrapping_add(1442695040888963407);
    ((*state >> 33) % 2_000_001) as i64 - 1_000_000
}

fn spheres(seed: u64, n: usize) -> Vec<Sphere> {
    let mut state = seed;
    let mut out = Vec::new();
    for k in 0..n {
        let c = Vec3::new(
            next(&mut state) * 10_000,
            next(&mut state) * 10_000,
            next(&mut state) * 10_000,
        );
        let radius = (next(&mut state).abs() + 100_000) * 1_000;
        out.push(Sphere::new(c, radius, k));
    }
    out
}

fn mat_of(child: &BvhChild<Sphere>) -> usize {
    match child {
        BvhChild::Object(s) => s.mat,
        BvhChild::Tree(_) => usize::MAX,
    }
}

#[test]
fn one_surface_hangs_alone() {
    let node = BVHNode::new(vec![Sphere::new(p(0, 0, 0), ONE, 7)]);
    assert_eq!(mat_of(&node.left), 7);
    assert!(node.right.is_none());
    assert_eq!(node.bounding_box().e0, Interval::from(-ONE, ONE));
    let rec = node.hit(&Ray::new(p(0, 0, 5), p(0, 0, -1)), forward()).unwrap();
    assert_eq!(rec.t, 4 * ONE);
    assert!(node.hit(&Ray::new(p(3, 0, 5), p(0, 0, -1)), forward()).is_none());
}

#[test]
fn two_surfaces_hang_as_they_came() {
    let node = BVHNode::new(vec![Sphere::new(p(5, 0, 0), ONE, 1), Sphere::new(p(-5, 0, 0), ONE, 2)]);
    assert_eq!(mat_of(&node.left), 1);
    assert_eq!(mat_of(node.right.as_ref().unwrap()), 2);
    assert_eq!(node.bounding_box().e0, Interval::from(-6 * ONE, 6 * ONE));
}

#[test]
fn more_surfaces_are_sorted_along_the_longest_axis_and_halved() {
    let node = BVHNode::new(vec![
        Sphere::new(p(0, 9, 0), ONE, 0),
        Sphere::new(p(0, -9, 0), ONE, 1),
        Sphere::new(p(0, 3, 0), ONE, 2),
        Sphere::new(p(0, -3, 0), ONE, 3),
        Sphere::new(p(0, 0, 0), ONE, 4),
    ]);
    assert_eq!(node.bounding_box().e1, Interval::from(-10 * ONE, 10 * ONE));
    // Sorted along the second axis: 1, 3, 4, 2, 0; the left half holds two.
    let (left, right) = match (&node.left, node.right.as_ref().unwrap()) {
        (BvhChild::Tree(l), BvhChild::Tree(r)) => (l, r),
        _ => panic!("a node over five surfaces has two nodes below"),
    };
    assert_eq!(mat_of(&left.left), 1);
    assert_eq!(mat_of(left.right.as_ref().unwrap()), 3);
    assert_eq!(left.bounding_box().e1, Interval::from(-10 * ONE, -2 * ONE));
    assert_eq!(right.bounding_box().e1, Interval::from(-ONE, 10 * ONE));
    // The right half holds three: one to the left, two to the right.
    let (single, pair) = match (&right.left, right.right.as_ref().unwrap()) {
        (BvhChild::Tree(l), BvhChild::Tree(r)) => (l, r),
        _ => panic!("a node over three surfaces has two nodes below"),
    };
    assert_eq!(mat_of(&single.left), 4);
    assert!(single.right.is_none());
    assert_eq!(mat_of(&pair.left), 2);
    assert_eq!(mat_of(pair.right.as_ref().unwrap()), 0);
}

#[test]
fn sorting_keeps_the_order_of_equal_keys() {
    let sorted = sort_by_box_min(
        vec![
            Sphere::new(p(3, 0, 0), ONE, 0),
            Sphere::new(p(1, 5, 0), ONE, 1),
            Sphere::new(p(3, 9, 0), ONE, 2),
            Sphere::new(p(1, 7, 0), ONE, 3),
            Sphere::new(p(-2, 0, 0), ONE, 4),
            Sphere::new(p(1, 1, 0), ONE, 5),
        ],
        0,
    );
    let order: Vec<usize> = sorted.iter().map(|s| s.mat).collect();
    assert_eq!(order, vec![4, 1, 3, 5, 0, 2]);
    assert_eq!(box_key(&sorted[0], 0), -3 * ONE);
    assert_eq!(box_key(&sorted[0], 1), -ONE);
}

#[test]
fn sorting_a_long_run() {
    let sorted = sort_by_box_min(spheres(11, 500), 2);
    assert_eq!(sorted.len(), 500);
    for k in 1..sorted.len() {
        assert!(box_key(&sorted[k - 1], 2) <= box_key(&sorted[k], 2));
    }
    let mut seen: Vec<usize> = sorted.iter().map(|s| s.mat).collect();
    seen.sort();
    assert_eq!(seen, (0..500).collect::<Vec<usize>>());
}

#[test]
fn the_hierarchy_finds_the_nearest_of_many() {
    let node = BVHNode::new(vec![
        Sphere::new(p(0, 0, -10), ONE, 1),
        Sphere::new(p(0, 0, 0), ONE, 2),
        Sphere::new(p(0, 0, -5), ONE, 3),
        Sphere::new(p(4, 0, 0), ONE, 4),
        Sphere::new(p(0, 4, 0), ONE, 5),
    ]);
    let r = Ray::new(p(0, 0, 5), p(0, 0, -1));
    let rec = node.hit(&r, forward()).unwrap();
    assert_eq!((rec.t, rec.mat), (4 * ONE, 2));
    let rec = node.hit(&r, Interval::from(7 * ONE, INFINITY)).unwrap();
    assert_eq!((rec.t, rec.mat), (9 * ONE, 3));
    let rec = node.hit(&r, Interval::from(12 * ONE, INFINITY)).unwrap();
    assert_eq!((rec.t, rec.mat), (14 * ONE, 1));
    assert!(node.hit(&r, Interval::from(17 * ONE, INFINITY)).is_none());
}

#[test]
fn hierarchy_and_list_agree_on_a_battery_of_rays() {
    for seed in 1..6u64 {
        let n = 1 + (seed as usize) * 13;
        let bvh = BVHNode::new(spheres(seed, n));
        let mut list = HittableList::new();
        for s in spheres(seed, n) {
            list.add(s);
        }
        assert_eq!(*bvh.bounding_box(), *list.bounding_box());
        let mut state = seed * 977;
        let mut hits = 0;
        for _ in 0..2000 {
            let origin = Vec3::new(
                next(&mut state) * 20_000,
                next(&mut state) * 20_000,
                next(&mut state) * 20_000,
            );
            let target = Vec3::new(
                next(&mut state) * 10_000,
                next(&mut state) * 10_000,
                next(&mut state) * 10_000,
            );
            let r = Ray::new(origin, target.minus(&origin));
            let range = Interval::from(1_000_000, INFINITY);
            let from_list = list.hit(&r, range).map(|rec| rec.t);
            let from_bvh = bvh.hit(&r, range).map(|rec| rec.t);
            assert_eq!(from_bvh, from_list, "seed {} ray {:?}", seed, r);
            // The nearest hit is the least of what the surfaces report one by one.
            let least = list.objects.iter().filter_map(|s| s.hit(&r, range)).map(|rec| rec.t).min();
            assert_eq!(from_list, least);
            if from_list.is_some() {
                hits += 1;
            }
        }
        assert!(hits > 100, "only {} rays hit", hits);
    }
}

#[test]
fn a_hierarchy_from_a_list() {
    let mut list = HittableList::new();
    list.add(Quad::new(p(0, 0, 0), p(1, 0, 0), p(0, 1, 0), 1));
    list.add(Quad::new(p(0, 0, 2), p(1, 0, 0), p(0, 1, 0), 2));
    list.add(Quad::new(p(0, 0, 1), p(1, 0, 0), p(0, 1, 0), 3));
    let node = BVHNode::from_list(list);
    let r = Ray::new(Vec3::new(ONE / 2, ONE / 2, 5 * ONE), p(0, 0, -1));
    let rec = node.hit(&r, forward()).unwrap();
    assert_eq!((rec.t, rec.mat), (3 * ONE, 2));
}

#[test]
fn a_hierarchy_of_hierarchies() {
    let near = BVHNode::new(spheres(3, 20));
    let far = BVHNode::new(vec![Sphere::new(p(0, 0, -100), ONE, 77)]);
    let both = BVHNode::new(vec![far, near]);
    let r = Ray::new(p(0, 0, -50), p(0, 0, -1));
    let rec = both.hit(&r, forward()).unwrap();
    assert_eq!((rec.t, rec.mat), (49 * ONE, 77));
}

#[test]
fn a_ray_that_misses_the_box_of_a_node_gets_no_hit_from_mist_either() {
    let mist = || {
        let thick: Box<dyn Hittable> =
            Box::new(ConstantMedium::from(Sphere::new(p(0, 0, 0), ONE, 0), 1000 * ONE, 5));
        thick
    };
    let ball = || {
        let b: Box<dyn Hittable> = Box::new(Sphere::new(p(3, 0, 0), ONE, 1));
        b
    };
    let node = BVHNode::new(vec![mist(), ball(), mist()]);
    for _ in 0..50 {
        assert!(node.hit(&Ray::new(p(0, 5, 5), p(0, 0, -1)), forward()).is_none());
        let rec = node.hit(&Ray::new(p(0, 0, 5), p(0, 0, -1)), Interval::from(ONE, INFINITY)).unwrap();
        assert_eq!(rec.mat, 5);
        assert!(rec.t >= ONE);
    }
}
