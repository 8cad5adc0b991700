//! Spheres, at rest or on the move, and lenses made of two spheres.

use vstd::prelude::*;
use crate::aabb::{AABB, lemma_half_thickness};
use crate::hittable::{HitRecord, Hittable};
use crate::nearest::{box_bounds, nearest_first};
use crate::interval::Interval;
use crate::math::{acos, acos_spec, atan2, atan2_spec, powi, powi_spec, PI, TWO_PI, HALF};
use crate::ray::Ray;
use crate::scalar::{
    Scalar, ONE, MINUS_ONE, INFINITY, add_spec, sub_spec, mul_spec, div_spec, neg_spec, abs_spec,
    max_spec, sqrt_spec, fx_add, fx_sub, fx_mul, fx_div, fx_neg, fx_max, fx_sqrt,
    lemma_div_monotone, is_int_sqrt, int_sqrt, trunc_div, lemma_int_sqrt_exists,
    lemma_int_sqrt_unique, lemma_mul_minus_one, lemma_mul_one, lemma_trunc_div_monotone,
};
use crate::vec3::{
    Point, Vec3, Vector, SCENE_LIMIT, WIDE_REACH, reach_spec, lemma_axis_vector,
    lemma_component_within_length, lemma_length_non_negative, lemma_unit_vector_non_zero,
};

verus! {

/// How far past a hit the search for the next one begins.
pub const NEXT_HIT: Scalar = 100_000;

/// A sphere whose centre moves along a ray as time goes from zero to one.
pub struct Sphere {
    pub center: Ray,
    pub radius: Scalar,
    pub mat: usize,
    pub bbox: AABB,
}

/// The surface coordinates of the point `p` of the unit sphere round the
/// origin: `u` is the angle round the second axis, from the negative first
/// axis, as a share of a whole turn, and `v` is the angle up from the
/// negative second axis as a share of half a turn. Both are held between
/// zero and one.
pub open spec fn sphere_uv_spec(p: Point) -> (Scalar, Scalar) {
    let theta = acos_spec(neg_spec(p.e1));
    let phi = add_spec(atan2_spec(neg_spec(p.e2), p.e0), PI);
    let unit = Interval { min: 0, max: ONE };
    (unit.clamp_spec(div_spec(phi, TWO_PI)), unit.clamp_spec(div_spec(theta, PI)))
}

/// The box round the sphere of the given centre and radius.
pub open spec fn ball_box_spec(center: Point, radius: Scalar) -> AABB {
    let rvec = Vec3::all_spec(radius);
    AABB::from_points_spec(center.minus_spec(rvec), center.plus_spec(rvec))
}

fn ball_box(center: &Point, radius: Scalar) -> (bbox: AABB)
    ensures
        bbox == ball_box_spec(*center, radius),
{
    let rvec = Vec3::all(radius);
    AABB::from_points(&center.minus(&rvec), &center.plus(&rvec))
}

impl Sphere {
    /// The two parameters at which the line of the ray crosses the sphere,
    /// the nearer first, if it does. With `h` for how far the centre lies
    /// along the ray and `w` for how far it lies from the line of the ray,
    /// both from exact products, the line crosses where `w` is no more than
    /// the radius, at the distances `h - sqrt(radius^2 - w^2)` and
    /// `h + sqrt(radius^2 - w^2)`, and at these over the length of the
    /// direction as parameters.
    pub open spec fn roots_spec(&self, r: Ray) -> Option<(Scalar, Scalar)> {
        let current_center = self.center.at_spec(r.tm);
        let oc = current_center.minus_spec(r.orig);
        let length = r.dir.length_spec();
        let h = oc.along_spec(r.dir);
        match oc.across_spec(r.dir).leg_spec(self.radius) {
            None => None,
            Some(sqrtd) => Some(
                (div_spec(sub_spec(h, sqrtd), length), div_spec(add_spec(h, sqrtd), length)),
            ),
        }
    }

    /// The record of the hit at the parameter `t`.
    pub open spec fn record_spec(&self, r: Ray, t: Scalar) -> HitRecord {
        let current_center = self.center.at_spec(r.tm);
        let p = r.at_spec(t);
        let outward_normal = p.minus_spec(current_center).divided_spec(self.radius);
        HitRecord::new_spec(r, t, p, outward_normal, self.mat, sphere_uv_spec(outward_normal))
    }

    /// A sphere at rest. A negative radius counts as zero.
    pub fn new(center: Point, radius: Scalar, mat: usize) -> (s: Self)
        ensures
            s.center == (Ray { orig: center, dir: Vec3::all_spec(0), tm: 0 }),
            s.radius == max_spec(radius, 0),
            s.mat == mat,
            s.bbox == ball_box_spec(center, max_spec(radius, 0)),
    {
        let radius: Scalar = fx_max(radius, 0);
        Sphere {
            bbox: ball_box(&center, radius),
            center: Ray::new(center, Vec3::zero()),
            radius,
            mat,
        }
    }

    /// A sphere that moves from `center1` at the time zero to `center2` at
    /// the time one.
    pub fn new_moving(center1: Point, center2: Point, radius: Scalar, mat: usize) -> (s: Self)
        ensures
            s.center == (Ray { orig: center1, dir: center2.minus_spec(center1), tm: 0 }),
            s.radius == max_spec(radius, 0),
            s.mat == mat,
            s.bbox == AABB::from_aabbs_spec(
                ball_box_spec(s.center.at_spec(0), s.radius),
                ball_box_spec(s.center.at_spec(ONE), s.radius),
            ),
    {
        let dir = center2.minus(&center1);
        let center = Ray::new(center1, dir);
        let radius: Scalar = fx_max(radius, 0);
        let box1 = ball_box(&center.at(0), radius);
        let box2 = ball_box(&center.at(ONE), radius);
        let bbox = AABB::from_aabbs(&box1, &box2);
        Sphere { center, radius, mat, bbox }
    }

    /// The surface coordinates of a point of the unit sphere.
    pub fn get_sphere_uv(p: &Point) -> (uv: (Scalar, Scalar))
        ensures
            uv == sphere_uv_spec(*p),
            0 <= uv.0 <= ONE,
            0 <= uv.1 <= ONE,
    {
        let theta: Scalar = acos(fx_neg(p.e1));
        let phi: Scalar = fx_add(atan2(fx_neg(p.e2), p.e0), PI);
        let unit = Interval::unit();
        (unit.clamp(fx_div(phi, TWO_PI)), unit.clamp(fx_div(theta, PI)))
    }
}

impl Hittable for Sphere {
    open spec fn steady(&self) -> bool {
        true
    }

    open spec fn hit_ok(&self, r: Ray, ray_t: Interval, res: Option<HitRecord>) -> bool {
        res == self.hit_spec(r, ray_t)
    }

    /// The hit at the nearer crossing where that lies strictly inside the
    /// range, else at the farther one where that does.
    open spec fn hit_spec(&self, r: Ray, ray_t: Interval) -> Option<HitRecord> {
        match self.roots_spec(r) {
            None => None,
            Some((near, far)) => if ray_t.surrounds_spec(near) {
                Some(self.record_spec(r, near))
            } else if ray_t.surrounds_spec(far) {
                Some(self.record_spec(r, far))
            } else {
                None
            },
        }
    }

    open spec fn bounding_box_spec(&self) -> AABB {
        self.bbox
    }

    fn hit(&self, r: &Ray, ray_t: Interval) -> (res: Option<HitRecord>)
        ensures
            res matches Some(rec) ==> ray_t.min < rec.t < ray_t.max && 0 <= rec.u <= ONE && 0
                <= rec.v <= ONE && rec.mat == self.mat,
    {
        let current_center = self.center.at(r.time());
        let oc = current_center.minus(r.origin());
        let length: Scalar = r.direction().length();
        let h: Scalar = oc.along(r.direction());
        let sqrtd: Scalar = match oc.across(r.direction()).leg(self.radius) {
            Some(side) => side,
            None => {
                return None;
            },
        };

        // Find the nearest root that lies in the acceptable range.
        let mut root: Scalar = fx_div(fx_sub(h, sqrtd), length);
        if !ray_t.surrounds(root) {
            root = fx_div(fx_add(h, sqrtd), length);
            if !ray_t.surrounds(root) {
                return None;
            }
        }
        let t: Scalar = root;
        let p = r.at(t);
        let outward_normal = p.minus(&current_center).divided(self.radius);
        let uv = Self::get_sphere_uv(&outward_normal);
        Some(HitRecord::new(r, t, p, outward_normal, self.mat, uv))
    }

    fn bounding_box(&self) -> (bbox: &AABB) {
        &self.bbox
    }
}

/// The nearer crossing of a sphere is not after the farther one.
pub proof fn lemma_sphere_roots_ordered(s: &Sphere, r: Ray)
    ensures
        s.roots_spec(r) matches Some((near, far)) ==> near <= far,
{
    lemma_length_non_negative(r.dir);
    let current_center = s.center.at_spec(r.tm);
    let oc = current_center.minus_spec(r.orig);
    let h = oc.along_spec(r.dir);
    let w = oc.across_spec(r.dir);
    if let Some(sqrtd) = w.leg_spec(s.radius) {
        lemma_int_sqrt_exists(s.radius * s.radius - w.raw_square_spec());
        lemma_div_monotone(sub_spec(h, sqrtd), add_spec(h, sqrtd), r.dir.length_spec());
    }
}

/// Within the range of a scene nothing in the crossings of a sphere leaves
/// the range of scalars: for a centre and an origin within `SCENE_LIMIT`
/// and a direction that is not zero and within `WIDE_REACH`, the way to the
/// centre, how far it reaches along the ray and its part across the ray
/// are the exact differences and quotients, each rounded once.
pub proof fn lemma_crossing_terms_exact(centre: Point, orig: Point, dir: Vector)
    requires
        centre.in_scene(),
        orig.in_scene(),
        dir.is_within(WIDE_REACH),
        dir.e0 != 0 || dir.e1 != 0 || dir.e2 != 0,
    ensures
        ({
            let oc = centre.minus_spec(orig);
            let l = dir.raw_length_spec();
            let w = oc.across_spec(dir);
            &&& oc.e0 == centre.e0 - orig.e0 && oc.e1 == centre.e1 - orig.e1 && oc.e2 == centre.e2
                - orig.e2
            &&& l >= 1
            &&& oc.along_spec(dir) == trunc_div(
                oc.e0 * dir.e0 + oc.e1 * dir.e1 + oc.e2 * dir.e2,
                l,
            )
            &&& -6 * SCENE_LIMIT <= oc.along_spec(dir) <= 6 * SCENE_LIMIT
            &&& w.e0 == trunc_div(oc.e1 * dir.e2 - oc.e2 * dir.e1, l)
            &&& w.e1 == trunc_div(oc.e2 * dir.e0 - oc.e0 * dir.e2, l)
            &&& w.e2 == trunc_div(oc.e0 * dir.e1 - oc.e1 * dir.e0, l)
            &&& w.is_within((6 * SCENE_LIMIT) as Scalar)
        }),
{
    let oc = centre.minus_spec(orig);
    let l = dir.raw_length_spec();
    let s2: int = 2 * SCENE_LIMIT;
    lemma_unit_vector_non_zero(dir);
    lemma_component_within_length(dir);
    lemma_product_within(oc.e0 as int, dir.e0 as int, s2, l);
    lemma_product_within(oc.e1 as int, dir.e1 as int, s2, l);
    lemma_product_within(oc.e2 as int, dir.e2 as int, s2, l);
    lemma_sum_over_length(oc.e0 * dir.e0, oc.e1 * dir.e1, oc.e2 * dir.e2, s2, l);
    lemma_product_within(oc.e1 as int, dir.e2 as int, s2, l);
    lemma_product_within(oc.e2 as int, dir.e1 as int, s2, l);
    lemma_sum_over_length(oc.e1 * dir.e2, -(oc.e2 * dir.e1), 0, s2, l);
    lemma_product_within(oc.e2 as int, dir.e0 as int, s2, l);
    lemma_product_within(oc.e0 as int, dir.e2 as int, s2, l);
    lemma_sum_over_length(oc.e2 * dir.e0, -(oc.e0 * dir.e2), 0, s2, l);
    lemma_product_within(oc.e0 as int, dir.e1 as int, s2, l);
    lemma_product_within(oc.e1 as int, dir.e0 as int, s2, l);
    lemma_sum_over_length(oc.e0 * dir.e1, -(oc.e1 * dir.e0), 0, s2, l);
}

/// The product of a number within `s` of zero and one within `l` of zero
/// is within `s * l` of zero.
proof fn lemma_product_within(a: int, b: int, s: int, l: int)
    requires
        -s <= a <= s,
        -l <= b <= l,
    ensures
        -(s * l) <= a * b <= s * l,
{
    assert(-(s * l) <= a * b <= s * l) by (nonlinear_arith)
        requires
            -s <= a <= s,
            -l <= b <= l,
    ;
}

/// The sum of three numbers within `s * l` of zero, over `l`, is within
/// three times `s` of zero.
proof fn lemma_sum_over_length(x: int, y: int, z: int, s: int, l: int)
    requires
        l >= 1,
        s >= 0,
        -(s * l) <= x <= s * l,
        -(s * l) <= y <= s * l,
        -(s * l) <= z <= s * l,
    ensures
        -3 * s <= trunc_div(x + y + z, l) <= 3 * s,
{
    let top: int = 3 * s;
    assert(top * l == 3 * (s * l) && (-top) * l == -(3 * (s * l)) && top * l >= 0) by (nonlinear_arith)
        requires
            top == 3 * s,
            s >= 0,
            l >= 1,
    ;
    lemma_trunc_div_monotone(x + y + z, top * l, l);
    lemma_trunc_div_monotone((-top) * l, x + y + z, l);
    vstd::arithmetic::div_mod::lemma_div_multiples_vanish(top, l);
    assert((top * l) / l == top && (-((-top) * l)) / l == top) by (nonlinear_arith)
        requires
            (l * top) / l == top,
    ;
}

/// The square of the inner product of two triples with no vector product
/// is the product of the sums of their squares.
proof fn lemma_along_square(a0: int, a1: int, a2: int, d0: int, d1: int, d2: int)
    requires
        a1 * d2 == a2 * d1,
        a2 * d0 == a0 * d2,
        a0 * d1 == a1 * d0,
    ensures
        (a0 * d0 + a1 * d1 + a2 * d2) * (a0 * d0 + a1 * d1 + a2 * d2) == (a0 * a0 + a1 * a1 + a2
            * a2) * (d0 * d0 + d1 * d1 + d2 * d2),
{
    let d = a0 * d0 + a1 * d1 + a2 * d2;
    let q2 = d0 * d0 + d1 * d1 + d2 * d2;
    lemma_collinear_part(a0, a1, a2, d0, d1, d2);
    lemma_collinear_part(a1, a2, a0, d1, d2, d0);
    lemma_collinear_part(a2, a0, a1, d2, d0, d1);
    let x = a0 * d0;
    let y = a1 * d1;
    let z = a2 * d2;
    assert(d * d == d * (x + y + z));
    assert(d * (x + y + z) == d * x + d * y + d * z) by (nonlinear_arith);
    assert(d * (a0 * d0) == a0 * (d * d0) && d * (a1 * d1) == a1 * (d * d1) && d * (a2 * d2) == a2
        * (d * d2)) by (nonlinear_arith);
    assert(a0 * (a0 * q2) + a1 * (a1 * q2) + a2 * (a2 * q2) == (a0 * a0 + a1 * a1 + a2 * a2) * q2)
        by (nonlinear_arith);
}

/// For two triples with no vector product, the inner product times a
/// component of the second is the matching component of the first times
/// the sum of the squares of the second.
proof fn lemma_collinear_part(a0: int, a1: int, a2: int, d0: int, d1: int, d2: int)
    requires
        a1 * d0 == a0 * d1,
        a2 * d0 == a0 * d2,
    ensures
        (a0 * d0 + a1 * d1 + a2 * d2) * d0 == a0 * (d0 * d0 + d1 * d1 + d2 * d2),
        (a0 * d0 + a2 * d2 + a1 * d1) * d0 == a0 * (d0 * d0 + d2 * d2 + d1 * d1),
        (a1 * d1 + a2 * d2 + a0 * d0) * d0 == a0 * (d1 * d1 + d2 * d2 + d0 * d0),
        (a2 * d2 + a0 * d0 + a1 * d1) * d0 == a0 * (d2 * d2 + d0 * d0 + d1 * d1),
{
    assert((a1 * d1) * d0 == (a1 * d0) * d1 && (a2 * d2) * d0 == (a2 * d0) * d2) by (nonlinear_arith);
    assert((a1 * d0) * d1 == (a0 * d1) * d1 && (a2 * d0) * d2 == (a0 * d2) * d2);
    assert((a0 * d0 + a1 * d1 + a2 * d2) * d0 == (a0 * d0) * d0 + (a1 * d1) * d0 + (a2 * d2) * d0)
        by (nonlinear_arith);
    assert(a0 * (d0 * d0 + d1 * d1 + d2 * d2) == (a0 * d0) * d0 + (a0 * d1) * d1 + (a0 * d2) * d2)
        by (nonlinear_arith);
}

/// How far a centre lies along a ray through it is its distance, but for
/// the rounding of the two lengths: for a way `oc` to the centre and a
/// direction `dir` that have no vector product and point the same way,
/// both within the reach of the exact products, it is no less than the
/// length of `oc`, and no more than that and one and its share of the
/// length of `dir`.
pub proof fn lemma_along_is_distance(oc: Vector, dir: Vector)
    requires
        oc.is_within(WIDE_REACH),
        dir.is_within(WIDE_REACH),
        dir.e0 != 0 || dir.e1 != 0 || dir.e2 != 0,
        oc.e1 * dir.e2 == oc.e2 * dir.e1,
        oc.e2 * dir.e0 == oc.e0 * dir.e2,
        oc.e0 * dir.e1 == oc.e1 * dir.e0,
        oc.e0 * dir.e0 + oc.e1 * dir.e1 + oc.e2 * dir.e2 >= 0,
    ensures
        oc.raw_length_spec() <= trunc_div(oc.raw_dot_spec(dir), dir.raw_length_spec())
            <= oc.raw_length_spec() + 1 + oc.raw_length_spec() / dir.raw_length_spec(),
{
    let m = oc.raw_length_spec();
    let l = dir.raw_length_spec();
    let d = oc.e0 * dir.e0 + oc.e1 * dir.e1 + oc.e2 * dir.e2;
    let q1 = oc.raw_square_spec();
    let q2 = dir.raw_square_spec();
    lemma_length_non_negative(oc);
    lemma_length_non_negative(dir);
    lemma_unit_vector_non_zero(dir);
    lemma_along_square(
        oc.e0 as int,
        oc.e1 as int,
        oc.e2 as int,
        dir.e0 as int,
        dir.e1 as int,
        dir.e2 as int,
    );
    assert(oc.raw_dot_spec(dir) == d);
    assert(d * d == q1 * q2);
    assert((m * l) * (m * l) <= q1 * q2) by (nonlinear_arith)
        requires
            0 <= m * m <= q1,
            0 <= l * l <= q2,
    ;
    if d < m * l {
        assert(d * d < (m * l) * (m * l)) by (nonlinear_arith)
            requires
                0 <= d < m * l,
        ;
    }
    let top = (m + 1) * (l + 1);
    assert(q1 * q2 < top * top) by (nonlinear_arith)
        requires
            0 <= q1 < (m + 1) * (m + 1),
            0 <= q2 < (l + 1) * (l + 1),
            top == (m + 1) * (l + 1),
            m >= 0,
            l >= 0,
    ;
    if d >= top {
        assert(d * d >= top * top) by (nonlinear_arith)
            requires
                d >= top,
                top >= 0,
        ;
    }
    assert(top == m * l + m + l + 1) by (nonlinear_arith)
        requires
            top == (m + 1) * (l + 1),
    ;
    // m * l <= d <= m * l + m + l
    vstd::arithmetic::div_mod::lemma_div_is_ordered(m * l, d, l);
    vstd::arithmetic::div_mod::lemma_div_multiples_vanish(m, l);
    assert((m * l) / l == m) by (nonlinear_arith)
        requires
            (l * m) / l == m,
    ;
    vstd::arithmetic::div_mod::lemma_div_is_ordered(d, m * l + m + l, l);
    vstd::arithmetic::div_mod::lemma_fundamental_div_mod(m, l);
    vstd::arithmetic::div_mod::lemma_mod_bound(m, l);
    let k = m + 1 + m / l;
    assert(m * l + m + l < (k + 1) * l) by (nonlinear_arith)
        requires
            k == m + 1 + m / l,
            m == l * (m / l) + m % l,
            0 <= m % l < l,
    ;
    vstd::arithmetic::div_mod::lemma_div_is_ordered(m * l + m + l, (k + 1) * l - 1, l);
    assert(((k + 1) * l - 1) / l <= k) by {
        vstd::arithmetic::div_mod::lemma_fundamental_div_mod((k + 1) * l - 1, l);
        vstd::arithmetic::div_mod::lemma_mod_bound((k + 1) * l - 1, l);
        let w = ((k + 1) * l - 1) / l;
        let rem = ((k + 1) * l - 1) % l;
        assert(w <= k) by (nonlinear_arith)
            requires
                (k + 1) * l - 1 == l * w + rem,
                0 <= rem < l,
                l >= 1,
        ;
    }
}

/// A ray through the centre of a sphere crosses it at the distance of the
/// centre along the ray less the radius, and at that plus the radius: for
/// a sphere and a ray within the range of a scene, where the way to the
/// centre and the direction of the ray have no vector product, the two
/// crossings are these distances over the length of the direction, and
/// the nearer one is reported wherever it lies strictly inside the range.
/// Where the ray runs towards the centre, the distance of the centre
/// along the ray is the length of the way to it, but for the rounding of
/// the lengths.
pub proof fn lemma_centre_ray_crossings(s: &Sphere, r: Ray, ray_t: Interval)
    requires
        s.center.at_spec(r.tm).in_scene(),
        r.orig.in_scene(),
        0 <= s.radius < INFINITY,
        r.dir.is_within(WIDE_REACH),
        r.dir.e0 != 0 || r.dir.e1 != 0 || r.dir.e2 != 0,
        ({
            let oc = s.center.at_spec(r.tm).minus_spec(r.orig);
            oc.e1 * r.dir.e2 == oc.e2 * r.dir.e1 && oc.e2 * r.dir.e0 == oc.e0 * r.dir.e2 && oc.e0
                * r.dir.e1 == oc.e1 * r.dir.e0
        }),
    ensures
        ({
            let oc = s.center.at_spec(r.tm).minus_spec(r.orig);
            let h = oc.along_spec(r.dir);
            let near = div_spec(sub_spec(h, s.radius), r.dir.length_spec());
            let far = div_spec(add_spec(h, s.radius), r.dir.length_spec());
            &&& s.roots_spec(r) == Some((near, far))
            &&& ray_t.surrounds_spec(near) ==> (s.hit_spec(r, ray_t) matches Some(rec) && rec.t
                == near && rec.p == r.at_spec(near))
            &&& oc.e0 * r.dir.e0 + oc.e1 * r.dir.e1 + oc.e2 * r.dir.e2 >= 0
                ==> oc.raw_length_spec() <= h <= oc.raw_length_spec() + 1 + oc.raw_length_spec()
                / r.dir.raw_length_spec()
        }),
{
    let centre = s.center.at_spec(r.tm);
    let oc = centre.minus_spec(r.orig);
    lemma_crossing_terms_exact(centre, r.orig, r.dir);
    if oc.e0 * r.dir.e0 + oc.e1 * r.dir.e1 + oc.e2 * r.dir.e2 >= 0 {
        lemma_along_is_distance(oc, r.dir);
    }
    let w = oc.across_spec(r.dir);
    assert(w == Vec3::<Scalar> { e0: 0, e1: 0, e2: 0 });
    assert(w.raw_square_spec() == 0) by {
        assert(0int * 0int == 0);
    }
    let k: int = s.radius as int;
    assert(k * k >= 0 && k * k < (k + 1) * (k + 1)) by (nonlinear_arith)
        requires
            k >= 0,
    ;
    lemma_int_sqrt_exists(k * k);
    lemma_int_sqrt_unique(k * k, k, int_sqrt(k * k));
}

/// A ray along an axis to a centre on its line: how far the centre lies
/// along the ray is its distance, and the length of the direction is the
/// size of its one component.
pub proof fn lemma_axis_ray_to_centre(oc: Vector, dir: Vector, k: int)
    requires
        0 <= k < 3,
        oc == (Vec3::<Scalar> { e0: 0, e1: 0, e2: 0 }).with(k, oc.at(k)),
        dir == (Vec3::<Scalar> { e0: 0, e1: 0, e2: 0 }).with(k, dir.at(k)),
        -WIDE_REACH <= oc.at(k) <= WIDE_REACH,
        -WIDE_REACH <= dir.at(k) <= WIDE_REACH,
        (oc.at(k) > 0 && dir.at(k) > 0) || (oc.at(k) < 0 && dir.at(k) < 0),
    ensures
        oc.along_spec(dir) == abs_spec(oc.at(k)),
        oc.length_spec() == abs_spec(oc.at(k)),
        dir.length_spec() == abs_spec(dir.at(k)),
        oc.e1 * dir.e2 == oc.e2 * dir.e1 && oc.e2 * dir.e0 == oc.e0 * dir.e2 && oc.e0 * dir.e1
            == oc.e1 * dir.e0,
{
    lemma_axis_vector(oc, k);
    lemma_axis_vector(dir, k);
    let g: int = abs_spec(oc.at(k)) as int;
    let l: int = abs_spec(dir.at(k)) as int;
    assert(oc.raw_dot_spec(dir) == oc.at(k) * dir.at(k)) by {
        assert(0int * 0int == 0);
    }
    assert(oc.at(k) * dir.at(k) == g * l && g * l >= 0) by (nonlinear_arith)
        requires
            (oc.at(k) == g && dir.at(k) == l) || (oc.at(k) == -g && dir.at(k) == -l),
            g >= 0,
            l >= 0,
    ;
    vstd::arithmetic::div_mod::lemma_div_multiples_vanish(g, l);
    assert((g * l) / l == g) by (nonlinear_arith)
        requires
            (l * g) / l == g,
    ;
    assert(oc.e1 * dir.e2 == oc.e2 * dir.e1 && oc.e2 * dir.e0 == oc.e0 * dir.e2 && oc.e0 * dir.e1
        == oc.e1 * dir.e0) by (nonlinear_arith)
        requires
            (oc.e0 == 0 && oc.e1 == 0 && dir.e0 == 0 && dir.e1 == 0) || (oc.e0 == 0 && oc.e2 == 0
                && dir.e0 == 0 && dir.e2 == 0) || (oc.e1 == 0 && oc.e2 == 0 && dir.e1 == 0
                && dir.e2 == 0),
    ;
}

/// A sphere reports the first hit in a range.
pub proof fn lemma_sphere_nearest_first(s: &Sphere, r: Ray, lo: Scalar)
    ensures
        nearest_first(s, r, lo),
{
    lemma_sphere_roots_ordered(s, r);
}

/// The sphere of radius one round the point (5, 0, 0).
pub open spec fn unit_ball_spec() -> Sphere {
    let zero: Point = Vec3::all_spec(0);
    let centre: Point = Vec3 { e0: 5_000_000_000, e1: 0, e2: 0 };
    Sphere {
        center: Ray { orig: centre, dir: zero, tm: 0 },
        radius: ONE,
        mat: 0,
        bbox: ball_box_spec(centre, ONE),
    }
}

/// A ray that runs in the plane of a face of the box and touches the sphere
/// there: it starts at (0, 1, 0) and runs along the first axis.
pub open spec fn grazing_ray_spec() -> Ray {
    Ray {
        orig: Vec3 { e0: 0, e1: ONE, e2: 0 },
        dir: Vec3 { e0: ONE, e1: 0, e2: 0 },
        tm: 0,
    }
}

/// A sphere does not lie within its box for every ray: the ray that touches
/// the unit sphere at its top, running in the plane of the upper face of
/// the box, hits the sphere and misses the box.
pub proof fn lemma_grazing_ray_misses_box()
    ensures
        unit_ball_spec().hit_spec(grazing_ray_spec(), Interval { min: 0, max: INFINITY }) is Some,
        !unit_ball_spec().bbox.hit_spec(grazing_ray_spec(), Interval { min: 0, max: INFINITY }),
        !box_bounds(&unit_ball_spec(), grazing_ray_spec(), 0),
{
    let s = unit_ball_spec();
    let r = grazing_ray_spec();
    let ray_t = Interval { min: 0, max: INFINITY };
    let five: Scalar = 5_000_000_000;
    assert(mul_spec(five, five) == 25_000_000_000) by {
        assert((5_000_000_000int * 5_000_000_000int) / 1_000_000_000int == 25_000_000_000int)
            by (nonlinear_arith);
        assert(five * five == 5_000_000_000int * 5_000_000_000int);
    }
    assert(div_spec(five, ONE) == five) by {
        assert((5_000_000_000int * 1_000_000_000int) / 1_000_000_000int == 5_000_000_000int)
            by (nonlinear_arith);
        assert(five * ONE == 5_000_000_000int * 1_000_000_000int);
    }
    lemma_mul_one(ONE);
    lemma_mul_one(five);
    lemma_mul_one(25_000_000_000);
    lemma_mul_minus_one(MINUS_ONE);
    let center = s.center.at_spec(r.tm);
    assert(center == Vec3::<Scalar> { e0: five, e1: 0, e2: 0 });
    let oc = center.minus_spec(r.orig);
    assert(oc == Vec3::<Scalar> { e0: five, e1: MINUS_ONE, e2: 0 });
    assert(1_000_000_000int * 1_000_000_000int == 1_000_000_000_000_000_000int
        && 1_000_000_001int * 1_000_000_001int > 1_000_000_000_000_000_000int
        && 5_000_000_000int * 1_000_000_000int == 5_000_000_000_000_000_000int
        && 5_000_000_000int * 5_000_000_000int == 25_000_000_000_000_000_000int
        && 5_000_000_000_000_000_000int / 1_000_000_000int == 5_000_000_000int
        && 25_000_000_000_000_000_000int / 1_000_000_000int == 25_000_000_000int)
        by (nonlinear_arith);
    assert(r.dir.raw_square_spec() == 1_000_000_000_000_000_000int);
    lemma_length_non_negative(r.dir);
    lemma_int_sqrt_unique(r.dir.raw_square_spec(), r.dir.raw_length_spec(), 1_000_000_000);
    assert(r.dir.length_spec() == ONE);
    assert(reach_spec(five) == 5_000_000_000int && reach_spec(ONE) == 1_000_000_000int
        && reach_spec(MINUS_ONE) == -1_000_000_000int && reach_spec(0) == 0);
    assert((-1_000_000_000int) * (-1_000_000_000int) == 1_000_000_000_000_000_000int
        && (-1_000_000_000int) * 0int == 0) by (nonlinear_arith);
    assert(oc.raw_dot_spec(r.dir) == 5_000_000_000_000_000_000int);
    assert(oc.along_spec(r.dir) == five);
    assert(MINUS_ONE * MINUS_ONE == 1_000_000_000_000_000_000int && ONE * ONE
        == 1_000_000_000_000_000_000int && 0int * 0int == 0 && 5_000_000_000int * 0int == 0
        && 1_000_000_000_000_000_000int / 1_000_000_000int == 1_000_000_000int && 0int
        / 1_000_000_000int == 0) by (nonlinear_arith);
    let w = oc.across_spec(r.dir);
    assert(w == Vec3::<Scalar> { e0: 0, e1: 0, e2: ONE });
    assert(w.raw_square_spec() == 1_000_000_000_000_000_000int);
    assert(is_int_sqrt(0, 0));
    lemma_int_sqrt_exists(0);
    lemma_int_sqrt_unique(0, 0, int_sqrt(0));
    assert(w.leg_spec(ONE) == Some(0i64));
    assert(s.roots_spec(r) == Some((five, five)));
    assert(s.hit_spec(r, ray_t) is Some);
    lemma_half_thickness();
    assert(s.bbox.e1 == Interval { min: MINUS_ONE, max: ONE });
    assert(!s.bbox.hit_spec(r, ray_t));
}

/// The lens between two spheres that cut into each other.
pub struct Magnifier {
    pub sph0: Sphere,
    pub sph1: Sphere,
    pub bbox: AABB,
}

impl Magnifier {
    /// The lens at `p` whose axis is `d`, of half the thickness of the
    /// length of `d` and of the half height `h`.
    pub fn new(p: Point, d: Vector, h: Scalar, mat: usize) -> (m: Self)
        ensures
            m == Self::new_spec(p, d, h, mat),
    {
        let r = d.scaled(fx_mul(HALF, fx_add(fx_div(fx_mul(h, h), d.dot(&d)), ONE)));
        let c0 = p.plus(&d).minus(&r);
        let c1 = p.minus(&d).plus(&r);
        let r: Scalar = r.length();
        let sph0 = Sphere::new(c0, r, mat);
        let sph1 = Sphere::new(c1, r, mat);

        let d_len: Scalar = d.length();
        let mut bbox = AABB::from_points(
            &Vec3::new(h, h, d_len),
            &Vec3::new(fx_neg(h), fx_neg(h), fx_neg(d_len)),
        );
        let yaw: Scalar = atan2(d.e0, d.e2);
        bbox = bbox.rotate::<1>(yaw);
        let pitch: Scalar = atan2(d.e1, fx_sqrt(fx_add(powi(d.e0, 2), powi(d.e2, 2))));
        bbox = bbox.rotate::<0>(pitch);
        bbox = bbox.translate(&p);
        Magnifier { sph0, sph1, bbox }
    }

/// The lens of `new`: two spheres of one radius whose centres lie on the
/// axis, and the box of a slab round the origin turned to the axis and moved
/// to `p`.
    pub open spec fn new_spec(p: Point, d: Vector, h: Scalar, mat: usize) -> Self {
        let rv = d.scaled_spec(
            mul_spec(HALF, add_spec(div_spec(mul_spec(h, h), d.dot_spec(d)), ONE)),
        );
        let c0 = p.plus_spec(d).minus_spec(rv);
        let c1 = p.minus_spec(d).plus_spec(rv);
        let r = max_spec(rv.length_spec(), 0);
        let d_len = d.length_spec();
        let flat = AABB::from_points_spec(
            Vec3 { e0: h, e1: h, e2: d_len },
            Vec3 { e0: neg_spec(h), e1: neg_spec(h), e2: neg_spec(d_len) },
        );
        let yaw = atan2_spec(d.e0, d.e2);
        let pitch = atan2_spec(d.e1, sqrt_spec(add_spec(powi_spec(d.e0, 2), powi_spec(d.e2, 2))));
        Magnifier {
            sph0: Sphere {
                center: Ray { orig: c0, dir: Vec3::all_spec(0), tm: 0 },
                radius: r,
                mat,
                bbox: ball_box_spec(c0, r),
            },
            sph1: Sphere {
                center: Ray { orig: c1, dir: Vec3::all_spec(0), tm: 0 },
                radius: r,
                mat,
                bbox: ball_box_spec(c1, r),
            },
            bbox: flat.rotate_spec(1, yaw).rotate_spec(0, pitch).translate_spec(p),
        }
    }

    /// What the lens reports once its first sphere is known to be entered
    /// at `first` before the second at `second`: nothing where the ray
    /// leaves the first sphere before it enters the second; else the entry
    /// into the second where that lies in the range; else the way out of
    /// the first where that does.
    pub open spec fn lens_spec(
        first: HitRecord,
        second: HitRecord,
        out: Option<HitRecord>,
        ray_t: Interval,
    ) -> Option<HitRecord> {
        match out {
            None => None,
            Some(rec2) => if rec2.t < second.t {
                None
            } else if ray_t.contains_spec(second.t) {
                Some(second)
            } else if ray_t.contains_spec(rec2.t) {
                Some(rec2)
            } else {
                None
            },
        }
    }

    fn lens(first: &HitRecord, second: HitRecord, out: Option<HitRecord>, ray_t: &Interval) -> (res:
        Option<HitRecord>)
        ensures
            res == Self::lens_spec(*first, second, out, *ray_t),
    {
        match out {
            None => None,
            Some(rec2) => if rec2.t < second.t {
                None
            } else if ray_t.contains(second.t) {
                Some(second)
            } else if ray_t.contains(rec2.t) {
                Some(rec2)
            } else {
                None
            },
        }
    }
}

impl Hittable for Magnifier {
    open spec fn steady(&self) -> bool {
        true
    }

    open spec fn hit_ok(&self, r: Ray, ray_t: Interval, res: Option<HitRecord>) -> bool {
        res == self.hit_spec(r, ray_t)
    }

    open spec fn hit_spec(&self, r: Ray, ray_t: Interval) -> Option<HitRecord> {
        let t_all = Interval::universe_spec();
        match (self.sph0.hit_spec(r, t_all), self.sph1.hit_spec(r, t_all)) {
            (Some(rec0), Some(rec1)) => if rec0.t < rec1.t {
                let t_next = Interval { min: add_spec(rec0.t, NEXT_HIT), max: INFINITY };
                Self::lens_spec(rec0, rec1, self.sph0.hit_spec(r, t_next), ray_t)
            } else {
                let t_next = Interval { min: add_spec(rec1.t, NEXT_HIT), max: INFINITY };
                Self::lens_spec(rec1, rec0, self.sph1.hit_spec(r, t_next), ray_t)
            },
            _ => None,
        }
    }

    open spec fn bounding_box_spec(&self) -> AABB {
        self.bbox
    }

    fn hit(&self, r: &Ray, ray_t: Interval) -> (res: Option<HitRecord>) {
        let t_all = Interval::universe();
        let rec0 = match self.sph0.hit(r, t_all) {
            Some(rec) => rec,
            None => {
                return None;
            },
        };
        let rec1 = match self.sph1.hit(r, t_all) {
            Some(rec) => rec,
            None => {
                return None;
            },
        };
        if rec0.t < rec1.t {
            let t_next = Interval::from(fx_add(rec0.t, NEXT_HIT), INFINITY);
            Self::lens(&rec0, rec1, self.sph0.hit(r, t_next), &ray_t)
        } else {
            let t_next = Interval::from(fx_add(rec1.t, NEXT_HIT), INFINITY);
            Self::lens(&rec1, rec0, self.sph1.hit(r, t_next), &ray_t)
        }
    }

    fn bounding_box(&self) -> (bbox: &AABB) {
        &self.bbox
    }
}

} // verus!
