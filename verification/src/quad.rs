//! Flat shapes: parallelograms, triangles, discs and rings.

use vstd::prelude::*;
use crate::aabb::AABB;
use crate::hittable::{HitRecord, Hittable};
use crate::nearest::nearest_first;
use crate::interval::Interval;
use crate::math::HALF;
use crate::ray::Ray;
use crate::scalar::{
    Scalar, ONE, TWO, MINUS_ONE, INFINITY, add_spec, sub_spec, mul_spec, div_spec, abs_spec, sqrt_spec, min_spec,
    max_spec, trunc_div, fx_add, fx_sub, fx_mul, fx_div, fx_abs, fx_sqrt, fx_min, fx_max,
    is_finite, lemma_mul_exact, lemma_mul_within_one, lemma_mul_within_one_exact,
    lemma_half_share, lemma_half_close, lemma_share_in_unit, lemma_trunc_remainder,
    lemma_cross_off_middle, lemma_int_sqrt_unique, is_int_sqrt,
};
use crate::vec3::{
    Point, Vec3, Vector, SCENE_LIMIT, lemma_products_within, lemma_length_within,
    lemma_unit_vector_non_zero, lemma_axis_vector, lemma_axis_dot, lemma_cross_on_axis, in_turn,
    lemma_unit_dot, lemma_unit_vector_long, lemma_length_non_negative,
};

verus! {

/// A ray whose direction has less than this along the normal of a plane
/// counts as parallel to it.
pub const PARALLEL: Scalar = 10;

/// The outline of a flat shape, in the frame of its two edge vectors.
#[derive(Clone, Copy, Debug, PartialEq, Eq)]
pub enum Shape2D {
    Parallelogram,
    Triangle,
    Circle,
    Ellipse,
    /// A ring whose hole has the radius `inner`.
    Annulus { inner: Scalar },
}

impl Shape2D {
    /// The surface coordinates of the place `(a, b)` of the plane where it
    /// lies inside the shape.
    pub open spec fn interior_spec(self, a: Scalar, b: Scalar) -> Option<(Scalar, Scalar)> {
        let unit = Interval { min: 0, max: ONE };
        let centred = (add_spec(div_spec(a, TWO), HALF), add_spec(div_spec(b, TWO), HALF));
        match self {
            Shape2D::Parallelogram => if unit.contains_spec(a) && unit.contains_spec(b) {
                Some((a, b))
            } else {
                None
            },
            Shape2D::Triangle => if a > 0 && b > 0 && add_spec(a, b) < ONE {
                Some((a, b))
            } else {
                None
            },
            Shape2D::Circle | Shape2D::Ellipse => if add_spec(mul_spec(a, a), mul_spec(b, b))
                < ONE {
                Some(centred)
            } else {
                None
            },
            Shape2D::Annulus { inner } => {
                let center_dist = sqrt_spec(add_spec(mul_spec(a, a), mul_spec(b, b)));
                if inner < center_dist && center_dist < ONE {
                    Some(centred)
                } else {
                    None
                }
            },
        }
    }

/// The surface coordinates of the place `(a, b)` where it lies inside.
    pub fn interior(&self, a: Scalar, b: Scalar) -> (uv: Option<(Scalar, Scalar)>)
        ensures
            uv == self.interior_spec(a, b),
    {
        match self {
            Shape2D::Parallelogram => {
                if Interval::unit().contains(a) && Interval::unit().contains(b) {
                    Some((a, b))
                } else {
                    None
                }
            },
            Shape2D::Triangle => {
                if a > 0 && b > 0 && fx_add(a, b) < ONE {
                    Some((a, b))
                } else {
                    None
                }
            },
            Shape2D::Circle | Shape2D::Ellipse => {
                if fx_add(fx_mul(a, a), fx_mul(b, b)) < ONE {
                    Some((fx_add(fx_div(a, TWO), HALF), fx_add(fx_div(b, TWO), HALF)))
                } else {
                    None
                }
            },
            Shape2D::Annulus { inner } => {
                let center_dist: Scalar = fx_sqrt(fx_add(fx_mul(a, a), fx_mul(b, b)));
                if *inner < center_dist && center_dist < ONE {
                    Some((fx_add(fx_div(a, TWO), HALF), fx_add(fx_div(b, TWO), HALF)))
                } else {
                    None
                }
            },
        }
    }
}

/// A flat shape in the plane through `q` that the edges `u` and `v` span.
pub struct Quad {
    pub q: Point,
    pub u: Vector,
    pub v: Vector,
    pub mat: usize,
    /// The area that `u` and `v` span: the length of their vector product.
    pub area: Scalar,
    pub bbox: AABB,
    /// The normal of the plane, of length one.
    pub normal: Vector,
    /// Where the plane lies along its normal.
    pub d: Scalar,
    pub shape: Shape2D,
}

/// The box round a shape: that of the four corners of a parallelogram, of
/// the three of a triangle, and of the parallelogram round a disc or ring,
/// whose centre is `q`.
pub open spec fn shape_box_spec(q: Point, u: Vector, v: Vector, shape: Shape2D) -> AABB {
    let quv = q.plus_spec(u).plus_spec(v);
    let qu = q.plus_spec(u);
    let qv = q.plus_spec(v);
    match shape {
        Shape2D::Parallelogram => AABB::from_aabbs_spec(
            AABB::from_points_spec(q, quv),
            AABB::from_points_spec(qu, qv),
        ),
        Shape2D::Triangle => AABB::from_aabbs_spec(
            AABB::from_points_spec(q, qv),
            AABB::from_points_spec(qu, qv),
        ),
        _ => AABB::from_points_spec(quv, q.minus_spec(u).minus_spec(v)),
    }
}

impl Quad {
    /// The shape `shape` in the plane through `q` that `u` and `v` span,
    /// with what its hit test needs worked out once: the area that `u` and
    /// `v` span, the normal of length one, and the place of the plane along
    /// it.
    #[verifier::opaque]
    pub open spec fn with_shape_spec(q: Point, u: Vector, v: Vector, mat: usize, shape: Shape2D) -> Self {
        let n = u.cross_spec(v);
        let normal = n.unit_vector_spec();
        Quad {
            q,
            u,
            v,
            mat,
            area: n.length_spec(),
            bbox: shape_box_spec(q, u, v, shape),
            normal,
            d: normal.dot_spec(q),
            shape,
        }
    }

    /// The parameter at which the ray crosses the plane, unless it runs
    /// parallel to it.
    pub open spec fn plane_t_spec(&self, r: Ray) -> Option<Scalar> {
        let denom = self.normal.dot_spec(r.dir);
        if abs_spec(denom) < PARALLEL {
            None
        } else {
            Some(div_spec(sub_spec(self.d, self.normal.dot_spec(r.orig)), denom))
        }
    }

    /// The record of the crossing at `t`, where it lies inside the shape.
    /// The coordinates of the crossing along `u` and `v` are the parts of
    /// the vector products with `v` and with `u` along the normal, over the
    /// area.
    pub open spec fn record_spec(&self, r: Ray, t: Scalar) -> Option<HitRecord> {
        let intersection = r.at_spec(t);
        let planar_hitpt_vector = intersection.minus_spec(self.q);
        let alpha = div_spec(
            self.normal.dot_spec(planar_hitpt_vector.cross_spec(self.v)),
            self.area,
        );
        let beta = div_spec(
            self.normal.dot_spec(self.u.cross_spec(planar_hitpt_vector)),
            self.area,
        );
        match self.shape.interior_spec(alpha, beta) {
            Some(uv) => Some(HitRecord::new_spec(r, t, intersection, self.normal, self.mat, uv)),
            None => None,
        }
    }

/// The shape `shape` in the plane through `q` that `u` and `v` span.
    pub fn with_shape(q: Point, u: Vector, v: Vector, mat: usize, shape: Shape2D) -> (quad: Self)
        ensures
            quad == Self::with_shape_spec(q, u, v, mat, shape),
    {
        reveal(Quad::with_shape_spec);
        let quv = q.plus(&u).plus(&v);
        let qu = q.plus(&u);
        let qv = q.plus(&v);
        let bbox = match shape {
            Shape2D::Parallelogram => AABB::from_aabbs(
                &AABB::from_points(&q, &quv),
                &AABB::from_points(&qu, &qv),
            ),
            Shape2D::Triangle => AABB::from_aabbs(
                &AABB::from_points(&q, &qv),
                &AABB::from_points(&qu, &qv),
            ),
            _ => AABB::from_points(&quv, &q.minus(&u).minus(&v)),
        };
        let n = u.cross(&v);
        let area: Scalar = n.length();
        let normal = n.into_unit_vector();
        let d: Scalar = normal.dot(&q);
        Quad { q, u, v, mat, area, bbox, normal, d, shape }
    }

    /// A parallelogram.
    pub fn new(q: Point, u: Vector, v: Vector, mat: usize) -> (quad: Self)
        ensures
            quad == Self::with_shape_spec(q, u, v, mat, Shape2D::Parallelogram),
    {
        Self::with_shape(q, u, v, mat, Shape2D::Parallelogram)
    }

    /// Side `k` of the box between two opposite corners `a` and `b`: front,
    /// right, back, left, top and, for every other `k`, bottom.
    pub open spec fn box_side_spec(a: Point, b: Point, mat: usize, k: int) -> Quad {
        let min: Point = Vec3 {
            e0: min_spec(a.e0, b.e0),
            e1: min_spec(a.e1, b.e1),
            e2: min_spec(a.e2, b.e2),
        };
        let max: Point = Vec3 {
            e0: max_spec(a.e0, b.e0),
            e1: max_spec(a.e1, b.e1),
            e2: max_spec(a.e2, b.e2),
        };
        let dx: Vector = Vec3 { e0: sub_spec(max.e0, min.e0), e1: 0, e2: 0 };
        let dy: Vector = Vec3 { e0: 0, e1: sub_spec(max.e1, min.e1), e2: 0 };
        let dz: Vector = Vec3 { e0: 0, e1: 0, e2: sub_spec(max.e2, min.e2) };
        let para = Shape2D::Parallelogram;
        if k == 0 {
            Self::with_shape_spec(Vec3 { e0: min.e0, e1: min.e1, e2: max.e2 }, dx, dy, mat, para)
        } else if k == 1 {
            Self::with_shape_spec(
                Vec3 { e0: max.e0, e1: min.e1, e2: max.e2 },
                dz.neg_spec(),
                dy,
                mat,
                para,
            )
        } else if k == 2 {
            Self::with_shape_spec(
                Vec3 { e0: max.e0, e1: min.e1, e2: min.e2 },
                dx.neg_spec(),
                dy,
                mat,
                para,
            )
        } else if k == 3 {
            Self::with_shape_spec(Vec3 { e0: min.e0, e1: min.e1, e2: min.e2 }, dz, dy, mat, para)
        } else if k == 4 {
            Self::with_shape_spec(
                Vec3 { e0: min.e0, e1: max.e1, e2: max.e2 },
                dx,
                dz.neg_spec(),
                mat,
                para,
            )
        } else {
            Self::with_shape_spec(Vec3 { e0: min.e0, e1: min.e1, e2: min.e2 }, dx, dz, mat, para)
        }
    }

    /// The six sides of the box between two opposite corners.
    pub fn new_box(a: &Point, b: &Point, mat: usize) -> (sides: Vec<Quad>)
        ensures
            sides@.len() == 6,
            forall|k: int| 0 <= k < 6 ==> #[trigger] sides@[k] == Self::box_side_spec(*a, *b, mat, k),
    {
        let mut sides: Vec<Quad> = Vec::with_capacity(6);

        // The two opposite corners with the least and the greatest coordinates.
        let min: Point = Vec3::new(fx_min(a.e0, b.e0), fx_min(a.e1, b.e1), fx_min(a.e2, b.e2));
        let max: Point = Vec3::new(fx_max(a.e0, b.e0), fx_max(a.e1, b.e1), fx_max(a.e2, b.e2));

        let dx: Vector = Vec3::new(fx_sub(max.e0, min.e0), 0, 0);
        let dy: Vector = Vec3::new(0, fx_sub(max.e1, min.e1), 0);
        let dz: Vector = Vec3::new(0, 0, fx_sub(max.e2, min.e2));

        let front = Quad::new(Vec3::new(min.e0, min.e1, max.e2), dx, dy, mat);
        assert(front == Self::box_side_spec(*a, *b, mat, 0));
        let right = Quad::new(Vec3::new(max.e0, min.e1, max.e2), dz.negated(), dy, mat);
        assert(right == Self::box_side_spec(*a, *b, mat, 1));
        let back = Quad::new(Vec3::new(max.e0, min.e1, min.e2), dx.negated(), dy, mat);
        assert(back == Self::box_side_spec(*a, *b, mat, 2));
        let left = Quad::new(Vec3::new(min.e0, min.e1, min.e2), dz, dy, mat);
        assert(left == Self::box_side_spec(*a, *b, mat, 3));
        let top = Quad::new(Vec3::new(min.e0, max.e1, max.e2), dx, dz.negated(), mat);
        assert(top == Self::box_side_spec(*a, *b, mat, 4));
        let bottom = Quad::new(Vec3::new(min.e0, min.e1, min.e2), dx, dz, mat);
        assert(bottom == Self::box_side_spec(*a, *b, mat, 5));
        sides.push(front);
        sides.push(right);
        sides.push(back);
        sides.push(left);
        sides.push(top);
        sides.push(bottom);
        sides
    }
}

impl Hittable for Quad {
    open spec fn steady(&self) -> bool {
        true
    }

    open spec fn hit_ok(&self, r: Ray, ray_t: Interval, res: Option<HitRecord>) -> bool {
        res == self.hit_spec(r, ray_t)
    }

    /// The crossing of the ray with the plane, where its parameter lies in
    /// the range and its place inside the shape.
    open spec fn hit_spec(&self, r: Ray, ray_t: Interval) -> Option<HitRecord> {
        match self.plane_t_spec(r) {
            None => None,
            Some(t) => if ray_t.contains_spec(t) {
                self.record_spec(r, t)
            } else {
                None
            },
        }
    }

    open spec fn bounding_box_spec(&self) -> AABB {
        self.bbox
    }

    fn hit(&self, r: &Ray, ray_t: Interval) -> (res: Option<HitRecord>) {
        let denom: Scalar = self.normal.dot(r.direction());

        // No hit if the ray is parallel to the plane.
        if fx_abs(denom) < PARALLEL {
            return None;
        }
        // No hit if the parameter of the crossing is outside the range.
        let t: Scalar = fx_div(fx_sub(self.d, self.normal.dot(r.origin())), denom);
        if !ray_t.contains(t) {
            return None;
        }
        // Whether the crossing lies within the shape, by its plane coordinates.
        let intersection = r.at(t);
        let planar_hitpt_vector = intersection.minus(&self.q);
        let alpha: Scalar = fx_div(
            self.normal.dot(&planar_hitpt_vector.cross(&self.v)),
            self.area,
        );
        let beta: Scalar = fx_div(
            self.normal.dot(&self.u.cross(&planar_hitpt_vector)),
            self.area,
        );

        match self.shape.interior(alpha, beta) {
            Some(uv) => Some(HitRecord::new(r, t, intersection, self.normal, self.mat, uv)),
            None => None,
        }
    }

    fn bounding_box(&self) -> (bbox: &AABB) {
        &self.bbox
    }
}

/// A flat shape reports the first hit in a range: it has one crossing at
/// most.
pub proof fn lemma_quad_nearest_first(quad: &Quad, r: Ray, lo: Scalar)
    ensures
        nearest_first(quad, r, lo),
{
}

/// Within the range of a scene the frame of a flat shape is worked out
/// without a number leaving the range: the vector product of the edges is
/// exact but for the rounding of its products, the area is its length, the
/// normal is not the zero vector and has no component past one, and the
/// place of the plane along it is within three times the range.
pub proof fn lemma_frame_in_scene(q: Point, u: Vector, v: Vector, mat: usize, shape: Shape2D)
    requires
        q.in_scene(),
        u.in_scene(),
        v.in_scene(),
        u.cross_spec(v) != (Vec3::<Scalar> { e0: 0, e1: 0, e2: 0 }),
    ensures
        ({
            let quad = Quad::with_shape_spec(q, u, v, mat, shape);
            let n = u.cross_spec(v);
            &&& n.is_within(450_000_000_000_000_000)
            &&& n.e0 == trunc_div(u.e1 * v.e2, ONE as int) - trunc_div(u.e2 * v.e1, ONE as int)
            &&& n.e1 == trunc_div(u.e2 * v.e0, ONE as int) - trunc_div(u.e0 * v.e2, ONE as int)
            &&& n.e2 == trunc_div(u.e0 * v.e1, ONE as int) - trunc_div(u.e1 * v.e0, ONE as int)
            &&& quad.area == n.raw_length_spec()
            &&& 1 <= quad.area < 900_000_000_000_000_000
            &&& quad.normal == n.unit_vector_spec()
            &&& quad.normal != (Vec3::<Scalar> { e0: 0, e1: 0, e2: 0 })
            &&& quad.normal.is_within(ONE)
            &&& -3 * SCENE_LIMIT <= quad.d <= 3 * SCENE_LIMIT
        }),
{
    reveal(Quad::with_shape_spec);
    let n = u.cross_spec(v);
    lemma_products_within(u, v, SCENE_LIMIT);
    lemma_mul_exact(u.e1, v.e2, SCENE_LIMIT);
    lemma_mul_exact(u.e2, v.e1, SCENE_LIMIT);
    lemma_mul_exact(u.e2, v.e0, SCENE_LIMIT);
    lemma_mul_exact(u.e0, v.e2, SCENE_LIMIT);
    lemma_mul_exact(u.e0, v.e1, SCENE_LIMIT);
    lemma_mul_exact(u.e1, v.e0, SCENE_LIMIT);
    assert((SCENE_LIMIT * SCENE_LIMIT) / (ONE as int) == 225_000_000_000_000_000) by (nonlinear_arith);
    lemma_length_within(n, 450_000_000_000_000_000);
    lemma_unit_vector_non_zero(n);
    let normal = n.unit_vector_spec();
    lemma_mul_within_one(normal.e0, q.e0);
    lemma_mul_within_one(normal.e1, q.e1);
    lemma_mul_within_one(normal.e2, q.e2);
}

/// Whether the corner `q` and the edges `u` and `v` make a wall along the
/// axes `i` and `j` within the range of a scene: `u` lies along `i` and
/// `v` along another axis `j`, and the two span an area.
pub open spec fn is_wall(q: Point, u: Vector, v: Vector, i: int, j: int) -> bool {
    &&& q.in_scene() && u.in_scene() && v.in_scene()
    &&& 0 <= i < 3 && 0 <= j < 3 && i != j
    &&& u == (Vec3::<Scalar> { e0: 0, e1: 0, e2: 0 }).with(i, u.at(i))
    &&& v == (Vec3::<Scalar> { e0: 0, e1: 0, e2: 0 }).with(j, v.at(j))
    &&& mul_spec(u.at(i), v.at(j)) != 0
}

/// The frame of a wall: its area is the size of the product of its two
/// edges, and its normal is the unit vector of the third axis or the
/// opposite of that.
pub proof fn lemma_wall_frame(q: Point, u: Vector, v: Vector, mat: usize, i: int, j: int)
    requires
        is_wall(q, u, v, i, j),
    ensures
        ({
            let quad = Quad::with_shape_spec(q, u, v, mat, Shape2D::Parallelogram);
            let whole = mul_spec(u.at(i), v.at(j));
            &&& quad.q == q && quad.u == u && quad.v == v && quad.mat == mat
            &&& quad.shape == Shape2D::Parallelogram
            &&& quad.area == abs_spec(whole) && 1 <= quad.area < INFINITY
            &&& quad.normal == (Vec3::<Scalar> { e0: 0, e1: 0, e2: 0 }).with(
                3 - i - j,
                if in_turn(i, j) == (whole > 0) {
                    ONE
                } else {
                    MINUS_ONE
                },
            )
            &&& quad.d == quad.normal.dot_spec(q)
        }),
{
    reveal(Quad::with_shape_spec);
    let k = 3 - i - j;
    let n = u.cross_spec(v);
    lemma_mul_exact(u.at(i), v.at(j), SCENE_LIMIT);
    lemma_cross_on_axis(u, v, i, j);
    lemma_cross_on_axis(v, u, j, i);
    assert(n == (Vec3::<Scalar> { e0: 0, e1: 0, e2: 0 }).with(k, n.at(k)));
    lemma_axis_vector(n, k);
}

/// Where a ray along the normal of a wall meets its plane.
pub proof fn lemma_wall_crossing(quad: Quad, k: int, r: Ray)
    requires
        0 <= k < 3,
        quad.q.in_scene(),
        r.orig.in_scene(),
        quad.normal == (Vec3::<Scalar> { e0: 0, e1: 0, e2: 0 }).with(k, quad.normal.at(k)),
        quad.normal.at(k) == ONE || quad.normal.at(k) == MINUS_ONE,
        quad.d == quad.normal.dot_spec(quad.q),
        r.dir == (Vec3::<Scalar> { e0: 0, e1: 0, e2: 0 }).with(k, r.dir.at(k)),
        is_finite(r.dir.at(k)),
        abs_spec(r.dir.at(k)) >= PARALLEL,
    ensures
        quad.plane_t_spec(r) == Some(
            div_spec(sub_spec(quad.q.at(k), r.orig.at(k)), r.dir.at(k)),
        ),
{
    lemma_axis_dot(quad.normal, k, quad.q);
    lemma_axis_dot(quad.normal, k, r.orig);
    lemma_axis_dot(quad.normal, k, r.dir);
    let gap = sub_spec(quad.q.at(k), r.orig.at(k));
    assert((-gap) * ONE == -(gap * ONE)) by (nonlinear_arith);
}

/// A wall is hit in its middle by a ray that runs straight at it: a ray
/// that starts over `q + u/2 + v/2` and runs along the third axis is
/// reported where it meets the plane, with both surface coordinates
/// between nothing and one, whenever the parameter of that place lies in
/// the range.
pub proof fn lemma_middle_is_hit(
    q: Point,
    u: Vector,
    v: Vector,
    mat: usize,
    i: int,
    j: int,
    r: Ray,
    ray_t: Interval,
)
    requires
        is_wall(q, u, v, i, j),
        r.orig.in_scene(),
        r.orig.at(i) == add_spec(q.at(i), div_spec(u.at(i), TWO)),
        r.orig.at(j) == add_spec(q.at(j), div_spec(v.at(j), TWO)),
        r.dir == (Vec3::<Scalar> { e0: 0, e1: 0, e2: 0 }).with(3 - i - j, r.dir.at(3 - i - j)),
        is_finite(r.dir.at(3 - i - j)),
        abs_spec(r.dir.at(3 - i - j)) >= PARALLEL,
        ray_t.contains_spec(
            div_spec(sub_spec(q.at(3 - i - j), r.orig.at(3 - i - j)), r.dir.at(3 - i - j)),
        ),
    ensures
        ({
            let quad = Quad::with_shape_spec(q, u, v, mat, Shape2D::Parallelogram);
            let t = div_spec(
                sub_spec(q.at(3 - i - j), r.orig.at(3 - i - j)),
                r.dir.at(3 - i - j),
            );
            quad.hit_spec(r, ray_t) matches Some(rec) && rec.t == t && rec.p == r.at_spec(t) && 0
                <= rec.u <= ONE && 0 <= rec.v <= ONE && rec.mat == mat
        }),
{
    let k = 3 - i - j;
    let a = u.at(i);
    let b = v.at(j);
    let half_a = div_spec(a, TWO);
    let half_b = div_spec(b, TWO);
    let quad = Quad::with_shape_spec(q, u, v, mat, Shape2D::Parallelogram);
    lemma_wall_frame(q, u, v, mat, i, j);
    lemma_wall_crossing(quad, k, r);
    let t = div_spec(sub_spec(q.at(k), r.orig.at(k)), r.dir.at(k));
    let planar = r.at_spec(t).minus_spec(q);
    assert(planar.at(i) == half_a && planar.at(j) == half_b) by {
        lemma_half_share(a, b);
        lemma_half_share(b, a);
        assert(r.dir.at(i) == 0 && r.dir.at(j) == 0);
    }
    lemma_middle_share(quad, planar, i, j);
}

/// The surface coordinates of the place half an edge along each edge of a
/// wall lie between nothing and one.
proof fn lemma_middle_share(quad: Quad, planar: Vector, i: int, j: int)
    requires
        0 <= i < 3 && 0 <= j < 3 && i != j,
        quad.u.in_scene() && quad.v.in_scene(),
        quad.v == (Vec3::<Scalar> { e0: 0, e1: 0, e2: 0 }).with(j, quad.v.at(j)),
        quad.u == (Vec3::<Scalar> { e0: 0, e1: 0, e2: 0 }).with(i, quad.u.at(i)),
        planar.at(i) == div_spec(quad.u.at(i), TWO),
        planar.at(j) == div_spec(quad.v.at(j), TWO),
        quad.area == abs_spec(mul_spec(quad.u.at(i), quad.v.at(j))),
        1 <= quad.area < INFINITY,
        quad.normal == (Vec3::<Scalar> { e0: 0, e1: 0, e2: 0 }).with(
            3 - i - j,
            if in_turn(i, j) == (mul_spec(quad.u.at(i), quad.v.at(j)) > 0) {
                ONE
            } else {
                MINUS_ONE
            },
        ),
    ensures
        0 <= div_spec(quad.normal.dot_spec(planar.cross_spec(quad.v)), quad.area) <= ONE,
        0 <= div_spec(quad.normal.dot_spec(quad.u.cross_spec(planar)), quad.area) <= ONE,
{
    let k = 3 - i - j;
    let a = quad.u.at(i);
    let b = quad.v.at(j);
    lemma_half_share(a, b);
    lemma_half_share(b, a);
    lemma_mul_exact(a, b, SCENE_LIMIT);
    lemma_cross_on_axis(planar, quad.v, i, j);
    lemma_cross_on_axis(planar, quad.u, j, i);
    let with_v = planar.cross_spec(quad.v);
    let with_u = quad.u.cross_spec(planar);
    lemma_axis_dot(quad.normal, k, with_v);
    lemma_axis_dot(quad.normal, k, with_u);
    lemma_share_in_unit(quad.normal.dot_spec(with_v), quad.area);
    lemma_share_in_unit(quad.normal.dot_spec(with_u), quad.area);
}

/// The part along the normal of a vector `x` lies between nothing and
/// the area, where `x`, doubled, is close to the vector product `n` of
/// the edges but for a multiple of a vector `c` that has no part along the
/// normal: a place on the normal through the middle of a shape has half
/// the area on each side.
pub proof fn lemma_half_of_area(n: Vector, x: Vector, c: Vec3<int>, delta: int, size: int)
    requires
        n.e0 != 0 || n.e1 != 0 || n.e2 != 0,
        size >= 0,
        x.is_within(3_000_000_000_000_000_000),
        -(ONE * (12 * size + 6 * ONE)) <= ONE * ONE * (2 * x.e0 - n.e0) - 2 * (delta * c.e0) <= ONE
            * (12 * size + 6 * ONE),
        -(ONE * (12 * size + 6 * ONE)) <= ONE * ONE * (2 * x.e1 - n.e1) - 2 * (delta * c.e1) <= ONE
            * (12 * size + 6 * ONE),
        -(ONE * (12 * size + 6 * ONE)) <= ONE * ONE * (2 * x.e2 - n.e2) - 2 * (delta * c.e2) <= ONE
            * (12 * size + 6 * ONE),
        n.unit_vector_spec().e0 * c.e0 + n.unit_vector_spec().e1 * c.e1 + n.unit_vector_spec().e2
            * c.e2 == 0,
        ONE * n.raw_length_spec() >= 72 * size + 52 * ONE,
    ensures
        0 <= n.unit_vector_spec().dot_spec(x) <= n.raw_length_spec(),
{
    let unit = n.unit_vector_spec();
    let l = n.raw_length_spec();
    let bound = ONE * (12 * size + 6 * ONE);
    lemma_unit_vector_non_zero(n);
    lemma_unit_dot(n);
    lemma_mul_within_one(unit.e0, x.e0);
    lemma_mul_within_one(unit.e1, x.e1);
    lemma_mul_within_one(unit.e2, x.e2);
    lemma_mul_within_one_exact(unit.e0, x.e0);
    lemma_mul_within_one_exact(unit.e1, x.e1);
    lemma_mul_within_one_exact(unit.e2, x.e2);
    lemma_trunc_remainder(unit.e0 * x.e0);
    lemma_trunc_remainder(unit.e1 * x.e1);
    lemma_trunc_remainder(unit.e2 * x.e2);
    let s = unit.dot_spec(x);
    let m0 = mul_spec(unit.e0, x.e0);
    let m1 = mul_spec(unit.e1, x.e1);
    let m2 = mul_spec(unit.e2, x.e2);
    assert(s == m0 + m1 + m2);
    let sum = unit.e0 * x.e0 + unit.e1 * x.e1 + unit.e2 * x.e2;
    assert(-3 * ONE < sum - ONE * s < 3 * ONE) by (nonlinear_arith)
        requires
            s == m0 + m1 + m2,
            -ONE < unit.e0 * x.e0 - ONE * m0 < ONE,
            -ONE < unit.e1 * x.e1 - ONE * m1 < ONE,
            -ONE < unit.e2 * x.e2 - ONE * m2 < ONE,
            sum == unit.e0 * x.e0 + unit.e1 * x.e1 + unit.e2 * x.e2,
    ;
    let g = unit.e0 * n.e0 + unit.e1 * n.e1 + unit.e2 * n.e2;
    let r0 = lemma_part_of_gap(unit.e0 as int, x.e0 as int, n.e0 as int, c.e0, delta, bound);
    let r1 = lemma_part_of_gap(unit.e1 as int, x.e1 as int, n.e1 as int, c.e1, delta, bound);
    let r2 = lemma_part_of_gap(unit.e2 as int, x.e2 as int, n.e2 as int, c.e2, delta, bound);
    let along = unit.e0 * c.e0 + unit.e1 * c.e1 + unit.e2 * c.e2;
    assert(2 * (delta * (unit.e0 * c.e0)) + 2 * (delta * (unit.e1 * c.e1)) + 2 * (delta * (unit.e2
        * c.e2)) == 2 * (delta * along)) by (nonlinear_arith)
        requires
            along == unit.e0 * c.e0 + unit.e1 * c.e1 + unit.e2 * c.e2,
    ;
    assert(delta * along == 0) by (nonlinear_arith)
        requires
            along == 0,
    ;
    let gap = 2 * sum - g;
    assert(ONE * ONE * gap == r0 + r1 + r2) by (nonlinear_arith)
        requires
            gap == 2 * (unit.e0 * x.e0) + 2 * (unit.e1 * x.e1) + 2 * (unit.e2 * x.e2) - unit.e0
                * n.e0 - unit.e1 * n.e1 - unit.e2 * n.e2,
            ONE * ONE * (2 * (unit.e0 * x.e0) - unit.e0 * n.e0) == 2 * (delta * (unit.e0 * c.e0))
                + r0,
            ONE * ONE * (2 * (unit.e1 * x.e1) - unit.e1 * n.e1) == 2 * (delta * (unit.e1 * c.e1))
                + r1,
            ONE * ONE * (2 * (unit.e2 * x.e2) - unit.e2 * n.e2) == 2 * (delta * (unit.e2 * c.e2))
                + r2,
            2 * (delta * (unit.e0 * c.e0)) + 2 * (delta * (unit.e1 * c.e1)) + 2 * (delta * (unit.e2
                * c.e2)) == 0,
    ;
    assert(-(36 * size + 18 * ONE) <= gap <= 36 * size + 18 * ONE) by (nonlinear_arith)
        requires
            ONE * ONE * gap == r0 + r1 + r2,
            -(ONE * bound) <= r0 <= ONE * bound,
            -(ONE * bound) <= r1 <= ONE * bound,
            -(ONE * bound) <= r2 <= ONE * bound,
            bound == ONE * (12 * size + 6 * ONE),
    ;
    assert(2 * ((ONE - 3) * l) >= ONE * l) by (nonlinear_arith)
        requires
            l >= 0,
    ;
    assert(0 < 2 * (ONE * s) <= 2 * (ONE * l)) by (nonlinear_arith)
        requires
            -3 * ONE < sum - ONE * s < 3 * ONE,
            -(36 * size + 18 * ONE) <= 2 * sum - g <= 36 * size + 18 * ONE,
            (ONE - 3) * l <= g <= ONE * (l + 2),
            2 * ((ONE - 3) * l) >= ONE * l,
            ONE * l >= 72 * size + 52 * ONE,
            size >= 0,
    ;
    assert(0 <= s <= l) by (nonlinear_arith)
        requires
            0 < 2 * (ONE * s) <= 2 * (ONE * l),
    ;
}

/// One part of the normal's share in the gap: where a component `x`,
/// doubled, is the component `n` and twice `delta` times `c` over the
/// square of one, within `bound`, a part `k` of the normal times it is
/// so within one times `bound`. What is left over is handed back.
proof fn lemma_part_of_gap(k: int, x: int, n: int, c: int, delta: int, bound: int) -> (r: int)
    requires
        -ONE <= k <= ONE,
        -bound <= ONE * ONE * (2 * x - n) - 2 * (delta * c) <= bound,
    ensures
        ONE * ONE * (2 * (k * x) - k * n) == 2 * (delta * (k * c)) + r,
        -(ONE * bound) <= r <= ONE * bound,
{
    let e = ONE * ONE * (2 * x - n) - 2 * (delta * c);
    let r = k * e;
    assert(ONE * ONE * (2 * (k * x) - k * n) == 2 * (delta * (k * c)) + k * e) by (nonlinear_arith)
        requires
            e == ONE * ONE * (2 * x - n) - 2 * (delta * c),
    ;
    assert(-(ONE * bound) <= k * e <= ONE * bound) by (nonlinear_arith)
        requires
            -ONE <= k <= ONE,
            -bound <= e <= bound,
    ;
    r
}

/// The least area of a shape for which a place on the normal through its
/// middle is shown to lie inside it: eleven ten-thousandths.
pub const MIDDLE_AREA: Scalar = 1_100_000;

/// The exact vector product of two triples of integers.
pub open spec fn exact_cross(a: Vec3<int>, b: Vec3<int>) -> Vec3<int> {
    Vec3 {
        e0: a.e1 * b.e2 - a.e2 * b.e1,
        e1: a.e2 * b.e0 - a.e0 * b.e2,
        e2: a.e0 * b.e1 - a.e1 * b.e0,
    }
}

/// The triple of integers that a vector holds.
pub open spec fn exact(a: Vector) -> Vec3<int> {
    Vec3 { e0: a.e0 as int, e1: a.e1 as int, e2: a.e2 as int }
}

/// The vector products of a place `p` with each of two edges, where `p`
/// lies off the middle of the edges by `delta` times a vector `k` over
/// one: doubled, each is the vector product of the edges and twice `delta`
/// times a vector across `k`, over the square of one, within a few
/// billionths of the range of a scene.
proof fn lemma_off_middle_with_edge(p: Vector, u: Vector, v: Vector, k: Vector, delta: int)
    requires
        u.in_scene(),
        v.in_scene(),
        p.in_scene(),
        -6 * ONE <= ONE * (u.e0 + v.e0) + 2 * (delta * k.e0) - 2 * (ONE * p.e0) <= 6 * ONE,
        -6 * ONE <= ONE * (u.e1 + v.e1) + 2 * (delta * k.e1) - 2 * (ONE * p.e1) <= 6 * ONE,
        -6 * ONE <= ONE * (u.e2 + v.e2) + 2 * (delta * k.e2) - 2 * (ONE * p.e2) <= 6 * ONE,
    ensures
        ({
            let n = u.cross_spec(v);
            let with_v = p.cross_spec(v);
            let with_u = u.cross_spec(p);
            let cv = exact_cross(exact(k), exact(v));
            let cu = exact_cross(exact(u), exact(k));
            let b = ONE * (12 * SCENE_LIMIT + 6 * ONE);
            &&& with_v.is_within(3_000_000_000_000_000_000)
            &&& with_u.is_within(3_000_000_000_000_000_000)
            &&& -b <= ONE * ONE * (2 * with_v.e0 - n.e0) - 2 * (delta * cv.e0) <= b
            &&& -b <= ONE * ONE * (2 * with_v.e1 - n.e1) - 2 * (delta * cv.e1) <= b
            &&& -b <= ONE * ONE * (2 * with_v.e2 - n.e2) - 2 * (delta * cv.e2) <= b
            &&& -b <= ONE * ONE * (2 * with_u.e0 - n.e0) - 2 * (delta * cu.e0) <= b
            &&& -b <= ONE * ONE * (2 * with_u.e1 - n.e1) - 2 * (delta * cu.e1) <= b
            &&& -b <= ONE * ONE * (2 * with_u.e2 - n.e2) - 2 * (delta * cu.e2) <= b
            &&& k.e0 * cv.e0 + k.e1 * cv.e1 + k.e2 * cv.e2 == 0
            &&& k.e0 * cu.e0 + k.e1 * cu.e1 + k.e2 * cu.e2 == 0
        }),
{
    let n = u.cross_spec(v);
    let with_v = p.cross_spec(v);
    let with_u = u.cross_spec(p);
    let cv = exact_cross(exact(k), exact(v));
    let cu = exact_cross(exact(u), exact(k));
    let s: int = SCENE_LIMIT as int;
    lemma_products_within(p, v, SCENE_LIMIT);
    lemma_products_within(u, p, SCENE_LIMIT);
    assert((SCENE_LIMIT * SCENE_LIMIT) / (ONE as int) == 225_000_000_000_000_000) by (nonlinear_arith);
    lemma_cross_exact(u, v);
    lemma_cross_exact(p, v);
    lemma_cross_exact(u, p);
    lemma_cross_off_middle(
        p.e1 as int,
        p.e2 as int,
        u.e1 as int,
        u.e2 as int,
        v.e1 as int,
        v.e2 as int,
        k.e1 as int,
        k.e2 as int,
        delta,
        with_v.e0 as int,
        n.e0 as int,
        s,
    );
    lemma_cross_off_middle(
        p.e2 as int,
        p.e0 as int,
        u.e2 as int,
        u.e0 as int,
        v.e2 as int,
        v.e0 as int,
        k.e2 as int,
        k.e0 as int,
        delta,
        with_v.e1 as int,
        n.e1 as int,
        s,
    );
    lemma_cross_off_middle(
        p.e0 as int,
        p.e1 as int,
        u.e0 as int,
        u.e1 as int,
        v.e0 as int,
        v.e1 as int,
        k.e0 as int,
        k.e1 as int,
        delta,
        with_v.e2 as int,
        n.e2 as int,
        s,
    );
    // With the other edge the two vectors change places, and both signs with them.
    assert(p.e1 * u.e2 == u.e2 * p.e1 && p.e2 * u.e1 == u.e1 * p.e2 && p.e2 * u.e0 == u.e0 * p.e2
        && p.e0 * u.e2 == u.e2 * p.e0 && p.e0 * u.e1 == u.e1 * p.e0 && p.e1 * u.e0 == u.e0 * p.e1)
        by (nonlinear_arith);
    assert(v.e1 * u.e2 == u.e2 * v.e1 && v.e2 * u.e1 == u.e1 * v.e2 && v.e2 * u.e0 == u.e0 * v.e2
        && v.e0 * u.e2 == u.e2 * v.e0 && v.e0 * u.e1 == u.e1 * v.e0 && v.e1 * u.e0 == u.e0 * v.e1)
        by (nonlinear_arith);
    assert(k.e1 * u.e2 - k.e2 * u.e1 == -cu.e0 && k.e2 * u.e0 - k.e0 * u.e2 == -cu.e1 && k.e0 * u.e1
        - k.e1 * u.e0 == -cu.e2) by (nonlinear_arith)
        requires
            cu.e0 == u.e1 * k.e2 - u.e2 * k.e1,
            cu.e1 == u.e2 * k.e0 - u.e0 * k.e2,
            cu.e2 == u.e0 * k.e1 - u.e1 * k.e0,
    ;
    lemma_cross_off_middle(
        p.e1 as int,
        p.e2 as int,
        v.e1 as int,
        v.e2 as int,
        u.e1 as int,
        u.e2 as int,
        k.e1 as int,
        k.e2 as int,
        delta,
        -with_u.e0,
        -n.e0,
        s,
    );
    lemma_cross_off_middle(
        p.e2 as int,
        p.e0 as int,
        v.e2 as int,
        v.e0 as int,
        u.e2 as int,
        u.e0 as int,
        k.e2 as int,
        k.e0 as int,
        delta,
        -with_u.e1,
        -n.e1,
        s,
    );
    lemma_cross_off_middle(
        p.e0 as int,
        p.e1 as int,
        v.e0 as int,
        v.e1 as int,
        u.e0 as int,
        u.e1 as int,
        k.e0 as int,
        k.e1 as int,
        delta,
        -with_u.e2,
        -n.e2,
        s,
    );
    assert(delta * (-cu.e0) == -(delta * cu.e0) && delta * (-cu.e1) == -(delta * cu.e1) && delta * (
    -cu.e2) == -(delta * cu.e2)) by (nonlinear_arith);
    assert(ONE * ONE * (2 * (-with_u.e0) - (-n.e0)) == -(ONE * ONE * (2 * with_u.e0 - n.e0)) && ONE
        * ONE * (2 * (-with_u.e1) - (-n.e1)) == -(ONE * ONE * (2 * with_u.e1 - n.e1)) && ONE * ONE
        * (2 * (-with_u.e2) - (-n.e2)) == -(ONE * ONE * (2 * with_u.e2 - n.e2))) by (nonlinear_arith);
    assert(k.e0 * cv.e0 + k.e1 * cv.e1 + k.e2 * cv.e2 == 0) by (nonlinear_arith)
        requires
            cv.e0 == k.e1 * v.e2 - k.e2 * v.e1,
            cv.e1 == k.e2 * v.e0 - k.e0 * v.e2,
            cv.e2 == k.e0 * v.e1 - k.e1 * v.e0,
    ;
    assert(k.e0 * cu.e0 + k.e1 * cu.e1 + k.e2 * cu.e2 == 0) by (nonlinear_arith)
        requires
            cu.e0 == u.e1 * k.e2 - u.e2 * k.e1,
            cu.e1 == u.e2 * k.e0 - u.e0 * k.e2,
            cu.e2 == u.e0 * k.e1 - u.e1 * k.e0,
    ;
}

/// The vector product of two vectors within the range of a scene is the
/// difference of the exact products over one, each rounded once.
proof fn lemma_cross_exact(a: Vector, b: Vector)
    requires
        a.in_scene(),
        b.in_scene(),
    ensures
        a.cross_spec(b).e0 == trunc_div(a.e1 * b.e2, ONE as int) - trunc_div(a.e2 * b.e1, ONE as int),
        a.cross_spec(b).e1 == trunc_div(a.e2 * b.e0, ONE as int) - trunc_div(a.e0 * b.e2, ONE as int),
        a.cross_spec(b).e2 == trunc_div(a.e0 * b.e1, ONE as int) - trunc_div(a.e1 * b.e0, ONE as int),
{
    lemma_mul_exact(a.e1, b.e2, SCENE_LIMIT);
    lemma_mul_exact(a.e2, b.e1, SCENE_LIMIT);
    lemma_mul_exact(a.e2, b.e0, SCENE_LIMIT);
    lemma_mul_exact(a.e0, b.e2, SCENE_LIMIT);
    lemma_mul_exact(a.e0, b.e1, SCENE_LIMIT);
    lemma_mul_exact(a.e1, b.e0, SCENE_LIMIT);
    assert((SCENE_LIMIT * SCENE_LIMIT) / (ONE as int) == 225_000_000_000_000_000) by (nonlinear_arith);
}

/// A quotient by a quarter at least is no more than four times the number
/// that is divided, in size.
proof fn lemma_div_by_quarter(x: Scalar, d: Scalar)
    requires
        -2_000_000_000_000_000_000 <= x <= 2_000_000_000_000_000_000,
        250_000_000 <= d < INFINITY,
    ensures
        x >= 0 ==> 0 <= div_spec(x, d) <= 4 * x,
        x <= 0 ==> 4 * x <= div_spec(x, d) <= 0,
{
    let m: int = if x >= 0 { x as int } else { -(x as int) };
    assert(m * ONE >= 0 && m * ONE == (if x >= 0 { x * ONE } else { -(x * ONE) }) && m * ONE == (4
        * m) * 250_000_000) by (nonlinear_arith)
        requires
            m == (if x >= 0 { x as int } else { -(x as int) }),
    ;
    vstd::arithmetic::div_mod::lemma_div_pos_is_pos(m * ONE, d as int);
    vstd::arithmetic::div_mod::lemma_div_is_ordered_by_denominator(m * ONE, 250_000_000, d as int);
    vstd::arithmetic::div_mod::lemma_div_multiples_vanish(4 * m, 250_000_000);
    assert(((4 * m) * 250_000_000) / 250_000_000 == 4 * m) by (nonlinear_arith)
        requires
            (250_000_000 * (4 * m)) / 250_000_000 == 4 * m,
    ;
}

/// A ray along the normal of a shape within the range of a scene, from an
/// origin within it, meets the plane of the shape at a parameter that is
/// a number.
proof fn lemma_normal_ray_meets_plane(quad: Quad, n: Vector, r: Ray)
    requires
        n.e0 != 0 || n.e1 != 0 || n.e2 != 0,
        quad.normal == n.unit_vector_spec(),
        -3 * SCENE_LIMIT <= quad.d <= 3 * SCENE_LIMIT,
        r.dir == quad.normal,
        r.orig.in_scene(),
    ensures
        quad.plane_t_spec(r) matches Some(t) && -24 * SCENE_LIMIT <= t <= 24 * SCENE_LIMIT,
{
    lemma_unit_vector_long(n);
    lemma_unit_vector_non_zero(n);
    lemma_mul_within_one(quad.normal.e0, r.orig.e0);
    lemma_mul_within_one(quad.normal.e1, r.orig.e1);
    lemma_mul_within_one(quad.normal.e2, r.orig.e2);
    let num = sub_spec(quad.d, quad.normal.dot_spec(r.orig));
    let denom = quad.normal.dot_spec(r.dir);
    assert(-6 * SCENE_LIMIT <= num <= 6 * SCENE_LIMIT);
    lemma_div_by_quarter(num, denom);
}

/// Where a ray along the normal of a shape, from a place on the normal
/// through the middle of the shape, is at the parameter `t`: off the
/// middle by `t` less the way `b` to the origin, times the normal.
proof fn lemma_normal_ray_place(q: Point, u: Vector, v: Vector, normal: Vector, b: Scalar, r: Ray, t: Scalar)
    requires
        q.in_scene(),
        u.in_scene(),
        v.in_scene(),
        normal.is_within(ONE),
        -SCENE_LIMIT <= b <= SCENE_LIMIT,
        -24 * SCENE_LIMIT <= t <= 24 * SCENE_LIMIT,
        r.dir == normal,
        r.orig == q.plus_spec(u.divided_spec(TWO)).plus_spec(v.divided_spec(TWO)).minus_spec(
            normal.scaled_spec(b),
        ),
    ensures
        ({
            let p = r.at_spec(t).minus_spec(q);
            let delta = t - b;
            &&& -6 * ONE <= ONE * (u.e0 + v.e0) + 2 * (delta * normal.e0) - 2 * (ONE * p.e0) <= 6 * ONE
            &&& -6 * ONE <= ONE * (u.e1 + v.e1) + 2 * (delta * normal.e1) - 2 * (ONE * p.e1) <= 6 * ONE
            &&& -6 * ONE <= ONE * (u.e2 + v.e2) + 2 * (delta * normal.e2) - 2 * (ONE * p.e2) <= 6 * ONE
        }),
{
    lemma_normal_ray_coordinate(q.e0, u.e0, v.e0, normal.e0, b, t);
    lemma_normal_ray_coordinate(q.e1, u.e1, v.e1, normal.e1, b, t);
    lemma_normal_ray_coordinate(q.e2, u.e2, v.e2, normal.e2, b, t);
}

/// The same for one coordinate.
proof fn lemma_normal_ray_coordinate(q: Scalar, u: Scalar, v: Scalar, k: Scalar, b: Scalar, t: Scalar)
    requires
        -SCENE_LIMIT <= q <= SCENE_LIMIT,
        -SCENE_LIMIT <= u <= SCENE_LIMIT,
        -SCENE_LIMIT <= v <= SCENE_LIMIT,
        MINUS_ONE <= k <= ONE,
        -SCENE_LIMIT <= b <= SCENE_LIMIT,
        -24 * SCENE_LIMIT <= t <= 24 * SCENE_LIMIT,
    ensures
        ({
            let orig = sub_spec(
                add_spec(add_spec(q, div_spec(u, TWO)), div_spec(v, TWO)),
                mul_spec(k, b),
            );
            let p = sub_spec(add_spec(orig, mul_spec(k, t)), q);
            -6 * ONE <= ONE * (u + v) + 2 * ((t - b) * k) - 2 * (ONE * p) <= 6 * ONE
        }),
{
    lemma_half_close(u);
    lemma_half_close(v);
    lemma_mul_within_one(k, b);
    lemma_mul_within_one(k, t);
    lemma_mul_within_one_exact(k, b);
    lemma_mul_within_one_exact(k, t);
    lemma_trunc_remainder(k * b);
    lemma_trunc_remainder(k * t);
    let hu = div_spec(u, TWO);
    let hv = div_spec(v, TWO);
    let kb = mul_spec(k, b);
    let kt = mul_spec(k, t);
    let orig = sub_spec(add_spec(add_spec(q, hu), hv), kb);
    let p = sub_spec(add_spec(orig, kt), q);
    assert(p == hu + hv - kb + kt);
    assert((t - b) * k == k * t - k * b) by (nonlinear_arith);
    assert(2 * (ONE * p) == ONE * (2 * hu) + ONE * (2 * hv) - 2 * (ONE * kb) + 2 * (ONE * kt))
        by (nonlinear_arith)
        requires
            p == hu + hv - kb + kt,
    ;
    assert(ONE * (u + v) - ONE * (2 * hu) - ONE * (2 * hv) == ONE * ((u - 2 * hu) + (v - 2 * hv))
        && -2 * ONE <= ONE * ((u - 2 * hu) + (v - 2 * hv)) <= 2 * ONE) by (nonlinear_arith)
        requires
            -1 <= u - 2 * hu <= 1,
            -1 <= v - 2 * hv <= 1,
    ;
}

/// A ray along the normal through the middle of a parallelogram hits it,
/// however the parallelogram is turned: for edges and a corner within the
/// range of a scene and an area of at least `MIDDLE_AREA`, a ray whose
/// direction is the normal and whose origin lies back from
/// `q + u/2 + v/2` by `b` times the normal meets the plane at a parameter
/// that is a number; and where that parameter lies in the range, and the
/// place within the range of a scene round the corner, the place is
/// reported, with both surface coordinates between nothing and one.
pub proof fn lemma_normal_ray_hits(
    q: Point,
    u: Vector,
    v: Vector,
    mat: usize,
    b: Scalar,
    r: Ray,
    ray_t: Interval,
)
    requires
        q.in_scene(),
        u.in_scene(),
        v.in_scene(),
        u.cross_spec(v).length_spec() >= MIDDLE_AREA,
        -SCENE_LIMIT <= b <= SCENE_LIMIT,
        r.dir == Quad::with_shape_spec(q, u, v, mat, Shape2D::Parallelogram).normal,
        r.orig == q.plus_spec(u.divided_spec(TWO)).plus_spec(v.divided_spec(TWO)).minus_spec(
            r.dir.scaled_spec(b),
        ),
        r.orig.in_scene(),
    ensures
        ({
            let quad = Quad::with_shape_spec(q, u, v, mat, Shape2D::Parallelogram);
            quad.plane_t_spec(r) matches Some(t) && is_finite(t) && (ray_t.contains_spec(t)
                && r.at_spec(t).minus_spec(q).in_scene() ==> (quad.hit_spec(r, ray_t) matches Some(
                rec,
            ) && rec.t == t && rec.p == r.at_spec(t) && 0 <= rec.u <= ONE && 0 <= rec.v <= ONE
                && rec.mat == mat))
        }),
{
    reveal(Quad::with_shape_spec);
    let quad = Quad::with_shape_spec(q, u, v, mat, Shape2D::Parallelogram);
    let n = u.cross_spec(v);
    lemma_length_non_negative(n);
    if n.e0 == 0 && n.e1 == 0 && n.e2 == 0 {
        assert(n.raw_square_spec() == 0) by {
            assert(0int * 0int == 0);
        }
        assert(is_int_sqrt(0, 0));
        lemma_int_sqrt_unique(0, 0, n.raw_length_spec());
    }
    lemma_frame_in_scene(q, u, v, mat, Shape2D::Parallelogram);
    lemma_normal_ray_meets_plane(quad, n, r);
    let t = quad.plane_t_spec(r)->0;
    let p = r.at_spec(t).minus_spec(q);
    if ray_t.contains_spec(t) && p.in_scene() {
        let l = n.raw_length_spec();
        let delta = t - b;
        lemma_normal_ray_place(q, u, v, quad.normal, b, r, t);
        lemma_off_middle_with_edge(p, u, v, quad.normal, delta);
        let with_v = p.cross_spec(v);
        let with_u = u.cross_spec(p);
        assert(ONE * l >= 72 * SCENE_LIMIT + 52 * ONE) by (nonlinear_arith)
            requires
                l >= 1_100_000,
                SCENE_LIMIT == 15_000_000_000_000,
                ONE == 1_000_000_000,
        ;
        lemma_half_of_area(
            n,
            with_v,
            exact_cross(exact(quad.normal), exact(v)),
            delta,
            SCENE_LIMIT as int,
        );
        lemma_half_of_area(
            n,
            with_u,
            exact_cross(exact(u), exact(quad.normal)),
            delta,
            SCENE_LIMIT as int,
        );
        lemma_share_in_unit(quad.normal.dot_spec(with_v), quad.area);
        lemma_share_in_unit(quad.normal.dot_spec(with_u), quad.area);
    }
}

} // verus!
