//! Surfaces that a ray can hit, and the wrappers that move and turn them.

use vstd::prelude::*;
use crate::aabb::{
    AABB, TURN_LIMIT, close_after_turns, near_after_turns, rotate_point, rotate_point_spec,
    lemma_angle_round_trip, lemma_rotate_high_axis, lemma_turn_round_trip_close,
};
use crate::interval::Interval;
use crate::math::{degrees_to_radians, degrees_to_radians_spec, sin_cos, sin_cos_spec};
use crate::ray::Ray;
use crate::scalar::{Scalar, ONE, MINUS_ONE, neg_spec, fx_neg};
use crate::vec3::{Point, Vector};

verus! {

/// Where and how a ray meets a surface.
#[derive(Clone, Copy, Debug, PartialEq, Eq)]
pub struct HitRecord {
    /// The parameter of the ray at the hit.
    pub t: Scalar,
    /// The point of the hit.
    pub p: Point,
    /// Whether the ray comes from outside the surface.
    pub front_face: bool,
    /// The normal of the surface, turned against the ray.
    pub normal: Vector,
    /// The place of the surface's material in the table of materials.
    pub mat: usize,
    /// The coordinates of the hit on the surface.
    pub u: Scalar,
    pub v: Scalar,
}

impl HitRecord {
/// The record of a hit at `t` and `p`. The ray comes from outside where it
/// runs against the outward normal; the normal of the record is the outward
/// normal there, and its opposite elsewhere.
    pub open spec fn new_spec(
        r: Ray,
        t: Scalar,
        p: Point,
        outward_normal: Vector,
        mat: usize,
        uv: (Scalar, Scalar),
    ) -> Self {
        let front_face = r.dir.dot_spec(outward_normal) < 0;
        HitRecord {
            t,
            p,
            front_face,
            normal: if front_face {
                outward_normal
            } else {
                outward_normal.neg_spec()
            },
            mat,
            u: uv.0,
            v: uv.1,
        }
    }

    /// The record of a hit, with the normal turned against the ray.
    pub fn new(
        r: &Ray,
        t: Scalar,
        p: Point,
        outward_normal: Vector,
        mat: usize,
        uv: (Scalar, Scalar),
    ) -> (rec: Self)
        ensures
            rec == Self::new_spec(*r, t, p, outward_normal, mat, uv),
    {
        let front_face = r.direction().dot(&outward_normal) < 0;
        let normal = if front_face {
            outward_normal
        } else {
            outward_normal.negated()
        };
        HitRecord { t, p, front_face, normal, mat, u: uv.0, v: uv.1 }
    }
}

/// The parameter of a hit, if there is one.
pub open spec fn hit_t(h: Option<HitRecord>) -> Option<Scalar> {
    match h {
        Some(rec) => Some(rec.t),
        None => None,
    }
}

/// Anything that a ray can hit.
pub trait Hittable: Send + Sync {
    /// Whether the surface answers a ray in one way only: `hit_spec` then
    /// says in which. A surface that draws random numbers is not steady.
    open spec fn steady(&self) -> bool {
        arbitrary()
    }

    /// The hit of the ray `r` within the range `ray_t` of its parameter,
    /// for a steady surface. Every steady surface of this library says what
    /// it is; a surface from elsewhere may leave it open.
    open spec fn hit_spec(&self, r: Ray, ray_t: Interval) -> Option<HitRecord> {
        arbitrary()
    }

    /// The box that the surface is held to lie in.
    open spec fn bounding_box_spec(&self) -> AABB {
        arbitrary()
    }

    /// Whether `res` is something that the surface can report for the ray
    /// `r` within `ray_t`. A surface that answers in one way only has one
    /// such report; mist has one for each draw; a group has those that the
    /// reports of its members make up.
    open spec fn hit_ok(&self, r: Ray, ray_t: Interval, res: Option<HitRecord>) -> bool {
        arbitrary()
    }

    /// The hit of the ray within `ray_t`, if there is one. Steady or not,
    /// a surface reports no hit outside the range it is asked for.
    fn hit(&self, r: &Ray, ray_t: Interval) -> (res: Option<HitRecord>)
        ensures
            self.hit_ok(*r, ray_t, res),
            self.steady() ==> res == self.hit_spec(*r, ray_t),
            res matches Some(rec) ==> ray_t.min <= rec.t <= ray_t.max,
    ;

    fn bounding_box(&self) -> (bbox: &AABB)
        ensures
            *bbox == self.bounding_box_spec(),
    ;
}

impl<T: Hittable + ?Sized> Hittable for Box<T> {
    open spec fn steady(&self) -> bool {
        (**self).steady()
    }

    open spec fn hit_spec(&self, r: Ray, ray_t: Interval) -> Option<HitRecord> {
        (**self).hit_spec(r, ray_t)
    }

    open spec fn bounding_box_spec(&self) -> AABB {
        (**self).bounding_box_spec()
    }

    open spec fn hit_ok(&self, r: Ray, ray_t: Interval, res: Option<HitRecord>) -> bool {
        (**self).hit_ok(r, ray_t, res)
    }

    fn hit(&self, r: &Ray, ray_t: Interval) -> (res: Option<HitRecord>) {
        (**self).hit(r, ray_t)
    }

    fn bounding_box(&self) -> (bbox: &AABB) {
        (**self).bounding_box()
    }
}

/// A surface moved by an offset.
pub struct Translate<H> {
    pub object: H,
    pub offset: Vector,
    pub bbox: AABB,
}

impl<H: Hittable> Translate<H> {
    /// The ray as the surface inside sees it: moved back by the offset.
    pub open spec fn local_ray_spec(&self, r: Ray) -> Ray {
        Ray { orig: r.orig.minus_spec(self.offset), dir: r.dir, tm: r.tm }
    }

    /// The record of the surface inside moved forward by the offset.
    pub open spec fn world_record_spec(&self, rec: HitRecord) -> HitRecord {
        HitRecord { p: rec.p.plus_spec(self.offset), ..rec }
    }

    /// The report of the surface inside moved forward by the offset.
    pub open spec fn world_hit_spec(&self, inner: Option<HitRecord>) -> Option<HitRecord> {
        match inner {
            Some(rec) => Some(self.world_record_spec(rec)),
            None => None,
        }
    }

/// The surface `object` moved by `offset`.
    pub fn new(object: H, offset: Vector) -> (res: Self)
        ensures
            res.object == object,
            res.offset == offset,
            res.bbox == object.bounding_box_spec().translate_spec(offset),
    {
        let bbox = object.bounding_box().translate(&offset);
        Translate { object, offset, bbox }
    }
}

impl<H: Hittable> Hittable for Translate<H> {
    open spec fn steady(&self) -> bool {
        self.object.steady()
    }

    /// What the surface inside can report for the ray moved back, moved
    /// forward.
    open spec fn hit_ok(&self, r: Ray, ray_t: Interval, res: Option<HitRecord>) -> bool {
        exists|inner: Option<HitRecord>| #[trigger]
            self.object.hit_ok(self.local_ray_spec(r), ray_t, inner) && res
                == self.world_hit_spec(inner)
    }

    open spec fn hit_spec(&self, r: Ray, ray_t: Interval) -> Option<HitRecord> {
        match self.object.hit_spec(self.local_ray_spec(r), ray_t) {
            Some(rec) => Some(self.world_record_spec(rec)),
            None => None,
        }
    }

    open spec fn bounding_box_spec(&self) -> AABB {
        self.bbox
    }

    fn hit(&self, r: &Ray, ray_t: Interval) -> (res: Option<HitRecord>) {
        let offset_r = Ray::with_time(r.origin().minus(&self.offset), *r.direction(), r.time());
        let inner = self.object.hit(&offset_r, ray_t);
        let res = match inner {
            Some(rec) => {
                let mut rec = rec;
                rec.p = rec.p.plus(&self.offset);
                Some(rec)
            },
            None => None,
        };
        proof {
            assert(self.object.hit_ok(self.local_ray_spec(*r), ray_t, inner));
            assert(res == self.world_hit_spec(inner));
        }
        res
    }

    fn bounding_box(&self) -> (bbox: &AABB) {
        &self.bbox
    }
}

/// The hit point of a moved surface is the hit point that the surface inside
/// reports for the ray moved back, moved forward again; and the one hits
/// exactly when the other does.
pub proof fn lemma_translate_round_trip<H: Hittable>(tr: &Translate<H>, r: Ray, ray_t: Interval)
    ensures
        ({
            let back = Ray { orig: r.orig.plus_spec(tr.offset.neg_spec()), dir: r.dir, tm: r.tm };
            let inner = tr.object.hit_spec(back, ray_t);
            let outer = tr.hit_spec(r, ray_t);
            &&& outer is Some <==> inner is Some
            &&& outer is Some ==> outer->0.p == inner->0.p.plus_spec(tr.offset)
            &&& outer is Some ==> outer->0.t == inner->0.t
        }),
{
}

/// A surface turned about one of the axes.
pub struct RotateY<H> {
    pub object: H,
    /// The axis of the turn: 0, 1 or 2; a greater number counts as 2.
    pub axis: usize,
    pub sin_theta: Scalar,
    pub cos_theta: Scalar,
    pub bbox: AABB,
}

impl<H: Hittable> RotateY<H> {
    /// From the world to the frame of the surface inside.
    pub open spec fn transform_spec(&self, v: Vector) -> Vector {
        rotate_point_spec(v, self.axis as int, neg_spec(self.sin_theta), self.cos_theta)
    }

    /// From the frame of the surface inside to the world.
    pub open spec fn transform_back_spec(&self, v: Vector) -> Vector {
        rotate_point_spec(v, self.axis as int, self.sin_theta, self.cos_theta)
    }

    /// The ray as the surface inside sees it: turned back.
    pub open spec fn local_ray_spec(&self, r: Ray) -> Ray {
        Ray { orig: self.transform_spec(r.orig), dir: self.transform_spec(r.dir), tm: r.tm }
    }

    /// The record of the surface inside with its point and normal turned
    /// forward.
    pub open spec fn world_record_spec(&self, rec: HitRecord) -> HitRecord {
        HitRecord {
            p: self.transform_back_spec(rec.p),
            normal: self.transform_back_spec(rec.normal),
            ..rec
        }
    }

    /// The report of the surface inside turned forward.
    pub open spec fn world_hit_spec(&self, inner: Option<HitRecord>) -> Option<HitRecord> {
        match inner {
            Some(rec) => Some(self.world_record_spec(rec)),
            None => None,
        }
    }

    /// The surface `object` turned about the second axis by `angle` degrees.
    pub fn new(object: H, angle: Scalar) -> (res: Self)
        ensures
            res.object == object,
            res.axis == 1,
            res.sin_theta == sin_cos_spec(degrees_to_radians_spec(angle)).0,
            res.cos_theta == sin_cos_spec(degrees_to_radians_spec(angle)).1,
            res.bbox == object.bounding_box_spec().rotate_spec(1, degrees_to_radians_spec(angle)),
            object.bounding_box_spec().is_within(TURN_LIMIT) ==> res.bbox.is_padded(),
    {
        let radians: Scalar = degrees_to_radians(angle);
        let (sin_theta, cos_theta): (Scalar, Scalar) = sin_cos(radians);
        let bbox = object.bounding_box().rotate::<1>(radians);
        RotateY { object, axis: 1, sin_theta, cos_theta, bbox }
    }

    /// The surface `object` turned about `axis` by `angle` degrees.
    pub fn about(object: H, axis: usize, angle: Scalar) -> (res: Self)
        ensures
            res.object == object,
            res.axis == axis,
            res.sin_theta == sin_cos_spec(degrees_to_radians_spec(angle)).0,
            res.cos_theta == sin_cos_spec(degrees_to_radians_spec(angle)).1,
            res.bbox == object.bounding_box_spec().rotate_spec(
                axis as int,
                degrees_to_radians_spec(angle),
            ),
            object.bounding_box_spec().is_within(TURN_LIMIT) ==> res.bbox.is_padded(),
    {
        let radians: Scalar = degrees_to_radians(angle);
        let (sin_theta, cos_theta): (Scalar, Scalar) = sin_cos(radians);
        let bbox = if axis == 0 {
            object.bounding_box().rotate::<0>(radians)
        } else if axis == 1 {
            object.bounding_box().rotate::<1>(radians)
        } else {
            let turned = object.bounding_box().rotate::<2>(radians);
            proof {
                lemma_rotate_high_axis(object.bounding_box_spec(), axis as int, radians);
            }
            turned
        };
        RotateY { object, axis, sin_theta, cos_theta, bbox }
    }

/// From the world to the frame of the surface inside.
    pub fn transform(&self, v: &Vector) -> (r: Vector)
        ensures
            r == self.transform_spec(*v),
    {
        rotate_point(v, self.axis, fx_neg(self.sin_theta), self.cos_theta)
    }

/// From the frame of the surface inside to the world.
    pub fn transform_back(&self, v: &Vector) -> (r: Vector)
        ensures
            r == self.transform_back_spec(*v),
    {
        rotate_point(v, self.axis, self.sin_theta, self.cos_theta)
    }
}

impl<H: Hittable> Hittable for RotateY<H> {
    open spec fn steady(&self) -> bool {
        self.object.steady()
    }

    /// What the surface inside can report for the ray turned back, turned
    /// forward.
    open spec fn hit_ok(&self, r: Ray, ray_t: Interval, res: Option<HitRecord>) -> bool {
        exists|inner: Option<HitRecord>| #[trigger]
            self.object.hit_ok(self.local_ray_spec(r), ray_t, inner) && res
                == self.world_hit_spec(inner)
    }

    open spec fn hit_spec(&self, r: Ray, ray_t: Interval) -> Option<HitRecord> {
        match self.object.hit_spec(self.local_ray_spec(r), ray_t) {
            Some(rec) => Some(self.world_record_spec(rec)),
            None => None,
        }
    }

    open spec fn bounding_box_spec(&self) -> AABB {
        self.bbox
    }

    fn hit(&self, r: &Ray, ray_t: Interval) -> (res: Option<HitRecord>) {
        let origin = self.transform(r.origin());
        let direction = self.transform(r.direction());
        let rotated_r = Ray::with_time(origin, direction, r.time());
        let inner = self.object.hit(&rotated_r, ray_t);
        let res = match inner {
            Some(rec) => {
                let mut rec = rec;
                rec.p = self.transform_back(&rec.p);
                rec.normal = self.transform_back(&rec.normal);
                Some(rec)
            },
            None => None,
        };
        proof {
            assert(self.object.hit_ok(self.local_ray_spec(*r), ray_t, inner));
            assert(res == self.world_hit_spec(inner));
        }
        res
    }

    fn bounding_box(&self) -> (bbox: &AABB) {
        &self.bbox
    }
}

/// A point that is turned into the frame of the surface inside and turned
/// back into the world comes back close to where it was, whatever the
/// angle: each coordinate within its share of the defect of the sine and
/// the cosine, and six billionths more. So does one turned the other way
/// round, as by a turn and the opposite turn round it.
pub proof fn lemma_rotate_round_trip_close<H: Hittable>(rot: &RotateY<H>, p: Point)
    requires
        -TURN_LIMIT <= 2 * p.e0 <= TURN_LIMIT,
        -TURN_LIMIT <= 2 * p.e1 <= TURN_LIMIT,
        -TURN_LIMIT <= 2 * p.e2 <= TURN_LIMIT,
        MINUS_ONE <= rot.sin_theta <= ONE,
        MINUS_ONE <= rot.cos_theta <= ONE,
    ensures
        ({
            let back = rot.transform_back_spec(rot.transform_spec(p));
            &&& close_after_turns(p.e0, back.e0, rot.sin_theta, rot.cos_theta)
            &&& close_after_turns(p.e1, back.e1, rot.sin_theta, rot.cos_theta)
            &&& close_after_turns(p.e2, back.e2, rot.sin_theta, rot.cos_theta)
        }),
        ({
            let back = rot.transform_spec(rot.transform_back_spec(p));
            &&& close_after_turns(p.e0, back.e0, rot.sin_theta, rot.cos_theta)
            &&& close_after_turns(p.e1, back.e1, rot.sin_theta, rot.cos_theta)
            &&& close_after_turns(p.e2, back.e2, rot.sin_theta, rot.cos_theta)
        }),
{
    lemma_turn_round_trip_close(p, rot.axis as int, rot.sin_theta, rot.cos_theta);
}

/// For a surface turned by an angle in degrees, as `new` and `about` turn
/// it, a point turned into the frame of the surface inside and turned back
/// comes back near where it was: each coordinate within two billionths of
/// its size, and six billionths more.
pub proof fn lemma_rotate_round_trip_near<H: Hittable>(rot: &RotateY<H>, angle: Scalar, p: Point)
    requires
        -TURN_LIMIT <= 2 * p.e0 <= TURN_LIMIT,
        -TURN_LIMIT <= 2 * p.e1 <= TURN_LIMIT,
        -TURN_LIMIT <= 2 * p.e2 <= TURN_LIMIT,
        rot.sin_theta == sin_cos_spec(degrees_to_radians_spec(angle)).0,
        rot.cos_theta == sin_cos_spec(degrees_to_radians_spec(angle)).1,
    ensures
        ({
            let back = rot.transform_back_spec(rot.transform_spec(p));
            near_after_turns(p.e0, back.e0) && near_after_turns(p.e1, back.e1)
                && near_after_turns(p.e2, back.e2)
        }),
        ({
            let back = rot.transform_spec(rot.transform_back_spec(p));
            near_after_turns(p.e0, back.e0) && near_after_turns(p.e1, back.e1)
                && near_after_turns(p.e2, back.e2)
        }),
{
    lemma_angle_round_trip(p, rot.axis as int, degrees_to_radians_spec(angle));
}

} // verus!
