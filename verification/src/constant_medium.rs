//! Mist of one density inside a closed surface.

use vstd::prelude::*;
use crate::aabb::AABB;
use crate::hittable_list::{HittableList, lemma_scan_reports_member};
use crate::nearest::cut_at;
use crate::hittable::{HitRecord, Hittable, Translate, hit_t};
use crate::interval::Interval;
use crate::math::{ln, ln_spec, lemma_ln_sign};
use crate::ray::Ray;
use crate::scalar::{
    Scalar, ONE, MINUS_ONE, INFINITY, add_spec, sub_spec, mul_spec, div_spec, min_spec, max_spec,
    fx_add, fx_sub,
    fx_mul, fx_div, is_finite, uniform, lemma_mul_monotone,
};
use crate::sphere::NEXT_HIT;
use crate::vec3::lemma_length_non_negative;

verus! {

/// Mist within `boundary`, which must be convex: a ray is taken to enter
/// it once and to leave it once.
pub struct ConstantMedium<H> {
    pub boundary: H,
    pub neg_inv_density: Scalar,
    /// The place of the mist's material in the table of materials.
    pub phase_function: usize,
}

impl<H: Hittable> ConstantMedium<H> {
    /// The way through the boundary that its two reports make up within
    /// `ray_t`: the record of the entry and the parameter of the way out,
    /// both held inside `ray_t`. There is none where one of the reports is
    /// missing, nor where, held inside `ray_t`, the way out does not come
    /// after the entry.
    pub open spec fn way_spec(
        first: Option<HitRecord>,
        second: Option<HitRecord>,
        ray_t: Interval,
    ) -> Option<(HitRecord, Scalar)> {
        match (first, second) {
            (Some(rec1), Some(rec2)) => {
                let enter = max_spec(rec1.t, ray_t.min);
                let leave = min_spec(rec2.t, ray_t.max);
                if enter < leave {
                    Some((HitRecord { t: enter, ..rec1 }, leave))
                } else {
                    None
                }
            },
            _ => None,
        }
    }

    /// The range in which the way out is looked for after the report
    /// `first` of the entry: from a little past the entry onwards.
    pub open spec fn onward_spec(first: Option<HitRecord>) -> Interval {
        match first {
            Some(rec1) => Interval { min: add_spec(rec1.t, NEXT_HIT), max: INFINITY },
            None => Interval::universe_spec(),
        }
    }

    /// The way of the ray through a steady boundary within `ray_t`: that
    /// of its first hit anywhere on its line and of its first hit after
    /// that one.
    pub open spec fn crossing_spec(&self, r: Ray, ray_t: Interval) -> Option<(HitRecord, Scalar)> {
        let first = self.boundary.hit_spec(r, Interval::universe_spec());
        match first {
            None => None,
            Some(rec1) => Self::way_spec(
                first,
                self.boundary.hit_spec(r, Self::onward_spec(first)),
                ray_t,
            ),
        }
    }

    /// How far the ray gets into the mist for the random number `sample`,
    /// drawn from zero up to one: minus the logarithm of `sample` over the
    /// density.
    pub open spec fn free_path_spec(&self, sample: Scalar) -> Scalar {
        mul_spec(self.neg_inv_density, ln_spec(sample))
    }

    /// The scattering on the way `way` for the random number `sample`:
    /// nothing where there is no way, or where the ray gets farther than
    /// its way inside; else the record of its entry, moved on by the free
    /// path and given the material of the mist. An event that the rounding
    /// of the products would put before the entry or after the way out is
    /// none.
    pub open spec fn event_spec(
        &self,
        way: Option<(HitRecord, Scalar)>,
        r: Ray,
        sample: Scalar,
    ) -> Option<HitRecord> {
        match way {
            None => None,
            Some((rec1, leave)) => {
                let ray_length = r.dir.length_spec();
                let distance_inside_boundary = mul_spec(sub_spec(leave, rec1.t), ray_length);
                let hit_distance = self.free_path_spec(sample);
                let t = add_spec(rec1.t, div_spec(hit_distance, ray_length));
                if hit_distance > distance_inside_boundary || t < rec1.t || t > leave {
                    None
                } else {
                    Some(HitRecord { t, p: r.at_spec(t), mat: self.phase_function, ..rec1 })
                }
            },
        }
    }

    /// The scattering of the ray in mist within a steady boundary, for the
    /// random number `sample`: the event on its way through the boundary
    /// within `ray_t`.
    pub open spec fn hit_with_spec(&self, r: Ray, ray_t: Interval, sample: Scalar) -> Option<
        HitRecord,
    > {
        self.event_spec(self.crossing_spec(r, ray_t), r, sample)
    }

    /// Whether `res` is the event, for the random number `sample`, on a
    /// way that reports of the boundary make up: a report for the whole
    /// line of the ray, and one for what lies onward of it.
    pub open spec fn event_ok(
        &self,
        r: Ray,
        ray_t: Interval,
        sample: Scalar,
        res: Option<HitRecord>,
    ) -> bool {
        exists|first: Option<HitRecord>, second: Option<HitRecord>|
            self.boundary.hit_ok(r, Interval::universe_spec(), first) && (first is Some
                ==> self.boundary.hit_ok(r, Self::onward_spec(first), second)) && res
                == self.event_spec(#[trigger] Self::way_spec(first, second, ray_t), r, sample)
    }

    /// A free path is not negative in mist whose density is not negative,
    /// for a number drawn from zero up to one.
    pub proof fn lemma_free_path_non_negative(&self, sample: Scalar)
        requires
            self.neg_inv_density <= 0,
            sample < ONE,
        ensures
            self.free_path_spec(sample) >= 0,
    {
        lemma_ln_sign(sample);
        lemma_mul_monotone(self.neg_inv_density, 0, ln_spec(sample));
    }

    /// Mist of the given density within `boundary`, whose material stands
    /// at `phase_function` in the table of materials.
    pub fn from(boundary: H, density: Scalar, phase_function: usize) -> (m: Self)
        ensures
            m.boundary == boundary,
            m.neg_inv_density == div_spec(MINUS_ONE, density),
            m.phase_function == phase_function,
            density >= 0 ==> m.neg_inv_density <= 0,
    {
        ConstantMedium { boundary, neg_inv_density: fx_div(MINUS_ONE, density), phase_function }
    }

    /// The scattering of the ray in the mist for a given random number.
    pub fn hit_with(&self, r: &Ray, ray_t: Interval, sample: Scalar) -> (res: Option<HitRecord>)
        ensures
            self.event_ok(*r, ray_t, sample, res),
            self.boundary.steady() ==> res == self.hit_with_spec(*r, ray_t, sample),
            res matches Some(rec) ==> ray_t.min <= rec.t <= ray_t.max && rec.p == r.at_spec(rec.t)
                && rec.mat == self.phase_function,
    {
        let first = self.boundary.hit(r, Interval::universe());
        let mut rec1 = match first {
            Some(rec) => rec,
            None => {
                assert(Self::way_spec(first, None, ray_t) is None);
                return None;
            },
        };
        let second = self.boundary.hit(r, Interval::from(fx_add(rec1.t, NEXT_HIT), INFINITY));
        assert(self.boundary.hit_ok(*r, Self::onward_spec(first), second));
        assert(Self::way_spec(first, second, ray_t) is Some ==> second is Some);
        let mut rec2 = match second {
            Some(rec) => rec,
            None => {
                return None;
            },
        };
        if rec1.t < ray_t.min {
            rec1.t = ray_t.min;
        }
        if rec2.t > ray_t.max {
            rec2.t = ray_t.max;
        }
        // No way inside the range: no event, whatever the free path.
        if rec1.t >= rec2.t {
            return None;
        }
        let ray_length: Scalar = r.direction().length();
        let distance_inside_boundary: Scalar = fx_mul(fx_sub(rec2.t, rec1.t), ray_length);
        let hit_distance: Scalar = fx_mul(self.neg_inv_density, ln(sample));

        if hit_distance > distance_inside_boundary {
            return None;
        }
        let t: Scalar = fx_add(rec1.t, fx_div(hit_distance, ray_length));
        if t < rec1.t || t > rec2.t {
            return None;
        }
        let mut rec = rec1;
        rec.t = t;
        rec.p = r.at(rec.t);
        rec.mat = self.phase_function;
        Some(rec)
    }
}

impl<H: Hittable> Hittable for ConstantMedium<H> {
    /// Mist is not steady: each query draws its own free path.
    open spec fn steady(&self) -> bool {
        false
    }

    open spec fn bounding_box_spec(&self) -> AABB {
        self.boundary.bounding_box_spec()
    }

    /// An event is that of some number drawn from zero up to one, on a
    /// way that reports of the boundary make up; it lies within the range,
    /// at its place on the ray, and carries the material of the mist.
    /// Within a steady boundary it is the event that `hit_with_spec` names
    /// for such a number.
    open spec fn hit_ok(&self, r: Ray, ray_t: Interval, res: Option<HitRecord>) -> bool {
        &&& exists|sample: Scalar| 0 <= sample < ONE && #[trigger] self.event_ok(r, ray_t, sample, res)
        &&& res matches Some(rec) ==> ray_t.min <= rec.t <= ray_t.max && rec.p == r.at_spec(rec.t)
            && rec.mat == self.phase_function
        &&& self.boundary.steady() ==> exists|sample: Scalar|
            0 <= sample < ONE && res == #[trigger] self.hit_with_spec(r, ray_t, sample)
    }

    /// The scattering of the ray in the mist, for a random number drawn
    /// here from zero up to one.
    fn hit(&self, r: &Ray, ray_t: Interval) -> (res: Option<HitRecord>)
        ensures
            self.boundary.steady() ==> exists|sample: Scalar|
                0 <= sample < ONE && res == #[trigger] self.hit_with_spec(*r, ray_t, sample),
            res matches Some(rec) ==> ray_t.min <= rec.t <= ray_t.max && rec.p == r.at_spec(rec.t)
                && rec.mat == self.phase_function,
    {
        let sample: Scalar = uniform(0, ONE);
        let res = self.hit_with(r, ray_t, sample);
        assert(self.event_ok(*r, ray_t, sample, res));
        assert(self.boundary.steady() ==> res == self.hit_with_spec(*r, ray_t, sample));
        res
    }

    fn bounding_box(&self) -> (bbox: &AABB) {
        self.boundary.bounding_box()
    }
}

/// A free path that is not negative and no longer than the way inside,
/// taken from the entry, ends between the entry and the way out: the guard
/// against rounding lets every such event through. This holds where the
/// ends of the way, its length and its length along the ray are finite.
pub proof fn lemma_event_within_way(
    enter: Scalar,
    leave: Scalar,
    ray_length: Scalar,
    hit_distance: Scalar,
)
    requires
        is_finite(enter),
        is_finite(leave),
        enter < leave,
        is_finite(sub_spec(leave, enter)),
        ray_length >= 0,
        is_finite(mul_spec(sub_spec(leave, enter), ray_length)),
        0 <= hit_distance <= mul_spec(sub_spec(leave, enter), ray_length),
    ensures
        enter <= add_spec(enter, div_spec(hit_distance, ray_length)) <= leave,
{
    let x = sub_spec(leave, enter);
    assert(x == leave - enter);
    if ray_length > 0 {
        assert(is_finite(ray_length));
        let m = mul_spec(x, ray_length);
        assert(x * ray_length >= 0) by (nonlinear_arith)
            requires
                x > 0,
                ray_length > 0,
        ;
        assert(m == (x * ray_length) / (ONE as int));
        vstd::arithmetic::div_mod::lemma_fundamental_div_mod(x * ray_length, ONE as int);
        vstd::arithmetic::div_mod::lemma_mod_bound(x * ray_length, ONE as int);
        assert(m * ONE <= x * ray_length) by (nonlinear_arith)
            requires
                x * ray_length == ONE * ((x * ray_length) / (ONE as int)) + (x * ray_length) % (
                ONE as int),
                (x * ray_length) % (ONE as int) >= 0,
                m == (x * ray_length) / (ONE as int),
        ;
        assert(hit_distance * ONE <= x * ray_length) by (nonlinear_arith)
            requires
                hit_distance <= m,
                m * ONE <= x * ray_length,
        ;
        assert(hit_distance * ONE >= 0) by (nonlinear_arith)
            requires
                hit_distance >= 0,
        ;
        vstd::arithmetic::div_mod::lemma_div_is_ordered(
            hit_distance * ONE,
            x * ray_length,
            ray_length as int,
        );
        vstd::arithmetic::div_mod::lemma_div_multiples_vanish(x as int, ray_length as int);
        assert((x * ray_length) / (ray_length as int) == x) by (nonlinear_arith)
            requires
                (ray_length * x) / (ray_length as int) == x,
        ;
        vstd::arithmetic::div_mod::lemma_div_pos_is_pos(hit_distance * ONE, ray_length as int);
    }
}

/// In mist whose density is not negative, the ray is scattered exactly where
/// its free path is no longer than its way inside, and then between the
/// entry and the way out. This holds for a number drawn below one, where
/// the ends of the way, its length and its length along the ray are finite.
pub proof fn lemma_scatter_rule<H: Hittable>(
    mist: &ConstantMedium<H>,
    r: Ray,
    ray_t: Interval,
    sample: Scalar,
)
    requires
        mist.neg_inv_density <= 0,
        sample < ONE,
        mist.crossing_spec(r, ray_t) matches Some((rec1, leave)) && is_finite(rec1.t)
            && is_finite(leave) && is_finite(sub_spec(leave, rec1.t)) && is_finite(
            mul_spec(sub_spec(leave, rec1.t), r.dir.length_spec()),
        ),
    ensures
        ({
            let way = mist.crossing_spec(r, ray_t)->0;
            let enter = way.0.t;
            let leave = way.1;
            let event = mist.hit_with_spec(r, ray_t, sample);
            &&& event is Some <==> mist.free_path_spec(sample) <= mul_spec(
                sub_spec(leave, enter),
                r.dir.length_spec(),
            )
            &&& event matches Some(rec) ==> enter <= rec.t <= leave
        }),
{
    let (rec1, leave) = mist.crossing_spec(r, ray_t)->0;
    let ray_length = r.dir.length_spec();
    let hit_distance = mist.free_path_spec(sample);
    mist.lemma_free_path_non_negative(sample);
    lemma_length_non_negative(r.dir);
    if hit_distance <= mul_spec(sub_spec(leave, rec1.t), ray_length) {
        lemma_event_within_way(rec1.t, leave, ray_length, hit_distance);
    }
}

/// Whatever the draw, the mist scatters no ray that has no way through the
/// boundary within the range, and an event lies between the entry and the
/// way out, both held inside the range.
pub proof fn lemma_event_between<H: Hittable>(
    mist: &ConstantMedium<H>,
    r: Ray,
    ray_t: Interval,
    sample: Scalar,
)
    ensures
        mist.crossing_spec(r, ray_t) is None ==> mist.hit_with_spec(r, ray_t, sample) is None,
        mist.hit_with_spec(r, ray_t, sample) matches Some(rec) ==> ({
            let way = mist.crossing_spec(r, ray_t)->0;
            &&& ray_t.min <= way.0.t <= rec.t
            &&& rec.t <= way.1 <= ray_t.max
            &&& way.0.t < way.1
        }),
{
}

/// Mist that was moved still reports events of its own material only, and
/// none outside the range.
pub proof fn lemma_moved_mist_keeps_material<H: Hittable>(
    moved: Translate<ConstantMedium<H>>,
    r: Ray,
    ray_t: Interval,
    res: Option<HitRecord>,
)
    requires
        moved.hit_ok(r, ray_t, res),
    ensures
        res matches Some(rec) ==> rec.mat == moved.object.phase_function && ray_t.min <= rec.t
            <= ray_t.max,
{
    let inner = choose|inner: Option<HitRecord>| #[trigger]
        moved.object.hit_ok(moved.local_ray_spec(r), ray_t, inner) && res == moved.world_hit_spec(
            inner,
        );
    assert(moved.object.hit_ok(moved.local_ray_spec(r), ray_t, inner));
}

/// Mist in a list keeps its material: a list of clouds of mist reports
/// events of the material of one of them only.
pub proof fn lemma_list_of_mist_keeps_material<H: Hittable>(
    list: &HittableList<ConstantMedium<H>>,
    r: Ray,
    ray_t: Interval,
    res: Option<HitRecord>,
)
    requires
        list.hit_ok(r, ray_t, res),
    ensures
        res matches Some(rec) ==> exists|i: int|
            0 <= i < list.objects@.len() && rec.mat == (#[trigger] list.objects@[i]).phase_function,
{
    if res is Some {
        lemma_scan_reports_member(list.objects@, r, ray_t, list.objects@.len() as int, res);
        let (i, before) = choose|i: int, before: Option<HitRecord>|
            0 <= i < list.objects@.len() && #[trigger] list.objects@[i].hit_ok(
                r,
                cut_at(ray_t, hit_t(before)),
                res,
            );
        assert(res->0.mat == list.objects@[i].phase_function);
    }
}

} // verus!
