//! A plain list of surfaces, asked one after the other.

use vstd::prelude::*;
use crate::aabb::{AABB, lemma_from_aabbs_encloses, lemma_hit_monotone};
use crate::hittable::{HitRecord, Hittable, hit_t};
use crate::nearest::{
    box_bounds, cut_at, is_nearest, nearest_first, lemma_group_nearest_first,
    lemma_nearest_compose, lemma_nearest_single,
};
use crate::interval::Interval;
use crate::ray::Ray;
use crate::scalar::{Scalar, NEG_INFINITY};

verus! {

/// The padded box round the boxes of all `objects`, taken in one after the
/// other.
pub open spec fn hull_spec<H: Hittable>(objects: Seq<H>) -> AABB
    decreases objects.len(),
{
    if objects.len() == 0 {
        AABB::empty_spec()
    } else {
        AABB::from_aabbs_spec(
            hull_spec(objects.drop_last()),
            objects.last().bounding_box_spec(),
        )
    }
}

/// The hit that the first `n` of `objects` leave: each is asked within what
/// is left of the range before the nearest hit so far, and a later hit
/// replaces an earlier one.
pub open spec fn scan_spec<H: Hittable>(objects: Seq<H>, r: Ray, ray_t: Interval, n: int) -> Option<
    HitRecord,
>
    decreases n,
{
    if n <= 0 {
        None
    } else {
        let before = scan_spec(objects, r, ray_t, n - 1);
        match objects[n - 1].hit_spec(r, cut_at(ray_t, hit_t(before))) {
            Some(rec) => Some(rec),
            None => before,
        }
    }
}

/// The later of two reports where there is one, else the earlier.
pub open spec fn later_hit(later: Option<HitRecord>, earlier: Option<HitRecord>) -> Option<
    HitRecord,
> {
    if later is Some {
        later
    } else {
        earlier
    }
}

/// Whether `res` is what a scan of the first `n` surfaces can leave: none
/// of no surface; else what the last of them can report within what a scan
/// of those before it leaves of the range, and where it reports nothing,
/// what that scan leaves.
pub open spec fn scan_ok<H: Hittable>(
    objects: Seq<H>,
    r: Ray,
    ray_t: Interval,
    n: int,
    res: Option<HitRecord>,
) -> bool
    decreases n,
{
    if n <= 0 {
        res is None
    } else {
        exists|before: Option<HitRecord>, last: Option<HitRecord>|
            scan_ok(objects, r, ray_t, n - 1, before) && #[trigger] objects[n - 1].hit_ok(
                r,
                cut_at(ray_t, hit_t(before)),
                last,
            ) && res == later_hit(last, before)
    }
}

/// Surfaces in the order in which they were added, and the box round them.
pub struct HittableList<H> {
    pub objects: Vec<H>,
    pub bbox: AABB,
}

impl<H: Hittable> HittableList<H> {
    /// The box is the one round the surfaces.
    pub open spec fn wf(&self) -> bool {
        self.bbox == hull_spec(self.objects@)
    }

    /// The list without a surface.
    pub fn new() -> (list: Self)
        ensures
            list.objects@.len() == 0,
            list.bbox == AABB::empty_spec(),
            list.wf(),
    {
        HittableList { objects: Vec::new(), bbox: AABB::empty() }
    }

    /// Appends a surface and widens the box to hold it.
    pub fn add(&mut self, object: H)
        ensures
            final(self).objects@ == old(self).objects@.push(object),
            final(self).bbox == AABB::from_aabbs_spec(old(self).bbox, object.bounding_box_spec()),
            old(self).wf() ==> final(self).wf(),
    {
        self.bbox = AABB::from_aabbs(&self.bbox, object.bounding_box());
        self.objects.push(object);
        proof {
            assert(self.objects@.drop_last() == old(self).objects@);
        }
    }
}

impl<H: Hittable> Default for HittableList<H> {
    fn default() -> (list: Self)
        ensures
            list.objects@.len() == 0,
            list.bbox == AABB::empty_spec(),
    {
        Self::new()
    }
}

impl<H: Hittable> Hittable for HittableList<H> {
    open spec fn steady(&self) -> bool {
        forall|i: int| 0 <= i < self.objects@.len() ==> (#[trigger] self.objects@[i]).steady()
    }

    open spec fn hit_spec(&self, r: Ray, ray_t: Interval) -> Option<HitRecord> {
        scan_spec(self.objects@, r, ray_t, self.objects@.len() as int)
    }

    open spec fn hit_ok(&self, r: Ray, ray_t: Interval, res: Option<HitRecord>) -> bool {
        scan_ok(self.objects@, r, ray_t, self.objects@.len() as int, res)
    }

    open spec fn bounding_box_spec(&self) -> AABB {
        self.bbox
    }

    /// Asks the surfaces one after the other. Whatever they report, a list
    /// without a surface reports no hit.
    fn hit(&self, r: &Ray, ray_t: Interval) -> (res: Option<HitRecord>)
        ensures
            self.objects@.len() == 0 ==> res is None,
    {
        let mut result_rec: Option<HitRecord> = None;
        let mut closest_so_far = ray_t.max;
        let mut i: usize = 0;
        while i < self.objects.len()
            invariant
                i <= self.objects.len(),
                scan_ok(self.objects@, *r, ray_t, i as int, result_rec),
                self.steady() ==> result_rec == scan_spec(self.objects@, *r, ray_t, i as int),
                result_rec matches Some(rec) ==> ray_t.min <= rec.t <= ray_t.max,
                i == 0 ==> result_rec is None,
                cut_at(ray_t, hit_t(result_rec)) == (Interval {
                    min: ray_t.min,
                    max: closest_so_far,
                }),
            decreases self.objects.len() - i,
        {
            let ghost before = result_rec;
            let last = self.objects[i].hit(r, Interval::from(ray_t.min, closest_so_far));
            if let Some(rec) = last {
                closest_so_far = rec.t;
                result_rec = Some(rec);
            }
            proof {
                assert(self.objects@[i as int].hit_ok(*r, cut_at(ray_t, hit_t(before)), last));
                assert(result_rec == later_hit(last, before));
            }
            i = i + 1;
        }
        result_rec
    }

    fn bounding_box(&self) -> (bbox: &AABB) {
        &self.bbox
    }
}

/// What a scan of the first `n` surfaces leaves is their nearest hit, as
/// long as every surface reports the first hit in a range.
pub proof fn lemma_scan_nearest<H: Hittable>(objects: Seq<H>, r: Ray, ray_t: Interval, n: int)
    requires
        0 <= n <= objects.len(),
        forall|o: H| #[trigger] objects.contains(o) ==> nearest_first(&o, r, ray_t.min),
    ensures
        is_nearest(objects.take(n), r, ray_t, hit_t(scan_spec(objects, r, ray_t, n))),
    decreases n,
{
    if n > 0 {
        lemma_scan_nearest(objects, r, ray_t, n - 1);
        let first = objects.take(n - 1);
        let o = objects[n - 1];
        let second = seq![o];
        let both = objects.take(n);
        let before = hit_t(scan_spec(objects, r, ray_t, n - 1));
        lemma_nearest_single(o, r, cut_at(ray_t, before));
        assert(both == first.push(o));
        assert(second[0] == o);
        assert forall|x: H| #[trigger] both.contains(x) <==> first.contains(x) || second.contains(
            x,
        ) by {
            if both.contains(x) {
                let i = choose|i: int| 0 <= i < both.len() && both[i] == x;
                if i < n - 1 {
                    assert(first[i] == x);
                } else {
                    assert(second[0] == x);
                }
            }
            if first.contains(x) {
                let i = choose|i: int| 0 <= i < first.len() && first[i] == x;
                assert(both[i] == x);
            }
            if second.contains(x) {
                let i = choose|i: int| 0 <= i < second.len() && second[i] == x;
                assert(both[n - 1] == x);
            }
        }
        assert forall|x: H| #[trigger] both.contains(x) implies nearest_first(
            &x,
            r,
            ray_t.min,
        ) by {
            let i = choose|i: int| 0 <= i < both.len() && both[i] == x;
            assert(objects[i] == x);
            assert(objects.contains(x));
        }
        lemma_nearest_compose(
            first,
            second,
            both,
            r,
            ray_t,
            before,
            hit_t(o.hit_spec(r, cut_at(ray_t, before))),
        );
    } else {
        assert(objects.take(0).len() == 0);
    }
}

/// A list of surfaces that report the first hit in a range reports the
/// nearest hit of them all.
pub proof fn lemma_list_hit_nearest<H: Hittable>(list: &HittableList<H>, r: Ray, ray_t: Interval)
    requires
        forall|o: H| #[trigger] list.objects@.contains(o) ==> nearest_first(&o, r, ray_t.min),
    ensures
        is_nearest(list.objects@, r, ray_t, hit_t(list.hit_spec(r, ray_t))),
{
    lemma_scan_nearest(list.objects@, r, ray_t, list.objects@.len() as int);
    assert(list.objects@.take(list.objects@.len() as int) == list.objects@);
}

/// The box round the surfaces encloses the box of each of them, as long as
/// no box starts below negative infinity.
pub proof fn lemma_hull_encloses<H: Hittable>(objects: Seq<H>, i: int)
    requires
        0 <= i < objects.len(),
        forall|k: int|
            0 <= k < objects.len() ==> (#[trigger] objects[k]).bounding_box_spec().is_ordered(),
    ensures
        hull_spec(objects).encloses(objects[i].bounding_box_spec()),
        hull_spec(objects).e0.min >= NEG_INFINITY,
        hull_spec(objects).e1.min >= NEG_INFINITY,
        hull_spec(objects).e2.min >= NEG_INFINITY,
    decreases objects.len(),
{
    let rest = objects.drop_last();
    let last = objects.last();
    assert forall|k: int| 0 <= k < rest.len() implies (#[trigger] rest[k]).bounding_box_spec().is_ordered() by {
        assert(rest[k] == objects[k]);
    }
    if rest.len() > 0 {
        lemma_hull_encloses(rest, 0);
    }
    lemma_from_aabbs_encloses(hull_spec(rest), last.bounding_box_spec());
    if i < rest.len() {
        lemma_hull_encloses(rest, i);
        assert(rest[i] == objects[i]);
    }
}

/// A list whose box is the one round its surfaces lies within it where
/// each surface reports the first hit in a range and lies within its own
/// box.
pub proof fn lemma_list_box_bounds<H: Hittable>(list: &HittableList<H>, r: Ray, lo: Scalar)
    requires
        list.wf(),
        list.objects@.len() >= 1,
        forall|o: H| #[trigger] list.objects@.contains(o) ==> nearest_first(&o, r, lo),
        forall|o: H| #[trigger] list.objects@.contains(o) ==> box_bounds(&o, r, lo),
    ensures
        box_bounds(list, r, lo),
{
    let objects = list.objects@;
    assert forall|k: int| 0 <= k < objects.len() implies (#[trigger] objects[k]).bounding_box_spec().is_ordered() by {
        assert(objects.contains(objects[k]));
    }
    lemma_hull_encloses(objects, 0);
    assert forall|hi: Scalar| #[trigger]
        list.hit_spec(r, Interval { min: lo, max: hi }) is Some implies list.bbox.hit_spec(
        r,
        Interval { min: lo, max: hi },
    ) by {
        let ray_t = Interval { min: lo, max: hi };
        lemma_list_hit_nearest(list, r, ray_t);
        let t = list.hit_spec(r, ray_t)->0.t;
        let o = choose|o: H| #[trigger]
            objects.contains(o) && hit_t(o.hit_spec(r, ray_t)) == Some(t);
        let k = choose|k: int| 0 <= k < objects.len() && objects[k] == o;
        assert(box_bounds(&o, r, lo));
        assert(o.hit_spec(r, Interval { min: lo, max: hi }) is Some);
        lemma_hull_encloses(objects, k);
        lemma_hit_monotone(o.bounding_box_spec(), list.bbox, r, ray_t, ray_t);
    }
}

/// A list of surfaces that report the first hit in a range does so itself.
pub proof fn lemma_list_nearest_first<H: Hittable>(list: &HittableList<H>, r: Ray, lo: Scalar)
    requires
        forall|o: H| #[trigger] list.objects@.contains(o) ==> nearest_first(&o, r, lo),
    ensures
        nearest_first(list, r, lo),
{
    let objects = list.objects@;
    assert forall|i: int| 0 <= i < objects.len() implies (#[trigger] objects[i]).steady() by {
        assert(objects.contains(objects[i]));
    }
    assert forall|hi: Scalar|
        is_nearest(
            objects,
            r,
            Interval { min: lo, max: hi },
            hit_t(#[trigger] list.hit_spec(r, Interval { min: lo, max: hi })),
        ) by {
        lemma_list_hit_nearest(list, r, Interval { min: lo, max: hi });
    }
    lemma_group_nearest_first(list, objects, r, lo);
}

/// Whatever a scan of surfaces leaves, one of the surfaces reported it,
/// asked within the range or within what an earlier report left of it.
pub proof fn lemma_scan_reports_member<H: Hittable>(
    objects: Seq<H>,
    r: Ray,
    ray_t: Interval,
    n: int,
    res: Option<HitRecord>,
)
    requires
        0 <= n <= objects.len(),
        scan_ok(objects, r, ray_t, n, res),
        res is Some,
    ensures
        exists|i: int, before: Option<HitRecord>|
            0 <= i < n && #[trigger] objects[i].hit_ok(r, cut_at(ray_t, hit_t(before)), res),
    decreases n,
{
    let (before, last) = choose|before: Option<HitRecord>, last: Option<HitRecord>|
        scan_ok(objects, r, ray_t, n - 1, before) && #[trigger] objects[n - 1].hit_ok(
            r,
            cut_at(ray_t, hit_t(before)),
            last,
        ) && res == later_hit(last, before);
    if last is Some {
        assert(objects[n - 1].hit_ok(r, cut_at(ray_t, hit_t(before)), res));
    } else {
        lemma_scan_reports_member(objects, r, ray_t, n - 1, res);
    }
}

} // verus!
