//! The bounding-volume hierarchy: a binary tree of boxes over a set of
//! surfaces, which finds the nearest hit without asking every surface.

use vstd::prelude::*;
use crate::aabb::{AABB, lemma_hit_monotone};
use crate::hittable::{HitRecord, Hittable, hit_t};
use crate::nearest::{
    box_bounds, cut_at, is_nearest, nearest_first, lemma_group_nearest_first,
    lemma_nearest_compose, lemma_nearest_single, lemma_nearest_unique,
};
use crate::hittable_list::{
    HittableList, hull_spec, later_hit, scan_spec, lemma_hull_encloses, lemma_scan_nearest,
};
use crate::interval::Interval;
use crate::math::pow2_bound;
use crate::ray::Ray;
use crate::scalar::Scalar;

verus! {

/// What hangs below a node: a surface, or another node.
pub enum BvhChild<H> {
    Object(H),
    Tree(Box<BVHNode<H>>),
}

/// A node of the hierarchy. A node over a single surface has no right
/// child: there the left child is asked a second time in its place.
pub struct BVHNode<H> {
    pub left: BvhChild<H>,
    pub right: Option<BvhChild<H>>,
    pub bbox: AABB,
}

/// The number by which a surface is sorted along `axis`: the low end of its
/// box there.
pub open spec fn key_spec<H: Hittable>(o: H, axis: int) -> Scalar {
    o.bounding_box_spec().at(axis).min
}

/// Two sorted sequences merged into one. Of two surfaces with one key, the
/// one from `a` comes first.
pub open spec fn merge_spec<H: Hittable>(a: Seq<H>, b: Seq<H>, axis: int) -> Seq<H>
    decreases a.len() + b.len(),
{
    if a.len() == 0 {
        b
    } else if b.len() == 0 {
        a
    } else if key_spec(a.last(), axis) > key_spec(b.last(), axis) {
        merge_spec(a.drop_last(), b, axis).push(a.last())
    } else {
        merge_spec(a, b.drop_last(), axis).push(b.last())
    }
}

/// The surfaces in the order of their keys along `axis`, surfaces with one
/// key in the order in which they came.
pub open spec fn sort_spec<H: Hittable>(s: Seq<H>, axis: int) -> Seq<H>
    decreases s.len(),
{
    if s.len() <= 1 {
        s
    } else {
        let mid = s.len() as int / 2;
        merge_spec(sort_spec(s.take(mid), axis), sort_spec(s.skip(mid), axis), axis)
    }
}

/// No surface comes before one with a smaller key.
pub open spec fn is_sorted<H: Hittable>(s: Seq<H>, axis: int) -> bool {
    forall|i: int, j: int|
        0 <= i <= j < s.len() ==> key_spec(#[trigger] s[i], axis) <= key_spec(#[trigger] s[j], axis)
}

/// A sequence with one more element holds what it held, and that element.
pub proof fn lemma_contains_push<H>(s: Seq<H>, x: H, o: H)
    ensures
        s.push(x).contains(o) <==> s.contains(o) || o == x,
{
    let t = s.push(x);
    if t.contains(o) {
        let i = choose|i: int| 0 <= i < t.len() && t[i] == o;
        if i < s.len() {
            assert(s[i] == o);
        }
    }
    if s.contains(o) {
        let i = choose|i: int| 0 <= i < s.len() && s[i] == o;
        assert(t[i] == o);
    }
    if o == x {
        assert(t[s.len() as int] == o);
    }
}

/// A sequence holds what its two parts hold.
pub proof fn lemma_contains_split<H>(s: Seq<H>, mid: int, o: H)
    requires
        0 <= mid <= s.len(),
    ensures
        s.contains(o) <==> s.take(mid).contains(o) || s.skip(mid).contains(o),
{
    let a = s.take(mid);
    let b = s.skip(mid);
    if s.contains(o) {
        let i = choose|i: int| 0 <= i < s.len() && s[i] == o;
        if i < mid {
            assert(a[i] == o);
        } else {
            assert(b[i - mid] == o);
        }
    }
    if a.contains(o) {
        let i = choose|i: int| 0 <= i < a.len() && a[i] == o;
        assert(s[i] == o);
    }
    if b.contains(o) {
        let i = choose|i: int| 0 <= i < b.len() && b[i] == o;
        assert(s[i + mid] == o);
    }
}

/// A merge holds what the two sequences hold.
pub proof fn lemma_merge_contains<H: Hittable>(a: Seq<H>, b: Seq<H>, axis: int, o: H)
    ensures
        merge_spec(a, b, axis).len() == a.len() + b.len(),
        merge_spec(a, b, axis).contains(o) <==> a.contains(o) || b.contains(o),
    decreases a.len() + b.len(),
{
    if a.len() == 0 {
        assert(!a.contains(o));
    } else if b.len() == 0 {
        assert(!b.contains(o));
    } else if key_spec(a.last(), axis) > key_spec(b.last(), axis) {
        lemma_merge_contains(a.drop_last(), b, axis, o);
        lemma_contains_push(merge_spec(a.drop_last(), b, axis), a.last(), o);
        lemma_contains_push(a.drop_last(), a.last(), o);
        assert(a.drop_last().push(a.last()) == a);
    } else {
        lemma_merge_contains(a, b.drop_last(), axis, o);
        lemma_contains_push(merge_spec(a, b.drop_last(), axis), b.last(), o);
        lemma_contains_push(b.drop_last(), b.last(), o);
        assert(b.drop_last().push(b.last()) == b);
    }
}

/// A merge holds each surface as often as the two sequences together.
pub proof fn lemma_merge_permutes<H: Hittable>(a: Seq<H>, b: Seq<H>, axis: int)
    ensures
        merge_spec(a, b, axis).to_multiset() =~= a.to_multiset().add(b.to_multiset()),
    decreases a.len() + b.len(),
{
    broadcast use vstd::seq_lib::group_to_multiset_ensures;

    if a.len() == 0 {
        assert(a.to_multiset() =~= vstd::multiset::Multiset::<H>::empty());
    } else if b.len() == 0 {
        assert(b.to_multiset() =~= vstd::multiset::Multiset::<H>::empty());
    } else if key_spec(a.last(), axis) > key_spec(b.last(), axis) {
        lemma_merge_permutes(a.drop_last(), b, axis);
        assert(a.drop_last().push(a.last()) == a);
    } else {
        lemma_merge_permutes(a, b.drop_last(), axis);
        assert(b.drop_last().push(b.last()) == b);
    }
}

/// Sorting only changes the order: what it gives holds each surface as
/// often as what it got.
pub proof fn lemma_sort_permutes<H: Hittable>(s: Seq<H>, axis: int)
    ensures
        sort_spec(s, axis).to_multiset() =~= s.to_multiset(),
    decreases s.len(),
{
    if s.len() > 1 {
        let mid = s.len() as int / 2;
        lemma_sort_permutes(s.take(mid), axis);
        lemma_sort_permutes(s.skip(mid), axis);
        lemma_merge_permutes(sort_spec(s.take(mid), axis), sort_spec(s.skip(mid), axis), axis);
        assert(s.take(mid) + s.skip(mid) == s);
        vstd::seq_lib::lemma_multiset_commutative(s.take(mid), s.skip(mid));
    }
}

/// Sorting keeps the surfaces and their number.
pub proof fn lemma_sort_contains<H: Hittable>(s: Seq<H>, axis: int, o: H)
    ensures
        sort_spec(s, axis).len() == s.len(),
        sort_spec(s, axis).contains(o) <==> s.contains(o),
    decreases s.len(),
{
    if s.len() > 1 {
        let mid = s.len() as int / 2;
        lemma_sort_contains(s.take(mid), axis, o);
        lemma_sort_contains(s.skip(mid), axis, o);
        lemma_merge_contains(sort_spec(s.take(mid), axis), sort_spec(s.skip(mid), axis), axis, o);
        lemma_contains_split(s, mid, o);
    }
}

/// A merge of sorted sequences is sorted.
pub proof fn lemma_merge_sorted<H: Hittable>(a: Seq<H>, b: Seq<H>, axis: int)
    requires
        is_sorted(a, axis),
        is_sorted(b, axis),
    ensures
        is_sorted(merge_spec(a, b, axis), axis),
    decreases a.len() + b.len(),
{
    let m = merge_spec(a, b, axis);
    if a.len() == 0 || b.len() == 0 {
    } else if key_spec(a.last(), axis) > key_spec(b.last(), axis) {
        let rest = merge_spec(a.drop_last(), b, axis);
        lemma_merge_sorted(a.drop_last(), b, axis);
        assert forall|i: int, j: int| 0 <= i <= j < m.len() implies key_spec(
            #[trigger] m[i],
            axis,
        ) <= key_spec(#[trigger] m[j], axis) by {
            if j == m.len() - 1 && i < j {
                lemma_merge_contains(a.drop_last(), b, axis, rest[i]);
                assert(rest.contains(rest[i]));
                if a.drop_last().contains(rest[i]) {
                    let k = choose|k: int| 0 <= k < a.drop_last().len() && a.drop_last()[k] == rest[i];
                    assert(a[k] == rest[i]);
                } else {
                    let k = choose|k: int| 0 <= k < b.len() && b[k] == rest[i];
                    assert(key_spec(b[k], axis) <= key_spec(b[b.len() - 1], axis));
                }
            } else if i < j {
                assert(m[i] == rest[i] && m[j] == rest[j]);
            }
        }
    } else {
        let rest = merge_spec(a, b.drop_last(), axis);
        lemma_merge_sorted(a, b.drop_last(), axis);
        assert forall|i: int, j: int| 0 <= i <= j < m.len() implies key_spec(
            #[trigger] m[i],
            axis,
        ) <= key_spec(#[trigger] m[j], axis) by {
            if j == m.len() - 1 && i < j {
                lemma_merge_contains(a, b.drop_last(), axis, rest[i]);
                assert(rest.contains(rest[i]));
                if a.contains(rest[i]) {
                    let k = choose|k: int| 0 <= k < a.len() && a[k] == rest[i];
                    assert(key_spec(a[k], axis) <= key_spec(a[a.len() - 1], axis));
                } else {
                    let k = choose|k: int| 0 <= k < b.drop_last().len() && b.drop_last()[k] == rest[i];
                    assert(b[k] == rest[i]);
                }
            } else if i < j {
                assert(m[i] == rest[i] && m[j] == rest[j]);
            }
        }
    }
}

/// What the sort gives is in the order of the keys.
pub proof fn lemma_sort_sorted<H: Hittable>(s: Seq<H>, axis: int)
    ensures
        is_sorted(sort_spec(s, axis), axis),
    decreases s.len(),
{
    if s.len() > 1 {
        let mid = s.len() as int / 2;
        lemma_sort_sorted(s.take(mid), axis);
        lemma_sort_sorted(s.skip(mid), axis);
        lemma_merge_sorted(sort_spec(s.take(mid), axis), sort_spec(s.skip(mid), axis), axis);
    }
}

/// The low end of a surface's box along `axis`.
pub fn box_key<H: Hittable>(o: &H, axis: usize) -> (k: Scalar)
    requires
        axis < 3,
    ensures
        k == key_spec(*o, axis as int),
{
    o.bounding_box().index(axis).min
}

/// Merges two sorted vectors, taking the greater last element each time.
fn merge<H: Hittable>(a: Vec<H>, b: Vec<H>, axis: usize) -> (out: Vec<H>)
    requires
        axis < 3,
    ensures
        out@ == merge_spec(a@, b@, axis as int),
{
    let mut a = a;
    let mut b = b;
    let mut rev: Vec<H> = Vec::new();
    let ghost whole = merge_spec(a@, b@, axis as int);
    let ghost mut tail: Seq<H> = Seq::empty();
    while a.len() > 0 || b.len() > 0
        invariant
            axis < 3,
            whole == merge_spec(a@, b@, axis as int) + tail,
            rev@.len() == tail.len(),
            forall|i: int| 0 <= i < tail.len() ==> rev@[i] == tail[tail.len() - 1 - i],
        decreases a.len() + b.len(),
    {
        let from_a: bool = if a.len() == 0 {
            false
        } else if b.len() == 0 {
            true
        } else {
            box_key(&a[a.len() - 1], axis) > box_key(&b[b.len() - 1], axis)
        };
        let ghost before = merge_spec(a@, b@, axis as int);
        let ghost a_old = a@;
        let ghost b_old = b@;
        let x = if from_a {
            a.pop().unwrap()
        } else {
            b.pop().unwrap()
        };
        proof {
            assert(from_a ==> a@ == a_old.drop_last() && a_old == a@.push(x));
            assert(!from_a ==> b@ == b_old.drop_last() && b_old == b@.push(x));
            assert(before == merge_spec(a@, b@, axis as int).push(x));
            assert(before + tail == merge_spec(a@, b@, axis as int) + (seq![x] + tail));
            tail = seq![x] + tail;
        }
        rev.push(x);
    }
    let mut out: Vec<H> = Vec::new();
    assert(whole == tail);
    while rev.len() > 0
        invariant
            out@.len() + rev@.len() == tail.len(),
            out@ == tail.take(out@.len() as int),
            forall|i: int| 0 <= i < rev@.len() ==> rev@[i] == tail[tail.len() - 1 - i],
        decreases rev.len(),
    {
        let ghost k = out@.len() as int;
        let x = rev.pop().unwrap();
        out.push(x);
        assert(tail.take(k).push(x) == tail.take(k + 1));
    }
    assert(tail.take(tail.len() as int) == tail);
    out
}

/// Sorts the surfaces by the low end of their boxes along `axis`.
pub fn sort_by_box_min<H: Hittable>(objects: Vec<H>, axis: usize) -> (sorted: Vec<H>)
    requires
        axis < 3,
    ensures
        sorted@ == sort_spec(objects@, axis as int),
    decreases objects.len(),
{
    let n = objects.len();
    if n <= 1 {
        return objects;
    }
    let mut left = objects;
    let right = left.split_off(n / 2);
    assert(left@ == objects@.take((n / 2) as int));
    assert(right@ == objects@.skip((n / 2) as int));
    let left = sort_by_box_min(left, axis);
    let right = sort_by_box_min(right, axis);
    merge(left, right, axis)
}

/// The padded box round the boxes of all the surfaces.
pub fn hull<H: Hittable>(objects: &Vec<H>) -> (bbox: AABB)
    ensures
        bbox == hull_spec(objects@),
{
    let mut bbox = AABB::empty();
    let mut i: usize = 0;
    while i < objects.len()
        invariant
            i <= objects.len(),
            bbox == hull_spec(objects@.take(i as int)),
        decreases objects.len() - i,
    {
        bbox = AABB::from_aabbs(&bbox, objects[i].bounding_box());
        proof {
            assert(objects@.take(i + 1).drop_last() == objects@.take(i as int));
        }
        i = i + 1;
    }
    proof {
        assert(objects@.take(objects@.len() as int) == objects@);
    }
    bbox
}

/// The hierarchy over `objects`, of which there is at least one. The box
/// is the one round them all. One surface hangs to the left alone; two
/// hang left and right as they came; more are sorted along the longest
/// axis of the box and halved, and each half hangs as a hierarchy of its
/// own.
pub open spec fn build_spec<H: Hittable>(objects: Seq<H>) -> BVHNode<H>
    decreases objects.len(),
{
    let bbox = hull_spec(objects);
    if objects.len() <= 1 {
        BVHNode { left: BvhChild::Object(objects[0]), right: None, bbox }
    } else if objects.len() == 2 {
        BVHNode {
            left: BvhChild::Object(objects[0]),
            right: Some(BvhChild::Object(objects[1])),
            bbox,
        }
    } else {
        let sorted = sort_spec(objects, bbox.longest_axis_spec());
        let mid = objects.len() as int / 2;
        proof {
            lemma_sort_contains(objects, bbox.longest_axis_spec(), objects[0]);
        }
        BVHNode {
            left: BvhChild::Tree(Box::new(build_spec(sorted.take(mid)))),
            right: Some(BvhChild::Tree(Box::new(build_spec(sorted.skip(mid))))),
            bbox,
        }
    }
}

impl<H: Hittable> BvhChild<H> {
    /// Whether every surface below is steady.
    pub open spec fn steady_spec(self) -> bool
        decreases self,
    {
        match self {
            BvhChild::Object(o) => o.steady(),
            BvhChild::Tree(node) => node.steady_spec(),
        }
    }

    /// What the child reports for the ray.
    pub open spec fn walk_spec(self, r: Ray, ray_t: Interval) -> Option<HitRecord>
        decreases self,
    {
        match self {
            BvhChild::Object(o) => o.hit_spec(r, ray_t),
            BvhChild::Tree(node) => node.walk_spec(r, ray_t),
        }
    }

    /// Whether `res` is something the child can report for the ray.
    pub open spec fn walk_ok(self, r: Ray, ray_t: Interval, res: Option<HitRecord>) -> bool
        decreases self, 0int,
    {
        match self {
            BvhChild::Object(o) => o.hit_ok(r, ray_t, res),
            BvhChild::Tree(node) => node.walk_ok(r, ray_t, res),
        }
    }

    /// Asks the surface, or the node, that hangs here.
    pub fn walk(&self, r: &Ray, ray_t: Interval) -> (res: Option<HitRecord>)
        ensures
            self.walk_ok(*r, ray_t, res),
            self.steady_spec() ==> res == self.walk_spec(*r, ray_t),
            res matches Some(rec) ==> ray_t.min <= rec.t <= ray_t.max,
        decreases self,
    {
        match self {
            BvhChild::Object(o) => o.hit(r, ray_t),
            BvhChild::Tree(node) => node.walk(r, ray_t),
        }
    }
}

impl<H: Hittable> BVHNode<H> {
    /// Whether every surface below is steady.
    pub open spec fn steady_spec(self) -> bool
        decreases self,
    {
        self.left.steady_spec() && match self.right {
            Some(right) => right.steady_spec(),
            None => true,
        }
    }

    /// What the node reports for the ray: nothing where the ray misses the
    /// box; else the hit of the right child within the range cut at the hit
    /// of the left, and where the right child has none, the hit of the left.
    pub open spec fn walk_spec(self, r: Ray, ray_t: Interval) -> Option<HitRecord>
        decreases self,
    {
        if !self.bbox.hit_spec(r, ray_t) {
            None
        } else {
            let hit_left = self.left.walk_spec(r, ray_t);
            let rest = cut_at(ray_t, hit_t(hit_left));
            let hit_right = match self.right {
                Some(right) => right.walk_spec(r, rest),
                None => self.left.walk_spec(r, rest),
            };
            if hit_right is Some {
                hit_right
            } else {
                hit_left
            }
        }
    }

    /// Whether the child that is asked second, the right one or the left
    /// one again, can report `second` within the range cut at `first`.
    pub open spec fn second_ok(
        self,
        r: Ray,
        ray_t: Interval,
        first: Option<HitRecord>,
        second: Option<HitRecord>,
    ) -> bool
        decreases self, 1int,
    {
        match self.right {
            Some(right) => right.walk_ok(r, cut_at(ray_t, hit_t(first)), second),
            None => self.left.walk_ok(r, cut_at(ray_t, hit_t(first)), second),
        }
    }

    /// Whether `res` is something the node can report for the ray: none
    /// where the ray misses the box; else what the second child can report
    /// within the range cut at a report of the first, and where it reports
    /// nothing, that report of the first.
    pub open spec fn walk_ok(self, r: Ray, ray_t: Interval, res: Option<HitRecord>) -> bool
        decreases self, 2int,
    {
        if !self.bbox.hit_spec(r, ray_t) {
            res is None
        } else {
            exists|first: Option<HitRecord>, second: Option<HitRecord>|
                self.left.walk_ok(r, ray_t, first) && self.second_ok(r, ray_t, first, second)
                    && res == #[trigger] later_hit(second, first)
        }
    }

    /// Tests the box, then asks the left child, and the right child within
    /// what the hit of the left leaves of the range. Whatever the surfaces
    /// below report, a ray that misses the box of the node gets no hit.
    pub fn walk(&self, r: &Ray, ray_t: Interval) -> (res: Option<HitRecord>)
        ensures
            self.walk_ok(*r, ray_t, res),
            self.steady_spec() ==> res == self.walk_spec(*r, ray_t),
            !self.bbox.hit_spec(*r, ray_t) ==> res is None,
            res matches Some(rec) ==> ray_t.min <= rec.t <= ray_t.max,
        decreases self,
    {
        if !self.bbox.hit(r, ray_t) {
            return None;
        }
        let ghost old_t = ray_t;
        let mut ray_t = ray_t;
        let hit_left = self.left.walk(r, ray_t);
        if let Some(rec) = &hit_left {
            ray_t.max = rec.t;
        }
        let hit_right = match &self.right {
            Some(right) => right.walk(r, ray_t),
            None => self.left.walk(r, ray_t),
        };
        let res = if hit_right.is_some() {
            hit_right
        } else {
            hit_left
        };
        proof {
            assert(self.left.walk_ok(*r, old_t, hit_left));
            assert(self.second_ok(*r, old_t, hit_left, hit_right));
            assert(res == later_hit(hit_right, hit_left));
        }
        res
    }

    /// Builds the hierarchy over `objects`.
    pub fn new(objects: Vec<H>) -> (node: Self)
        requires
            objects.len() >= 1,
        ensures
            node == build_spec(objects@),
        decreases objects.len(),
    {
        let bbox = hull(&objects);
        let axis = bbox.longest_axis();
        let object_span = objects.len();
        let mut objects = objects;
        if object_span == 1 {
            let a = objects.pop().unwrap();
            BVHNode { left: BvhChild::Object(a), right: None, bbox }
        } else if object_span == 2 {
            let b = objects.pop().unwrap();
            let a = objects.pop().unwrap();
            BVHNode { left: BvhChild::Object(a), right: Some(BvhChild::Object(b)), bbox }
        } else {
            let ghost unsorted = objects@;
            let mut left_objs = sort_by_box_min(objects, axis);
            let mid = object_span / 2;
            proof {
                lemma_sort_contains(unsorted, axis as int, unsorted[0]);
            }
            let right_objs = left_objs.split_off(mid);
            let left_node = BVHNode::new(left_objs);
            let right_node = BVHNode::new(right_objs);
            BVHNode {
                left: BvhChild::Tree(Box::new(left_node)),
                right: Some(BvhChild::Tree(Box::new(right_node))),
                bbox,
            }
        }
    }

    /// The hierarchy over the surfaces of a list.
    pub fn from_list(value: HittableList<H>) -> (node: Self)
        requires
            value.objects.len() >= 1,
        ensures
            node == build_spec(value.objects@),
    {
        Self::new(value.objects)
    }
}

impl<H: Hittable> Hittable for BVHNode<H> {
    open spec fn steady(&self) -> bool {
        self.steady_spec()
    }

    open spec fn hit_spec(&self, r: Ray, ray_t: Interval) -> Option<HitRecord> {
        self.walk_spec(r, ray_t)
    }

    open spec fn hit_ok(&self, r: Ray, ray_t: Interval, res: Option<HitRecord>) -> bool {
        self.walk_ok(r, ray_t, res)
    }

    open spec fn bounding_box_spec(&self) -> AABB {
        self.bbox
    }

    fn hit(&self, r: &Ray, ray_t: Interval) -> (res: Option<HitRecord>)
        ensures
            !self.bbox.hit_spec(*r, ray_t) ==> res is None,
    {
        self.walk(r, ray_t)
    }

    fn bounding_box(&self) -> (bbox: &AABB) {
        &self.bbox
    }
}

/// The hierarchy over a set of surfaces reports the nearest hit of them
/// all: it misses no hit that one of them reports, and reports no hit
/// where one of them reports a nearer one. This holds for every ray and
/// range for which each surface reports the first hit in a range and lies
/// within its box.
pub proof fn lemma_bvh_hit_nearest<H: Hittable>(objects: Seq<H>, r: Ray, ray_t: Interval)
    requires
        objects.len() >= 1,
        forall|o: H| #[trigger] objects.contains(o) ==> nearest_first(&o, r, ray_t.min),
        forall|o: H| #[trigger] objects.contains(o) ==> box_bounds(&o, r, ray_t.min),
    ensures
        is_nearest(objects, r, ray_t, hit_t(build_spec(objects).hit_spec(r, ray_t))),
    decreases objects.len(),
{
    let node = build_spec(objects);
    let lo = ray_t.min;
    assert(ray_t == Interval { min: lo, max: ray_t.max });
    if !node.bbox.hit_spec(r, ray_t) {
        assert forall|o: H| #[trigger] objects.contains(o) implies o.hit_spec(r, ray_t) is None by {
            if o.hit_spec(r, ray_t) is Some {
                assert(box_bounds(&o, r, lo));
                assert(o.hit_spec(r, Interval { min: lo, max: ray_t.max }) is Some);
                let k = choose|k: int| 0 <= k < objects.len() && objects[k] == o;
                assert forall|i: int| 0 <= i < objects.len() implies (
                #[trigger] objects[i]).bounding_box_spec().is_ordered() by {
                    assert(objects.contains(objects[i]));
                    assert(box_bounds(&objects[i], r, lo));
                }
                lemma_hull_encloses(objects, k);
                lemma_hit_monotone(o.bounding_box_spec(), node.bbox, r, ray_t, ray_t);
            }
        }
    } else if objects.len() == 1 {
        let o = objects[0];
        assert(objects == seq![o]);
        let t_first = hit_t(o.hit_spec(r, ray_t));
        lemma_nearest_single(o, r, ray_t);
        lemma_nearest_single(o, r, cut_at(ray_t, t_first));
        lemma_nearest_compose(
            objects,
            objects,
            objects,
            r,
            ray_t,
            t_first,
            hit_t(o.hit_spec(r, cut_at(ray_t, t_first))),
        );
    } else if objects.len() == 2 {
        let a = objects[0];
        let b = objects[1];
        let t_first = hit_t(a.hit_spec(r, ray_t));
        lemma_nearest_single(a, r, ray_t);
        lemma_nearest_single(b, r, cut_at(ray_t, t_first));
        assert forall|o: H| #[trigger] objects.contains(o) <==> seq![a].contains(o) || seq![
            b,
        ].contains(o) by {
            assert(seq![a][0] == a);
            assert(seq![b][0] == b);
            if objects.contains(o) {
                let i = choose|i: int| 0 <= i < objects.len() && objects[i] == o;
                assert(i == 0 || i == 1);
            }
            if seq![a].contains(o) {
                let i = choose|i: int| 0 <= i < seq![a].len() && seq![a][i] == o;
                assert(objects[0] == o);
            }
            if seq![b].contains(o) {
                let i = choose|i: int| 0 <= i < seq![b].len() && seq![b][i] == o;
                assert(objects[1] == o);
            }
        }
        lemma_nearest_compose(
            seq![a],
            seq![b],
            objects,
            r,
            ray_t,
            t_first,
            hit_t(b.hit_spec(r, cut_at(ray_t, t_first))),
        );
    } else {
        let axis = node.bbox.longest_axis_spec();
        let sorted = sort_spec(objects, axis);
        let mid = objects.len() as int / 2;
        let first = sorted.take(mid);
        let second = sorted.skip(mid);
        lemma_sort_contains(objects, axis, objects[0]);
        assert forall|o: H| #[trigger] objects.contains(o) <==> first.contains(o)
            || second.contains(o) by {
            lemma_sort_contains(objects, axis, o);
            lemma_contains_split(sorted, mid, o);
        }
        assert forall|o: H| #[trigger] first.contains(o) implies objects.contains(o) by {
            lemma_sort_contains(objects, axis, o);
            lemma_contains_split(sorted, mid, o);
        }
        assert forall|o: H| #[trigger] second.contains(o) implies objects.contains(o) by {
            lemma_sort_contains(objects, axis, o);
            lemma_contains_split(sorted, mid, o);
        }
        let left = build_spec(first);
        let right = build_spec(second);
        let t_first = hit_t(left.hit_spec(r, ray_t));
        lemma_bvh_hit_nearest(first, r, ray_t);
        assert(cut_at(ray_t, t_first).min == lo);
        lemma_bvh_hit_nearest(second, r, cut_at(ray_t, t_first));
        lemma_nearest_compose(
            first,
            second,
            objects,
            r,
            ray_t,
            t_first,
            hit_t(right.hit_spec(r, cut_at(ray_t, t_first))),
        );
    }
}

/// The box round surfaces whose boxes have no side thinner than the least
/// thickness has none either.
pub proof fn lemma_hull_padded<H: Hittable>(objects: Seq<H>)
    requires
        objects.len() >= 1,
        forall|i: int|
            0 <= i < objects.len() ==> (#[trigger] objects[i]).bounding_box_spec().is_padded(),
    ensures
        hull_spec(objects).is_padded(),
{
    crate::aabb::lemma_from_aabbs_padded(
        hull_spec(objects.drop_last()),
        objects.last().bounding_box_spec(),
    );
}

/// The number of nodes on the longest way down from a child to a surface.
pub open spec fn child_height_spec<H: Hittable>(child: BvhChild<H>) -> nat
    decreases child,
{
    match child {
        BvhChild::Object(_) => 0,
        BvhChild::Tree(node) => height_spec(*node),
    }
}

/// The number of nodes on the longest way down from a node to a surface,
/// the node counted in.
pub open spec fn height_spec<H: Hittable>(node: BVHNode<H>) -> nat
    decreases node,
{
    let left = child_height_spec(node.left);
    let right = match node.right {
        Some(child) => child_height_spec(child),
        None => 0,
    };
    if left >= right {
        left + 1
    } else {
        right + 1
    }
}

/// The hierarchy is balanced: over at most two to the power `k` surfaces it
/// is no higher than `k`, and over one or two no higher than one.
pub proof fn lemma_build_height<H: Hittable>(objects: Seq<H>, k: nat)
    requires
        1 <= objects.len() <= pow2_bound(k as int),
    ensures
        height_spec(build_spec(objects)) <= (if k == 0 {
            1
        } else {
            k
        }),
    decreases objects.len(),
{
    if objects.len() > 2 {
        assert(k >= 2) by {
            reveal_with_fuel(pow2_bound, 3);
        }
        let axis = hull_spec(objects).longest_axis_spec();
        let sorted = sort_spec(objects, axis);
        let mid = objects.len() as int / 2;
        lemma_sort_contains(objects, axis, objects[0]);
        assert(pow2_bound(k as int) == 2 * pow2_bound(k - 1));
        lemma_build_height(sorted.take(mid), (k - 1) as nat);
        lemma_build_height(sorted.skip(mid), (k - 1) as nat);
    }
}

/// The hierarchy over steady surfaces is steady.
pub proof fn lemma_built_steady<H: Hittable>(objects: Seq<H>)
    requires
        objects.len() >= 1,
        forall|o: H| #[trigger] objects.contains(o) ==> o.steady(),
    ensures
        build_spec(objects).steady(),
    decreases objects.len(),
{
    assert(objects.contains(objects[0]));
    if objects.len() == 2 {
        assert(objects.contains(objects[1]));
    } else if objects.len() > 2 {
        let axis = hull_spec(objects).longest_axis_spec();
        let sorted = sort_spec(objects, axis);
        let mid = objects.len() as int / 2;
        lemma_sort_contains(objects, axis, objects[0]);
        assert forall|o: H| #[trigger] sorted.take(mid).contains(o) implies o.steady() by {
            lemma_sort_contains(objects, axis, o);
            lemma_contains_split(sorted, mid, o);
        }
        assert forall|o: H| #[trigger] sorted.skip(mid).contains(o) implies o.steady() by {
            lemma_sort_contains(objects, axis, o);
            lemma_contains_split(sorted, mid, o);
        }
        lemma_built_steady(sorted.take(mid));
        lemma_built_steady(sorted.skip(mid));
    }
}

/// The hierarchy over surfaces that report the first hit in a range and lie
/// within their boxes does both itself: it can hang in another hierarchy.
pub proof fn lemma_bvh_nearest_first<H: Hittable>(objects: Seq<H>, r: Ray, lo: Scalar)
    requires
        objects.len() >= 1,
        forall|o: H| #[trigger] objects.contains(o) ==> nearest_first(&o, r, lo),
        forall|o: H| #[trigger] objects.contains(o) ==> box_bounds(&o, r, lo),
    ensures
        nearest_first(&build_spec(objects), r, lo),
        box_bounds(&build_spec(objects), r, lo),
{
    let node = build_spec(objects);
    lemma_built_steady(objects);
    assert forall|hi: Scalar|
        is_nearest(
            objects,
            r,
            Interval { min: lo, max: hi },
            hit_t(#[trigger] node.hit_spec(r, Interval { min: lo, max: hi })),
        ) by {
        lemma_bvh_hit_nearest(objects, r, Interval { min: lo, max: hi });
    }
    lemma_group_nearest_first(&node, objects, r, lo);
    assert forall|i: int| 0 <= i < objects.len() implies (
    #[trigger] objects[i]).bounding_box_spec().is_ordered() by {
        assert(objects.contains(objects[i]));
        assert(box_bounds(&objects[i], r, lo));
    }
    lemma_hull_encloses(objects, 0);
}

/// The hierarchy over a set of surfaces and the plain list of the same
/// surfaces report a hit for the same rays, and at the same parameter.
pub proof fn lemma_bvh_matches_list<H: Hittable>(objects: Seq<H>, r: Ray, ray_t: Interval)
    requires
        objects.len() >= 1,
        forall|o: H| #[trigger] objects.contains(o) ==> nearest_first(&o, r, ray_t.min),
        forall|o: H| #[trigger] objects.contains(o) ==> box_bounds(&o, r, ray_t.min),
    ensures
        hit_t(build_spec(objects).hit_spec(r, ray_t)) == hit_t(
            scan_spec(objects, r, ray_t, objects.len() as int),
        ),
{
    lemma_bvh_hit_nearest(objects, r, ray_t);
    lemma_scan_nearest(objects, r, ray_t, objects.len() as int);
    assert(objects.take(objects.len() as int) == objects);
    lemma_nearest_unique(
        objects,
        r,
        ray_t,
        hit_t(build_spec(objects).hit_spec(r, ray_t)),
        hit_t(scan_spec(objects, r, ray_t, objects.len() as int)),
    );
}

} // verus!
