//! Axis-aligned bounding boxes and the slab test.

use vstd::prelude::*;
use crate::interval::Interval;
use crate::math::{sin_cos, sin_cos_spec, turn_defect_spec, lemma_sin_cos_bounded};
use crate::ray::Ray;
use crate::scalar::{
    Scalar, ONE, TWO, MINUS_ONE, INFINITY, NEG_INFINITY, add_spec, sub_spec, mul_spec, div_spec,
    neg_spec, min_spec, max_spec, is_finite, saturate, lemma_mul_minus_one, lemma_mul_monotone,
    lemma_mul_one, lemma_mul_within_one, lemma_mul_within_one_exact, lemma_mul_opposite,
    lemma_trunc_remainder, lemma_round_trip_core, fx_add, fx_sub, fx_mul, fx_div, fx_neg, fx_min,
    fx_max,
};
use crate::vec3::{Vec3, Point, Vector};

verus! {

/// A box with faces square to the axes: one interval for each axis.
pub type AABB = Vec3<Interval>;

/// No side of a padded box is thinner than this.
pub const MIN_THICKNESS: Scalar = 100_000;

/// A box whose ends all lie within this of zero is turned without an
/// infinity among the turned corners.
pub const TURN_LIMIT: Scalar = 4_000_000_000_000_000_000;

/// The interval widened to the least thickness, where it is thinner.
pub open spec fn pad_interval_spec(i: Interval) -> Interval {
    if i.size_spec() < MIN_THICKNESS {
        i.expand_spec(MIN_THICKNESS)
    } else {
        i
    }
}

/// The range of parameters `ray_t` cut down to those at which a ray that
/// starts at `orig` and moves by `dir` on one axis is inside `ax`.
pub open spec fn narrow_spec(ax: Interval, orig: Scalar, dir: Scalar, ray_t: Interval) -> Interval {
    let adinv = div_spec(ONE, dir);
    let t0 = mul_spec(sub_spec(ax.min, orig), adinv);
    let t1 = mul_spec(sub_spec(ax.max, orig), adinv);
    if t0 < t1 {
        Interval { min: max_spec(ray_t.min, t0), max: min_spec(ray_t.max, t1) }
    } else {
        Interval { min: max_spec(ray_t.min, t1), max: min_spec(ray_t.max, t0) }
    }
}

/// `p` turned about `axis` by the angle of the given sine and cosine.
pub open spec fn rotate_point_spec(p: Point, axis: int, sin_theta: Scalar, cos_theta: Scalar) -> Point {
    if axis == 0 {
        Vec3 {
            e0: p.e0,
            e1: sub_spec(mul_spec(cos_theta, p.e1), mul_spec(sin_theta, p.e2)),
            e2: add_spec(mul_spec(sin_theta, p.e1), mul_spec(cos_theta, p.e2)),
        }
    } else if axis == 1 {
        Vec3 {
            e0: add_spec(mul_spec(cos_theta, p.e0), mul_spec(sin_theta, p.e2)),
            e1: p.e1,
            e2: add_spec(mul_spec(neg_spec(sin_theta), p.e0), mul_spec(cos_theta, p.e2)),
        }
    } else {
        Vec3 {
            e0: sub_spec(mul_spec(cos_theta, p.e0), mul_spec(sin_theta, p.e1)),
            e1: add_spec(mul_spec(sin_theta, p.e0), mul_spec(cos_theta, p.e1)),
            e2: p.e2,
        }
    }
}

/// The least of each coordinate of two points.
pub open spec fn lower_spec(a: Point, b: Point) -> Point {
    Vec3 { e0: min_spec(a.e0, b.e0), e1: min_spec(a.e1, b.e1), e2: min_spec(a.e2, b.e2) }
}

/// The greatest of each coordinate of two points.
pub open spec fn upper_spec(a: Point, b: Point) -> Point {
    Vec3 { e0: max_spec(a.e0, b.e0), e1: max_spec(a.e1, b.e1), e2: max_spec(a.e2, b.e2) }
}

/// `p` turned about `axis`.
pub fn rotate_point(p: &Point, axis: usize, sin_theta: Scalar, cos_theta: Scalar) -> (r: Point)
    ensures
        r == rotate_point_spec(*p, axis as int, sin_theta, cos_theta),
{
    if axis == 0 {
        Vec3 {
            e0: p.e0,
            e1: fx_sub(fx_mul(cos_theta, p.e1), fx_mul(sin_theta, p.e2)),
            e2: fx_add(fx_mul(sin_theta, p.e1), fx_mul(cos_theta, p.e2)),
        }
    } else if axis == 1 {
        Vec3 {
            e0: fx_add(fx_mul(cos_theta, p.e0), fx_mul(sin_theta, p.e2)),
            e1: p.e1,
            e2: fx_add(fx_mul(fx_neg(sin_theta), p.e0), fx_mul(cos_theta, p.e2)),
        }
    } else {
        Vec3 {
            e0: fx_sub(fx_mul(cos_theta, p.e0), fx_mul(sin_theta, p.e1)),
            e1: fx_add(fx_mul(sin_theta, p.e0), fx_mul(cos_theta, p.e1)),
            e2: p.e2,
        }
    }
}

fn pad_interval(i: Interval) -> (r: Interval)
    ensures
        r == pad_interval_spec(i),
{
    if i.size() < MIN_THICKNESS {
        i.into_expand(MIN_THICKNESS)
    } else {
        i
    }
}

fn narrow(ax: &Interval, orig: Scalar, dir: Scalar, ray_t: Interval) -> (r: Interval)
    ensures
        r == narrow_spec(*ax, orig, dir, ray_t),
{
    let adinv: Scalar = fx_div(ONE, dir);
    let t0: Scalar = fx_mul(fx_sub(ax.min, orig), adinv);
    let t1: Scalar = fx_mul(fx_sub(ax.max, orig), adinv);
    let mut ray_t = ray_t;
    if t0 < t1 {
        if t0 > ray_t.min {
            ray_t.min = t0;
        }
        if t1 < ray_t.max {
            ray_t.max = t1;
        }
    } else {
        if t1 > ray_t.min {
            ray_t.min = t1;
        }
        if t0 < ray_t.max {
            ray_t.max = t0;
        }
    }
    ray_t
}

impl Vec3<Interval> {
    /// The box that holds no point.
    pub open spec fn empty_spec() -> Self {
        Vec3 { e0: Interval::empty_spec(), e1: Interval::empty_spec(), e2: Interval::empty_spec() }
    }

    /// The box that holds every point.
    pub open spec fn universe_spec() -> Self {
        Vec3 {
            e0: Interval::universe_spec(),
            e1: Interval::universe_spec(),
            e2: Interval::universe_spec(),
        }
    }

    /// The box with every side that is too thin widened.
    pub open spec fn pad_spec(self) -> Self {
        Vec3 {
            e0: pad_interval_spec(self.e0),
            e1: pad_interval_spec(self.e1),
            e2: pad_interval_spec(self.e2),
        }
    }

    /// Every side of this box reaches at least as far as that of `inner`.
    pub open spec fn encloses(self, inner: Self) -> bool {
        interval_encloses(self.e0, inner.e0) && interval_encloses(self.e1, inner.e1)
            && interval_encloses(self.e2, inner.e2)
    }

    /// No side is inside out, nor starts below negative infinity.
    pub open spec fn is_ordered(self) -> bool {
        self.e0.is_ordered() && self.e1.is_ordered() && self.e2.is_ordered()
    }

    /// Every end of every side lies within `limit` of zero.
    pub open spec fn is_within(self, limit: Scalar) -> bool {
        &&& -limit <= self.e0.min <= limit && -limit <= self.e0.max <= limit
        &&& -limit <= self.e1.min <= limit && -limit <= self.e1.max <= limit
        &&& -limit <= self.e2.min <= limit && -limit <= self.e2.max <= limit
    }

    /// No side is thinner than the least thickness.
    pub open spec fn is_padded(self) -> bool {
        self.e0.size_spec() >= MIN_THICKNESS && self.e1.size_spec() >= MIN_THICKNESS
            && self.e2.size_spec() >= MIN_THICKNESS
    }

    /// The box between two corners, given in any order, before padding.
    pub open spec fn span_spec(a: Point, b: Point) -> Self {
        Vec3 {
            e0: Interval { min: min_spec(a.e0, b.e0), max: max_spec(a.e0, b.e0) },
            e1: Interval { min: min_spec(a.e1, b.e1), max: max_spec(a.e1, b.e1) },
            e2: Interval { min: min_spec(a.e2, b.e2), max: max_spec(a.e2, b.e2) },
        }
    }

    /// The padded box between two corners, given in any order.
    pub open spec fn from_points_spec(a: Point, b: Point) -> Self {
        Self::span_spec(a, b).pad_spec()
    }

    /// The tightest box round two boxes, before padding.
    pub open spec fn union_spec(box0: Self, box1: Self) -> Self {
        Vec3 {
            e0: Interval::union_spec(box0.e0, box1.e0),
            e1: Interval::union_spec(box0.e1, box1.e1),
            e2: Interval::union_spec(box0.e2, box1.e2),
        }
    }

    /// The padded box round two boxes.
    pub open spec fn from_aabbs_spec(box0: Self, box1: Self) -> Self {
        Self::union_spec(box0, box1).pad_spec()
    }

    /// Whether the ray is inside the box over a stretch of `ray_t` that is
    /// more than a point.
    pub open spec fn hit_spec(self, r: Ray, ray_t: Interval) -> bool {
        let t0 = narrow_spec(self.e0, r.orig.e0, r.dir.e0, ray_t);
        let t1 = narrow_spec(self.e1, r.orig.e1, r.dir.e1, t0);
        let t2 = narrow_spec(self.e2, r.orig.e2, r.dir.e2, t1);
        t0.min < t0.max && t1.min < t1.max && t2.min < t2.max
    }

    /// The axis on which the box is longest. The first axis is set against
    /// the second and wins where it is longer; the winner is set against the
    /// third axis and wins where it is as long at least.
    pub open spec fn longest_axis_spec(self) -> int {
        if self.e0.size_spec() > self.e1.size_spec() {
            if self.e0.size_spec() >= self.e2.size_spec() {
                0
            } else {
                2
            }
        } else {
            if self.e1.size_spec() >= self.e2.size_spec() {
                1
            } else {
                2
            }
        }
    }

    /// One of the eight corners: bit 2 of `n` picks the end on the first
    /// axis, bit 1 on the second, bit 0 on the third.
    pub open spec fn corner_spec(self, n: int) -> Point {
        Vec3 {
            e0: if n / 4 % 2 == 1 { self.e0.max } else { self.e0.min },
            e1: if n / 2 % 2 == 1 { self.e1.max } else { self.e1.min },
            e2: if n % 2 == 1 { self.e2.max } else { self.e2.min },
        }
    }

    /// The least coordinates among the first `n` corners after the turn.
    pub open spec fn turned_low_spec(self, axis: int, sin_theta: Scalar, cos_theta: Scalar, n: int) -> Point
        decreases n,
    {
        if n <= 0 {
            Vec3 { e0: INFINITY, e1: INFINITY, e2: INFINITY }
        } else {
            lower_spec(
                self.turned_low_spec(axis, sin_theta, cos_theta, n - 1),
                rotate_point_spec(self.corner_spec(n - 1), axis, sin_theta, cos_theta),
            )
        }
    }

    /// The greatest coordinates among the first `n` corners after the turn.
    pub open spec fn turned_high_spec(self, axis: int, sin_theta: Scalar, cos_theta: Scalar, n: int) -> Point
        decreases n,
    {
        if n <= 0 {
            Vec3 { e0: NEG_INFINITY, e1: NEG_INFINITY, e2: NEG_INFINITY }
        } else {
            upper_spec(
                self.turned_high_spec(axis, sin_theta, cos_theta, n - 1),
                rotate_point_spec(self.corner_spec(n - 1), axis, sin_theta, cos_theta),
            )
        }
    }

    /// The padded box round the eight corners after a turn about `axis` by
    /// `radians`.
    pub open spec fn rotate_spec(self, axis: int, radians: Scalar) -> Self {
        let (sin_theta, cos_theta) = sin_cos_spec(radians);
        Self::from_points_spec(
            self.turned_low_spec(axis, sin_theta, cos_theta, 8),
            self.turned_high_spec(axis, sin_theta, cos_theta, 8),
        )
    }

    /// The box moved by `offset`.
    pub open spec fn translate_spec(self, offset: Vector) -> Self {
        Vec3 {
            e0: self.e0.shift_spec(offset.e0),
            e1: self.e1.shift_spec(offset.e1),
            e2: self.e2.shift_spec(offset.e2),
        }
    }

    /// The padded box between two corners, given in any order.
    pub fn from_points(a: &Point, b: &Point) -> (r: Self)
        ensures
            r == Self::from_points_spec(*a, *b),
            a.is_finite() && b.is_finite() ==> r.is_padded(),
    {
        proof {
            if a.is_finite() && b.is_finite() {
                lemma_from_points_padded(*a, *b);
            }
        }
        let x = Interval::from(fx_min(a.e0, b.e0), fx_max(a.e0, b.e0));
        let y = Interval::from(fx_min(a.e1, b.e1), fx_max(a.e1, b.e1));
        let z = Interval::from(fx_min(a.e2, b.e2), fx_max(a.e2, b.e2));
        Vec3::new(x, y, z).pad_to_minimums()
    }

    /// The padded box round two boxes.
    pub fn from_aabbs(box0: &Self, box1: &Self) -> (r: Self)
        ensures
            r == Self::from_aabbs_spec(*box0, *box1),
            box0.is_padded() || box1.is_padded() ==> r.is_padded(),
    {
        proof {
            if box0.is_padded() || box1.is_padded() {
                lemma_from_aabbs_padded(*box0, *box1);
            }
        }
        Vec3::new(
            Interval::from_intervals(&box0.e0, &box1.e0),
            Interval::from_intervals(&box0.e1, &box1.e1),
            Interval::from_intervals(&box0.e2, &box1.e2),
        ).pad_to_minimums()
    }

    /// Widens every side that is thinner than the least thickness.
    pub fn pad_to_minimums(self) -> (r: Self)
        ensures
            r == self.pad_spec(),
    {
        Vec3 { e0: pad_interval(self.e0), e1: pad_interval(self.e1), e2: pad_interval(self.e2) }
    }

    /// The box that holds no point.
    pub fn empty() -> (r: Self)
        ensures
            r == Self::empty_spec(),
    {
        Vec3::new(Interval::new(), Interval::new(), Interval::new())
    }

    /// The box that holds every point.
    pub fn universe() -> (r: Self)
        ensures
            r == Self::universe_spec(),
    {
        Vec3::new(Interval::universe(), Interval::universe(), Interval::universe())
    }

    /// The slab test, with an early exit on the first axis that rules the
    /// ray out.
    pub fn hit(&self, r: &Ray, ray_t: Interval) -> (res: bool)
        ensures
            res == self.hit_spec(*r, ray_t),
    {
        let t0 = narrow(&self.e0, r.orig.e0, r.dir.e0, ray_t);
        if t0.max <= t0.min {
            return false;
        }
        let t1 = narrow(&self.e1, r.orig.e1, r.dir.e1, t0);
        if t1.max <= t1.min {
            return false;
        }
        let t2 = narrow(&self.e2, r.orig.e2, r.dir.e2, t1);
        if t2.max <= t2.min {
            return false;
        }
        true
    }

    /// The axis on which the box is longest.
    pub fn longest_axis(&self) -> (axis: usize)
        ensures
            axis == self.longest_axis_spec(),
            axis < 3,
    {
        if self.e0.size() > self.e1.size() {
            if self.e0.size() >= self.e2.size() {
                0
            } else {
                2
            }
        } else {
            if self.e1.size() >= self.e2.size() {
                1
            } else {
                2
            }
        }
    }

    fn corner(&self, n: usize) -> (p: Point)
        ensures
            p == self.corner_spec(n as int),
    {
        Vec3 {
            e0: if n / 4 % 2 == 1 { self.e0.max } else { self.e0.min },
            e1: if n / 2 % 2 == 1 { self.e1.max } else { self.e1.min },
            e2: if n % 2 == 1 { self.e2.max } else { self.e2.min },
        }
    }

    /// The padded box round this box turned about the axis `AXIS` (an axis
    /// above 2 counts as 2) by `radians`.
    pub fn rotate<const AXIS: usize>(&self, radians: Scalar) -> (r: Self)
        ensures
            r == self.rotate_spec(AXIS as int, radians),
            self.is_within(TURN_LIMIT) ==> r.is_padded(),
    {
        let (sin_theta, cos_theta): (Scalar, Scalar) = sin_cos(radians);
        proof {
            if self.is_within(TURN_LIMIT) {
                lemma_turned_finite(*self, AXIS as int, sin_theta, cos_theta, 8);
            }
        }
        let mut min: Point = Vec3::all(INFINITY);
        let mut max: Point = Vec3::all(NEG_INFINITY);
        let mut n: usize = 0;
        while n < 8
            invariant
                n <= 8,
                min == self.turned_low_spec(AXIS as int, sin_theta, cos_theta, n as int),
                max == self.turned_high_spec(AXIS as int, sin_theta, cos_theta, n as int),
            decreases 8 - n,
        {
            let tester = rotate_point(&self.corner(n), AXIS, sin_theta, cos_theta);
            min = Vec3 {
                e0: fx_min(min.e0, tester.e0),
                e1: fx_min(min.e1, tester.e1),
                e2: fx_min(min.e2, tester.e2),
            };
            max = Vec3 {
                e0: fx_max(max.e0, tester.e0),
                e1: fx_max(max.e1, tester.e1),
                e2: fx_max(max.e2, tester.e2),
            };
            n = n + 1;
        }
        Self::from_points(&min, &max)
    }

    /// The box moved by `offset`.
    pub fn translate(&self, offset: &Vector) -> (r: Self)
        ensures
            r == self.translate_spec(*offset),
    {
        Vec3::new(self.e0.shift(offset.e0), self.e1.shift(offset.e1), self.e2.shift(offset.e2))
    }
}

/// A ray that does not move along an axis is not cut down where it starts
/// strictly inside the slab of that axis, and is ruled out where it starts
/// outside: the division by zero gives the infinities that see to both.
/// Where it starts on a face of the slab, the product of nothing and an
/// infinity is nothing, so the range is cut at the start of the ray: from
/// there on for the lower face, up to there for the upper face, and to
/// there alone for a slab without thickness.
pub proof fn lemma_narrow_parallel(ax: Interval, orig: Scalar, ray_t: Interval)
    requires
        is_finite(ax.min) && is_finite(ax.max) && is_finite(orig),
        ax.min <= ax.max,
        ray_t.min >= NEG_INFINITY,
    ensures
        ax.min < orig < ax.max ==> narrow_spec(ax, orig, 0, ray_t) == ray_t,
        orig < ax.min || orig > ax.max ==> narrow_spec(ax, orig, 0, ray_t).max <= narrow_spec(
            ax,
            orig,
            0,
            ray_t,
        ).min,
        ax.min == orig < ax.max ==> narrow_spec(ax, orig, 0, ray_t) == (Interval {
            min: max_spec(ray_t.min, 0),
            max: ray_t.max,
        }),
        ax.min < orig == ax.max ==> narrow_spec(ax, orig, 0, ray_t) == (Interval {
            min: ray_t.min,
            max: min_spec(ray_t.max, 0),
        }),
        ax.min == orig == ax.max ==> narrow_spec(ax, orig, 0, ray_t) == (Interval {
            min: max_spec(ray_t.min, 0),
            max: min_spec(ray_t.max, 0),
        }),
{
}

/// Every side of `outer` reaches at least as far as that of `inner`.
pub open spec fn interval_encloses(outer: Interval, inner: Interval) -> bool {
    outer.min <= inner.min && inner.max <= outer.max
}

/// Narrowing by a wider interval, from a wider range, gives a wider range.
pub proof fn lemma_narrow_monotone(
    inner: Interval,
    outer: Interval,
    orig: Scalar,
    dir: Scalar,
    ray_t: Interval,
    wide_t: Interval,
)
    requires
        inner.is_ordered(),
        interval_encloses(outer, inner),
        interval_encloses(wide_t, ray_t),
    ensures
        interval_encloses(
            narrow_spec(outer, orig, dir, wide_t),
            narrow_spec(inner, orig, dir, ray_t),
        ),
{
    let adinv = div_spec(ONE, dir);
    lemma_mul_monotone(sub_spec(outer.min, orig), sub_spec(inner.min, orig), adinv);
    lemma_mul_monotone(sub_spec(inner.min, orig), sub_spec(inner.max, orig), adinv);
    lemma_mul_monotone(sub_spec(inner.max, orig), sub_spec(outer.max, orig), adinv);
}

/// A ray that hits a box whose sides are not inside out hits every box
/// round it, over the same range of its parameter and over any wider one.
pub proof fn lemma_hit_monotone(inner: AABB, outer: AABB, r: Ray, ray_t: Interval, wide_t: Interval)
    requires
        inner.is_ordered(),
        outer.encloses(inner),
        interval_encloses(wide_t, ray_t),
        inner.hit_spec(r, ray_t),
    ensures
        outer.hit_spec(r, wide_t),
{
    let t0 = narrow_spec(inner.e0, r.orig.e0, r.dir.e0, ray_t);
    let t1 = narrow_spec(inner.e1, r.orig.e1, r.dir.e1, t0);
    let w0 = narrow_spec(outer.e0, r.orig.e0, r.dir.e0, wide_t);
    let w1 = narrow_spec(outer.e1, r.orig.e1, r.dir.e1, w0);
    lemma_narrow_monotone(inner.e0, outer.e0, r.orig.e0, r.dir.e0, ray_t, wide_t);
    lemma_narrow_monotone(inner.e1, outer.e1, r.orig.e1, r.dir.e1, t0, w0);
    lemma_narrow_monotone(inner.e2, outer.e2, r.orig.e2, r.dir.e2, t1, w1);
}

/// Half the least thickness.
pub proof fn lemma_half_thickness()
    ensures
        div_spec(MIN_THICKNESS, TWO) == 50_000,
{
    assert(100_000_000_000_000int / 2_000_000_000int == 50_000) by (nonlinear_arith);
    assert(MIN_THICKNESS * ONE == 100_000_000_000_000int);
}

/// Padding only widens an interval.
pub proof fn lemma_pad_encloses(i: Interval)
    requires
        i.min >= NEG_INFINITY,
    ensures
        interval_encloses(pad_interval_spec(i), i),
{
    lemma_half_thickness();
}

/// The box round two boxes encloses both, as long as neither starts below
/// negative infinity.
pub proof fn lemma_from_aabbs_encloses(a: AABB, b: AABB)
    requires
        a.e0.min >= NEG_INFINITY && a.e1.min >= NEG_INFINITY && a.e2.min >= NEG_INFINITY,
        b.e0.min >= NEG_INFINITY && b.e1.min >= NEG_INFINITY && b.e2.min >= NEG_INFINITY,
    ensures
        AABB::from_aabbs_spec(a, b).encloses(a),
        AABB::from_aabbs_spec(a, b).encloses(b),
        AABB::from_aabbs_spec(a, b).e0.min >= NEG_INFINITY,
        AABB::from_aabbs_spec(a, b).e1.min >= NEG_INFINITY,
        AABB::from_aabbs_spec(a, b).e2.min >= NEG_INFINITY,
{
    lemma_half_thickness();
}

/// The sine and cosine are those of a whole number of quarter turns.
pub open spec fn is_quarter_turn(sin_theta: Scalar, cos_theta: Scalar) -> bool {
    (sin_theta == 0 && (cos_theta == ONE || cos_theta == MINUS_ONE)) || (cos_theta == 0 && (
    sin_theta == ONE || sin_theta == MINUS_ONE))
}

/// The products of a finite number with zero, one and minus one, as the
/// sines and cosines of quarter turns are.
pub proof fn lemma_exact_product(k: Scalar, x: Scalar)
    requires
        is_finite(x),
        k == 0 || k == ONE || k == MINUS_ONE,
    ensures
        mul_spec(k, x) == (if k == 0 {
            0
        } else if k == ONE {
            x
        } else {
            neg_spec(x)
        }),
        is_finite(mul_spec(k, x)),
{
    lemma_mul_one(x);
    lemma_mul_minus_one(x);
}

/// What a quarter turn makes of two coordinates: they stay, swap, or
/// change their signs.
pub proof fn lemma_quarter_turn_plane(a: Scalar, b: Scalar, sin_theta: Scalar, cos_theta: Scalar)
    requires
        is_finite(a),
        is_finite(b),
        is_quarter_turn(sin_theta, cos_theta),
    ensures
        ({
            let there_a = sub_spec(mul_spec(cos_theta, a), mul_spec(sin_theta, b));
            let there_b = add_spec(mul_spec(sin_theta, a), mul_spec(cos_theta, b));
            let back = neg_spec(sin_theta);
            &&& is_finite(there_a) && is_finite(there_b)
            &&& sub_spec(mul_spec(cos_theta, there_a), mul_spec(back, there_b)) == a
            &&& add_spec(mul_spec(back, there_a), mul_spec(cos_theta, there_b)) == b
            &&& add_spec(mul_spec(cos_theta, there_a), mul_spec(sin_theta, there_b)) == a
        }),
        ({
            let there_a = add_spec(mul_spec(cos_theta, a), mul_spec(sin_theta, b));
            let there_b = add_spec(mul_spec(neg_spec(sin_theta), a), mul_spec(cos_theta, b));
            let back = neg_spec(sin_theta);
            &&& is_finite(there_a) && is_finite(there_b)
            &&& add_spec(mul_spec(cos_theta, there_a), mul_spec(back, there_b)) == a
            &&& add_spec(mul_spec(neg_spec(back), there_a), mul_spec(cos_theta, there_b)) == b
            &&& sub_spec(mul_spec(cos_theta, there_a), mul_spec(sin_theta, there_b)) == a
        }),
{
    let back = neg_spec(sin_theta);
    lemma_exact_product(cos_theta, a);
    lemma_exact_product(cos_theta, b);
    lemma_exact_product(sin_theta, a);
    lemma_exact_product(sin_theta, b);
    lemma_exact_product(back, a);
    lemma_exact_product(back, b);
    let a1 = sub_spec(mul_spec(cos_theta, a), mul_spec(sin_theta, b));
    let b1 = add_spec(mul_spec(sin_theta, a), mul_spec(cos_theta, b));
    lemma_exact_product(cos_theta, a1);
    lemma_exact_product(cos_theta, b1);
    lemma_exact_product(sin_theta, a1);
    lemma_exact_product(sin_theta, b1);
    lemma_exact_product(back, a1);
    lemma_exact_product(back, b1);
    let a2 = add_spec(mul_spec(cos_theta, a), mul_spec(sin_theta, b));
    let b2 = add_spec(mul_spec(back, a), mul_spec(cos_theta, b));
    lemma_exact_product(cos_theta, a2);
    lemma_exact_product(cos_theta, b2);
    lemma_exact_product(sin_theta, a2);
    lemma_exact_product(sin_theta, b2);
    lemma_exact_product(back, a2);
    lemma_exact_product(back, b2);
}

/// A point turned by a whole number of quarter turns and then turned back
/// is where it was.
pub proof fn lemma_quarter_turn_round_trip(
    p: Point,
    axis: int,
    sin_theta: Scalar,
    cos_theta: Scalar,
)
    requires
        p.is_finite(),
        is_quarter_turn(sin_theta, cos_theta),
    ensures
        rotate_point_spec(
            rotate_point_spec(p, axis, sin_theta, cos_theta),
            axis,
            neg_spec(sin_theta),
            cos_theta,
        ) == p,
        rotate_point_spec(
            rotate_point_spec(p, axis, neg_spec(sin_theta), cos_theta),
            axis,
            sin_theta,
            cos_theta,
        ) == p,
        rotate_point_spec(p, axis, sin_theta, cos_theta).is_finite(),
        rotate_point_spec(p, axis, neg_spec(sin_theta), cos_theta).is_finite(),
{
    let back = neg_spec(sin_theta);
    assert(neg_spec(back) == sin_theta);
    if axis == 0 {
        lemma_quarter_turn_plane(p.e1, p.e2, sin_theta, cos_theta);
        lemma_quarter_turn_plane(p.e1, p.e2, back, cos_theta);
    } else if axis == 1 {
        lemma_quarter_turn_plane(p.e0, p.e2, sin_theta, cos_theta);
        lemma_quarter_turn_plane(p.e0, p.e2, back, cos_theta);
    } else {
        lemma_quarter_turn_plane(p.e0, p.e1, sin_theta, cos_theta);
        lemma_quarter_turn_plane(p.e0, p.e1, back, cos_theta);
    }
}

/// Whether the coordinate `after` is as close to `before` as a turn there
/// and back leaves it: within the share of `before` that the defect of the
/// sine and the cosine makes, and six billionths more.
pub open spec fn close_after_turns(
    before: Scalar,
    after: Scalar,
    sin_theta: Scalar,
    cos_theta: Scalar,
) -> bool {
    let gap: int = if after >= before {
        after - before
    } else {
        before - after
    };
    let size: int = if before >= 0 {
        before as int
    } else {
        -before
    };
    ONE * ONE * gap <= turn_defect_spec(sin_theta, cos_theta) * size + 6 * (ONE * ONE)
}

/// One turn of two coordinates within the turn limit: each new coordinate
/// is the exact sum of products over one, rounded by less than two, and no
/// further from zero than the two old ones together.
pub proof fn lemma_turn_stage(a: Scalar, b: Scalar, sin_theta: Scalar, cos_theta: Scalar)
    requires
        -TURN_LIMIT <= a <= TURN_LIMIT,
        -TURN_LIMIT <= b <= TURN_LIMIT,
        MINUS_ONE <= sin_theta <= ONE,
        MINUS_ONE <= cos_theta <= ONE,
    ensures
        ({
            let there_a = sub_spec(mul_spec(cos_theta, a), mul_spec(sin_theta, b));
            let there_b = add_spec(mul_spec(sin_theta, a), mul_spec(cos_theta, b));
            let size_a: int = if a >= 0 { a as int } else { -a };
            let size_b: int = if b >= 0 { b as int } else { -b };
            &&& -2 * ONE < cos_theta * a - sin_theta * b - ONE * there_a < 2 * ONE
            &&& -2 * ONE < sin_theta * a + cos_theta * b - ONE * there_b < 2 * ONE
            &&& -(size_a + size_b) <= there_a <= size_a + size_b
            &&& -(size_a + size_b) <= there_b <= size_a + size_b
        }),
{
    lemma_mul_within_one(cos_theta, a);
    lemma_mul_within_one(sin_theta, b);
    lemma_mul_within_one(sin_theta, a);
    lemma_mul_within_one(cos_theta, b);
    lemma_mul_within_one_exact(cos_theta, a);
    lemma_mul_within_one_exact(sin_theta, b);
    lemma_mul_within_one_exact(sin_theta, a);
    lemma_mul_within_one_exact(cos_theta, b);
    lemma_trunc_remainder(cos_theta * a);
    lemma_trunc_remainder(sin_theta * b);
    lemma_trunc_remainder(sin_theta * a);
    lemma_trunc_remainder(cos_theta * b);
}

/// Two coordinates within half the turn limit, turned and turned back,
/// come back close to where they were.
pub proof fn lemma_turn_plane_close(a: Scalar, b: Scalar, sin_theta: Scalar, cos_theta: Scalar)
    requires
        -TURN_LIMIT <= 2 * a <= TURN_LIMIT,
        -TURN_LIMIT <= 2 * b <= TURN_LIMIT,
        MINUS_ONE <= sin_theta <= ONE,
        MINUS_ONE <= cos_theta <= ONE,
    ensures
        ({
            let there_a = sub_spec(mul_spec(cos_theta, a), mul_spec(sin_theta, b));
            let there_b = add_spec(mul_spec(sin_theta, a), mul_spec(cos_theta, b));
            let back = neg_spec(sin_theta);
            let back_a = sub_spec(mul_spec(cos_theta, there_a), mul_spec(back, there_b));
            let back_b = add_spec(mul_spec(back, there_a), mul_spec(cos_theta, there_b));
            &&& close_after_turns(a, back_a, sin_theta, cos_theta)
            &&& close_after_turns(b, back_b, sin_theta, cos_theta)
        }),
{
    let s = sin_theta;
    let c = cos_theta;
    let back = neg_spec(s);
    let a1 = sub_spec(mul_spec(c, a), mul_spec(s, b));
    let b1 = add_spec(mul_spec(s, a), mul_spec(c, b));
    let a2 = sub_spec(mul_spec(c, a1), mul_spec(back, b1));
    let b2 = add_spec(mul_spec(back, a1), mul_spec(c, b1));
    lemma_turn_stage(a, b, s, c);
    lemma_turn_stage(a1, b1, back, c);
    let r1 = c * a - s * b - ONE * a1;
    let r2 = s * a + c * b - ONE * b1;
    let r3 = c * a1 - back * b1 - ONE * a2;
    let r4 = back * a1 + c * b1 - ONE * b2;
    assert(back * b1 == -(s * b1) && back * a1 == -(s * a1) && back * a == -(s * a) && back * b
        == -(s * b) && back * back == s * s) by (nonlinear_arith)
        requires
            back == -s,
    ;
    lemma_round_trip_core(
        a as int,
        b as int,
        s as int,
        c as int,
        a1 as int,
        b1 as int,
        a2 as int,
        r1,
        r2,
        r3,
    );
    lemma_round_trip_core(
        b as int,
        a as int,
        back as int,
        c as int,
        b1 as int,
        a1 as int,
        b2 as int,
        r2,
        r1,
        r4,
    );
    lemma_defect_share(a as int, a2 as int, c * c + s * s - ONE * ONE);
    lemma_defect_share(b as int, b2 as int, c * c + s * s - ONE * ONE);
}

/// A change within six of a share `d * x` is within six of the size of
/// `d` times the size of `x`.
proof fn lemma_defect_share(x: int, x2: int, d: int)
    requires
        -6 * (ONE * ONE) <= ONE * ONE * (x2 - x) - d * x <= 6 * (ONE * ONE),
    ensures
        ({
            let gap: int = if x2 >= x { x2 - x } else { x - x2 };
            let size: int = if x >= 0 { x } else { -x };
            let defect: int = if d >= 0 { d } else { -d };
            ONE * ONE * gap <= defect * size + 6 * (ONE * ONE)
        }),
{
    let gap: int = if x2 >= x { x2 - x } else { x - x2 };
    let size: int = if x >= 0 { x } else { -x };
    let defect: int = if d >= 0 { d } else { -d };
    assert(defect * size >= d * x && defect * size >= -(d * x)) by (nonlinear_arith)
        requires
            defect == (if d >= 0 { d } else { -d }),
            size == (if x >= 0 { x } else { -x }),
    ;
    assert(ONE * ONE * gap == ONE * ONE * (x2 - x) || ONE * ONE * gap == -(ONE * ONE * (x2 - x)))
        by (nonlinear_arith)
        requires
            gap == x2 - x || gap == -(x2 - x),
    ;
}

/// A point within half the turn limit, turned about an axis and turned
/// back, comes back close to where it was: each coordinate within its
/// share of the defect of the sine and the cosine, and six billionths
/// more. The coordinate on the axis does not change.
pub proof fn lemma_turn_round_trip_close(
    p: Point,
    axis: int,
    sin_theta: Scalar,
    cos_theta: Scalar,
)
    requires
        -TURN_LIMIT <= 2 * p.e0 <= TURN_LIMIT,
        -TURN_LIMIT <= 2 * p.e1 <= TURN_LIMIT,
        -TURN_LIMIT <= 2 * p.e2 <= TURN_LIMIT,
        MINUS_ONE <= sin_theta <= ONE,
        MINUS_ONE <= cos_theta <= ONE,
    ensures
        ({
            let back = rotate_point_spec(
                rotate_point_spec(p, axis, sin_theta, cos_theta),
                axis,
                neg_spec(sin_theta),
                cos_theta,
            );
            &&& close_after_turns(p.e0, back.e0, sin_theta, cos_theta)
            &&& close_after_turns(p.e1, back.e1, sin_theta, cos_theta)
            &&& close_after_turns(p.e2, back.e2, sin_theta, cos_theta)
        }),
        ({
            let back = rotate_point_spec(
                rotate_point_spec(p, axis, neg_spec(sin_theta), cos_theta),
                axis,
                sin_theta,
                cos_theta,
            );
            &&& close_after_turns(p.e0, back.e0, sin_theta, cos_theta)
            &&& close_after_turns(p.e1, back.e1, sin_theta, cos_theta)
            &&& close_after_turns(p.e2, back.e2, sin_theta, cos_theta)
        }),
{
    let s = sin_theta;
    let c = cos_theta;
    let back = neg_spec(s);
    assert(neg_spec(back) == s);
    assert(turn_defect_spec(back, c) == turn_defect_spec(s, c)) by {
        assert(back * back == s * s) by (nonlinear_arith)
            requires
                back == -s,
        ;
    }
    assert(0 <= 6 * (ONE * ONE)) by (nonlinear_arith);
    assert(forall|x: Scalar| close_after_turns(x, x, s, c)) by {
        assert forall|x: Scalar| close_after_turns(x, x, s, c) by {
            let size: int = if x >= 0 { x as int } else { -x };
            assert(turn_defect_spec(s, c) * size >= 0) by (nonlinear_arith)
                requires
                    turn_defect_spec(s, c) >= 0,
                    size >= 0,
            ;
            assert(ONE * ONE * 0 == 0);
        }
    }
    if axis == 0 {
        lemma_turn_plane_close(p.e1, p.e2, s, c);
        lemma_turn_plane_close(p.e1, p.e2, back, c);
    } else if axis == 1 {
        lemma_turn_axis_one(p.e0, p.e2, s, c);
        lemma_turn_axis_one(p.e0, p.e2, back, c);
    } else {
        lemma_turn_plane_close(p.e0, p.e1, s, c);
        lemma_turn_plane_close(p.e0, p.e1, back, c);
    }
}

/// The same for the two coordinates of a turn about the second axis,
/// whose sine counts the other way round.
proof fn lemma_turn_axis_one(a: Scalar, b: Scalar, sin_theta: Scalar, cos_theta: Scalar)
    requires
        -TURN_LIMIT <= 2 * a <= TURN_LIMIT,
        -TURN_LIMIT <= 2 * b <= TURN_LIMIT,
        MINUS_ONE <= sin_theta <= ONE,
        MINUS_ONE <= cos_theta <= ONE,
    ensures
        ({
            let back = neg_spec(sin_theta);
            let there_a = add_spec(mul_spec(cos_theta, a), mul_spec(sin_theta, b));
            let there_b = add_spec(mul_spec(back, a), mul_spec(cos_theta, b));
            let back_a = add_spec(mul_spec(cos_theta, there_a), mul_spec(back, there_b));
            let back_b = add_spec(mul_spec(neg_spec(back), there_a), mul_spec(cos_theta, there_b));
            &&& close_after_turns(a, back_a, sin_theta, cos_theta)
            &&& close_after_turns(b, back_b, sin_theta, cos_theta)
        }),
{
    let s = sin_theta;
    let c = cos_theta;
    let back = neg_spec(s);
    assert(neg_spec(back) == s);
    lemma_turn_plane_close(a, b, back, c);
    lemma_turn_stage(a, b, back, c);
    let a1 = sub_spec(mul_spec(c, a), mul_spec(back, b));
    let b1 = add_spec(mul_spec(back, a), mul_spec(c, b));
    lemma_mul_opposite(s, b);
    lemma_mul_opposite(s, b1);
    lemma_mul_within_one(s, b);
    lemma_mul_within_one(s, b1);
    lemma_mul_within_one(c, a);
    lemma_mul_within_one(c, a1);
    assert(back * back == s * s) by (nonlinear_arith)
        requires
            back == -s,
    ;
}

/// Whether the coordinate `after` is within two billionths of the size of
/// `before`, and six billionths more, of `before`.
pub open spec fn near_after_turns(before: Scalar, after: Scalar) -> bool {
    let gap: int = if after >= before {
        after - before
    } else {
        before - after
    };
    let size: int = if before >= 0 {
        before as int
    } else {
        -before
    };
    ONE * gap <= 2 * size + 6 * ONE
}

/// What is close by a defect of no more than twice a billionth is near.
pub proof fn lemma_close_is_near(
    before: Scalar,
    after: Scalar,
    sin_theta: Scalar,
    cos_theta: Scalar,
)
    requires
        close_after_turns(before, after, sin_theta, cos_theta),
        turn_defect_spec(sin_theta, cos_theta) <= 2 * ONE,
    ensures
        near_after_turns(before, after),
{
    let gap: int = if after >= before { after - before } else { before - after };
    let size: int = if before >= 0 { before as int } else { -before };
    let defect = turn_defect_spec(sin_theta, cos_theta);
    assert(defect * size <= 2 * ONE * size) by (nonlinear_arith)
        requires
            defect <= 2 * ONE,
            size >= 0,
    ;
    assert(ONE * gap <= 2 * size + 6 * ONE) by (nonlinear_arith)
        requires
            ONE * ONE * gap <= 2 * ONE * size + 6 * (ONE * ONE),
    ;
}

/// A point within half the turn limit, turned about an axis by an angle
/// and turned back by it, comes back near where it was, whatever the
/// angle: each coordinate within two billionths of its size, and six
/// billionths more.
pub proof fn lemma_angle_round_trip(p: Point, axis: int, radians: Scalar)
    requires
        -TURN_LIMIT <= 2 * p.e0 <= TURN_LIMIT,
        -TURN_LIMIT <= 2 * p.e1 <= TURN_LIMIT,
        -TURN_LIMIT <= 2 * p.e2 <= TURN_LIMIT,
    ensures
        ({
            let (sin_theta, cos_theta) = sin_cos_spec(radians);
            let back = rotate_point_spec(
                rotate_point_spec(p, axis, sin_theta, cos_theta),
                axis,
                neg_spec(sin_theta),
                cos_theta,
            );
            near_after_turns(p.e0, back.e0) && near_after_turns(p.e1, back.e1)
                && near_after_turns(p.e2, back.e2)
        }),
        ({
            let (sin_theta, cos_theta) = sin_cos_spec(radians);
            let back = rotate_point_spec(
                rotate_point_spec(p, axis, neg_spec(sin_theta), cos_theta),
                axis,
                sin_theta,
                cos_theta,
            );
            near_after_turns(p.e0, back.e0) && near_after_turns(p.e1, back.e1)
                && near_after_turns(p.e2, back.e2)
        }),
{
    let (s, c) = sin_cos_spec(radians);
    lemma_sin_cos_bounded(radians);
    lemma_turn_round_trip_close(p, axis, s, c);
    let there = rotate_point_spec(rotate_point_spec(p, axis, s, c), axis, neg_spec(s), c);
    let back = rotate_point_spec(rotate_point_spec(p, axis, neg_spec(s), c), axis, s, c);
    lemma_close_is_near(p.e0, there.e0, s, c);
    lemma_close_is_near(p.e1, there.e1, s, c);
    lemma_close_is_near(p.e2, there.e2, s, c);
    lemma_close_is_near(p.e0, back.e0, s, c);
    lemma_close_is_near(p.e1, back.e1, s, c);
    lemma_close_is_near(p.e2, back.e2, s, c);
}

/// A turn about an axis above the third is a turn about the third.
pub proof fn lemma_rotate_high_axis(a: AABB, axis: int, radians: Scalar)
    requires
        axis >= 2,
    ensures
        a.rotate_spec(axis, radians) == a.rotate_spec(2, radians),
{
    let (sin_theta, cos_theta) = sin_cos_spec(radians);
    lemma_turned_high_axis(a, axis, sin_theta, cos_theta, 8);
}

proof fn lemma_turned_high_axis(a: AABB, axis: int, sin_theta: Scalar, cos_theta: Scalar, n: int)
    requires
        axis >= 2,
    ensures
        a.turned_low_spec(axis, sin_theta, cos_theta, n) == a.turned_low_spec(
            2,
            sin_theta,
            cos_theta,
            n,
        ),
        a.turned_high_spec(axis, sin_theta, cos_theta, n) == a.turned_high_spec(
            2,
            sin_theta,
            cos_theta,
            n,
        ),
    decreases n,
{
    if n > 0 {
        lemma_turned_high_axis(a, axis, sin_theta, cos_theta, n - 1);
    }
}

/// A number that an addition of `t` moves exactly: an infinity, or a number
/// whose sum with `t` is finite.
pub open spec fn moves_exactly(a: Scalar, t: Scalar) -> bool {
    !is_finite(a) || is_finite(saturate(a + t))
}

/// An interval with both ends moved exactly by `t`.
pub open spec fn interval_moves_exactly(i: Interval, t: Scalar) -> bool {
    moves_exactly(i.min, t) && moves_exactly(i.max, t)
}

/// The box round two boxes does not depend on their order.
pub proof fn lemma_union_commutative(a: AABB, b: AABB)
    ensures
        AABB::from_aabbs_spec(a, b) == AABB::from_aabbs_spec(b, a),
{
}

/// The box round a box and itself is that box after padding, and the box
/// itself where it is padded already.
pub proof fn lemma_union_idempotent(a: AABB)
    ensures
        AABB::from_aabbs_spec(a, a) == a.pad_spec(),
        a.is_padded() ==> AABB::from_aabbs_spec(a, a) == a,
{
}

/// Padding leaves no proper side thinner than the least thickness.
pub proof fn lemma_pad_interval_padded(i: Interval)
    requires
        i.is_proper(),
    ensures
        pad_interval_spec(i).size_spec() >= MIN_THICKNESS,
{
}

/// The box between two finite points has no side thinner than the least
/// thickness.
pub proof fn lemma_from_points_padded(a: Point, b: Point)
    requires
        a.is_finite(),
        b.is_finite(),
    ensures
        AABB::from_points_spec(a, b).is_padded(),
{
    let s = AABB::span_spec(a, b);
    lemma_pad_interval_padded(s.e0);
    lemma_pad_interval_padded(s.e1);
    lemma_pad_interval_padded(s.e2);
}

/// The box round two boxes, one of which has no side thinner than the least
/// thickness, has none either.
pub proof fn lemma_from_aabbs_padded(a: AABB, b: AABB)
    requires
        a.is_padded() || b.is_padded(),
    ensures
        AABB::from_aabbs_spec(a, b).is_padded(),
{
}

/// A box with no side thinner than the least thickness keeps that when it
/// is moved exactly.
pub proof fn lemma_translate_padded(a: AABB, t: Vector)
    requires
        a.is_padded(),
        t.is_finite(),
        interval_moves_exactly(a.e0, t.e0),
        interval_moves_exactly(a.e1, t.e1),
        interval_moves_exactly(a.e2, t.e2),
    ensures
        a.translate_spec(t).is_padded(),
{
}

/// A number within the turning limit times a sine or cosine stays within
/// it.
pub proof fn lemma_mul_unit_bound(c: Scalar, x: Scalar)
    requires
        MINUS_ONE <= c <= ONE,
        -TURN_LIMIT <= x <= TURN_LIMIT,
    ensures
        -TURN_LIMIT <= mul_spec(c, x) <= TURN_LIMIT,
{
    lemma_mul_monotone(MINUS_ONE, c, x);
    lemma_mul_monotone(c, ONE, x);
    lemma_mul_one(x);
    lemma_mul_minus_one(x);
}

/// A point within the turning limit is turned to a finite point.
pub proof fn lemma_rotate_point_finite(p: Point, axis: int, sin_theta: Scalar, cos_theta: Scalar)
    requires
        MINUS_ONE <= sin_theta <= ONE,
        MINUS_ONE <= cos_theta <= ONE,
        -TURN_LIMIT <= p.e0 <= TURN_LIMIT,
        -TURN_LIMIT <= p.e1 <= TURN_LIMIT,
        -TURN_LIMIT <= p.e2 <= TURN_LIMIT,
    ensures
        rotate_point_spec(p, axis, sin_theta, cos_theta).is_finite(),
{
    lemma_mul_unit_bound(sin_theta, p.e0);
    lemma_mul_unit_bound(sin_theta, p.e1);
    lemma_mul_unit_bound(sin_theta, p.e2);
    lemma_mul_unit_bound(cos_theta, p.e0);
    lemma_mul_unit_bound(cos_theta, p.e1);
    lemma_mul_unit_bound(cos_theta, p.e2);
    lemma_mul_unit_bound(neg_spec(sin_theta), p.e0);
}

/// The least and the greatest coordinates among the turned corners of a
/// box within the turning limit are finite.
pub proof fn lemma_turned_finite(a: AABB, axis: int, sin_theta: Scalar, cos_theta: Scalar, n: int)
    requires
        a.is_within(TURN_LIMIT),
        MINUS_ONE <= sin_theta <= ONE,
        MINUS_ONE <= cos_theta <= ONE,
        n >= 1,
    ensures
        a.turned_low_spec(axis, sin_theta, cos_theta, n).is_finite(),
        a.turned_high_spec(axis, sin_theta, cos_theta, n).is_finite(),
    decreases n,
{
    let turned = rotate_point_spec(a.corner_spec(n - 1), axis, sin_theta, cos_theta);
    lemma_rotate_point_finite(a.corner_spec(n - 1), axis, sin_theta, cos_theta);
    let low = a.turned_low_spec(axis, sin_theta, cos_theta, n - 1);
    let high = a.turned_high_spec(axis, sin_theta, cos_theta, n - 1);
    if n > 1 {
        lemma_turned_finite(a, axis, sin_theta, cos_theta, n - 1);
    } else {
        assert(low == Vec3::<Scalar> { e0: INFINITY, e1: INFINITY, e2: INFINITY });
        assert(high == Vec3::<Scalar> { e0: NEG_INFINITY, e1: NEG_INFINITY, e2: NEG_INFINITY });
    }
    assert(a.turned_low_spec(axis, sin_theta, cos_theta, n) == lower_spec(low, turned));
    assert(a.turned_high_spec(axis, sin_theta, cos_theta, n) == upper_spec(high, turned));
}

/// A box within the turning limit, turned by any angle, has no side thinner
/// than the least thickness.
pub proof fn lemma_rotate_padded_within(a: AABB, axis: int, radians: Scalar)
    requires
        a.is_within(TURN_LIMIT),
    ensures
        a.rotate_spec(axis, radians).is_padded(),
{
    let (sin_theta, cos_theta) = sin_cos_spec(radians);
    lemma_sin_cos_bounded(radians);
    lemma_turned_finite(a, axis, sin_theta, cos_theta, 8);
    lemma_rotate_padded(a, axis, radians);
}

/// A turned box between finite corners has no side thinner than the least
/// thickness.
pub proof fn lemma_rotate_padded(a: AABB, axis: int, radians: Scalar)
    requires
        ({
            let (sin_theta, cos_theta) = sin_cos_spec(radians);
            let low = a.turned_low_spec(axis, sin_theta, cos_theta, 8);
            let high = a.turned_high_spec(axis, sin_theta, cos_theta, 8);
            low.is_finite() && high.is_finite()
        }),
    ensures
        a.rotate_spec(axis, radians).is_padded(),
{
    let (sin_theta, cos_theta) = sin_cos_spec(radians);
    lemma_from_points_padded(
        a.turned_low_spec(axis, sin_theta, cos_theta, 8),
        a.turned_high_spec(axis, sin_theta, cos_theta, 8),
    );
}

/// Moving the interval, the origin of the ray and nothing else by one
/// offset leaves the narrowed range of parameters as it was.
pub proof fn lemma_narrow_translation_invariant(
    ax: Interval,
    orig: Scalar,
    dir: Scalar,
    ray_t: Interval,
    t: Scalar,
)
    requires
        is_finite(t),
        is_finite(orig),
        moves_exactly(orig, t),
        interval_moves_exactly(ax, t),
    ensures
        narrow_spec(ax.shift_spec(t), add_spec(orig, t), dir, ray_t) == narrow_spec(
            ax,
            orig,
            dir,
            ray_t,
        ),
{
    assert(sub_spec(add_spec(ax.min, t), add_spec(orig, t)) == sub_spec(ax.min, orig));
    assert(sub_spec(add_spec(ax.max, t), add_spec(orig, t)) == sub_spec(ax.max, orig));
}

/// A ray hits a box exactly when the ray moved by an offset hits the box
/// moved by the same offset, as long as the offset is finite and moves the
/// origin of the ray and the ends of the box exactly.
pub proof fn lemma_hit_translation_invariant(b: AABB, r: Ray, ray_t: Interval, t: Vector)
    requires
        t.is_finite(),
        r.orig.is_finite(),
        moves_exactly(r.orig.e0, t.e0),
        moves_exactly(r.orig.e1, t.e1),
        moves_exactly(r.orig.e2, t.e2),
        interval_moves_exactly(b.e0, t.e0),
        interval_moves_exactly(b.e1, t.e1),
        interval_moves_exactly(b.e2, t.e2),
    ensures
        b.translate_spec(t).hit_spec(r.shifted_spec(t), ray_t) == b.hit_spec(r, ray_t),
{
    let t0 = narrow_spec(b.e0, r.orig.e0, r.dir.e0, ray_t);
    let t1 = narrow_spec(b.e1, r.orig.e1, r.dir.e1, t0);
    lemma_narrow_translation_invariant(b.e0, r.orig.e0, r.dir.e0, ray_t, t.e0);
    lemma_narrow_translation_invariant(b.e1, r.orig.e1, r.dir.e1, t0, t.e1);
    lemma_narrow_translation_invariant(b.e2, r.orig.e2, r.dir.e2, t1, t.e2);
}

} // verus!
