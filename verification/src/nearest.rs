//! The nearest hit of a group of surfaces: what it is, and why asking the
//! surfaces one after the other, each within what is left of the range,
//! finds it.

use vstd::prelude::*;
use crate::aabb::{
    interval_moves_exactly, is_quarter_turn, lemma_hit_translation_invariant,
    lemma_quarter_turn_round_trip, moves_exactly,
};
use crate::hittable::{Hittable, RotateY, Translate, hit_t};
use crate::interval::Interval;
use crate::ray::Ray;
use crate::math::{degrees_to_radians_spec, sin_cos_spec, lemma_sin_cos_zero};
use crate::scalar::{Scalar, neg_spec};

verus! {

/// The surface is steady and reports hits inside the range it is asked
/// for, and the first one: where the range is cut short at its upper end,
/// a hit that is still strictly inside stays the answer, and no other hit
/// appears.
pub open spec fn nearest_first<H: Hittable + ?Sized>(o: &H, r: Ray, lo: Scalar) -> bool {
    &&& o.steady()
    &&& forall|hi: Scalar, cut: Scalar|
        cut <= hi ==> {
            let wide = #[trigger] o.hit_spec(r, Interval { min: lo, max: hi });
            let short = #[trigger] o.hit_spec(r, Interval { min: lo, max: cut });
            &&& wide is Some ==> lo <= wide->0.t <= hi
            &&& short is Some ==> wide is Some && wide->0.t == short->0.t
            &&& wide is Some && wide->0.t < cut ==> short is Some && short->0.t == wide->0.t
        }
}

/// The surface's box bounds it: the box is not inside out, and a ray that
/// hits the surface within a range hits the box within that range.
///
/// This is a premise about one ray, not a property of every ray. The slab
/// test counts a ray that runs in the plane of a face of the box as a miss,
/// so the premise fails for a ray that touches a sphere at the point where
/// the sphere touches its box (`sphere::lemma_grazing_ray_misses_box`), and
/// for a ray in the plane of the far face of its box that hits a flat shape
/// on its edge. The groups prove it of themselves where their members have
/// it: `lemma_list_box_bounds`, `lemma_bvh_nearest_first`,
/// `lemma_translate_box_bounds`.
pub open spec fn box_bounds<H: Hittable + ?Sized>(o: &H, r: Ray, lo: Scalar) -> bool {
    &&& o.bounding_box_spec().is_ordered()
    &&& forall|hi: Scalar| #[trigger]
        o.hit_spec(r, Interval { min: lo, max: hi }) is Some ==> o.bounding_box_spec().hit_spec(
            r,
            Interval { min: lo, max: hi },
        )
}

/// `t` is the parameter of the nearest hit that any of `objects` reports
/// for the ray within `ray_t`: there is none where none of them reports a
/// hit, and else one of them reports a hit at `t` and none reports one
/// before.
pub open spec fn is_nearest<H: Hittable>(
    objects: Seq<H>,
    r: Ray,
    ray_t: Interval,
    t: Option<Scalar>,
) -> bool {
    match t {
        None => forall|o: H| #[trigger] objects.contains(o) ==> o.hit_spec(r, ray_t) is None,
        Some(t) => {
            &&& exists|o: H| #[trigger]
                objects.contains(o) && hit_t(o.hit_spec(r, ray_t)) == Some(t)
            &&& forall|o: H| #[trigger]
                objects.contains(o) && o.hit_spec(r, ray_t) is Some ==> t <= o.hit_spec(
                    r,
                    ray_t,
                )->0.t
        },
    }
}

/// The range `ray_t` cut short at the hit `t`, if there is one.
pub open spec fn cut_at(ray_t: Interval, t: Option<Scalar>) -> Interval {
    match t {
        Some(t) => Interval { min: ray_t.min, max: t },
        None => ray_t,
    }
}

/// The later of two answers where there is one, else the earlier.
pub open spec fn later_or(later: Option<Scalar>, earlier: Option<Scalar>) -> Option<Scalar> {
    if later is Some {
        later
    } else {
        earlier
    }
}

/// At most one parameter is that of the nearest hit.
pub proof fn lemma_nearest_unique<H: Hittable>(
    objects: Seq<H>,
    r: Ray,
    ray_t: Interval,
    t1: Option<Scalar>,
    t2: Option<Scalar>,
)
    requires
        is_nearest(objects, r, ray_t, t1),
        is_nearest(objects, r, ray_t, t2),
    ensures
        t1 == t2,
{
    if t1 is Some {
        let o1 = choose|o: H| #[trigger]
            objects.contains(o) && hit_t(o.hit_spec(r, ray_t)) == Some(t1->0);
        assert(objects.contains(o1));
        if t2 is Some {
            let o2 = choose|o: H| #[trigger]
                objects.contains(o) && hit_t(o.hit_spec(r, ray_t)) == Some(t2->0);
            assert(objects.contains(o2));
        }
    } else if t2 is Some {
        let o2 = choose|o: H| #[trigger]
            objects.contains(o) && hit_t(o.hit_spec(r, ray_t)) == Some(t2->0);
        assert(objects.contains(o2));
    }
}

/// Two groups of surfaces that report the first hit in a range are asked
/// one after the other, the second within the range cut at the answer of
/// the first. The answer of the second where it has one, and else that of
/// the first, is the nearest hit of both groups together.
pub proof fn lemma_nearest_compose<H: Hittable>(
    first: Seq<H>,
    second: Seq<H>,
    both: Seq<H>,
    r: Ray,
    ray_t: Interval,
    t_first: Option<Scalar>,
    t_second: Option<Scalar>,
)
    requires
        forall|o: H| #[trigger] both.contains(o) <==> first.contains(o) || second.contains(o),
        forall|o: H| #[trigger] both.contains(o) ==> nearest_first(&o, r, ray_t.min),
        is_nearest(first, r, ray_t, t_first),
        is_nearest(second, r, cut_at(ray_t, t_first), t_second),
    ensures
        is_nearest(both, r, ray_t, later_or(t_second, t_first)),
{
    let lo = ray_t.min;
    let hi = ray_t.max;
    assert(ray_t == Interval { min: lo, max: hi });
    match t_first {
        None => {
            match t_second {
                Some(t2) => {
                    let w2 = choose|o: H| #[trigger]
                        second.contains(o) && hit_t(o.hit_spec(r, ray_t)) == Some(t2);
                    assert(both.contains(w2));
                    assert forall|o: H| #[trigger]
                        both.contains(o) && o.hit_spec(r, ray_t) is Some implies t2 <= o.hit_spec(
                        r,
                        ray_t,
                    )->0.t by {
                        assert(first.contains(o) || second.contains(o));
                    }
                },
                None => {
                    assert forall|o: H| #[trigger] both.contains(o) implies o.hit_spec(
                        r,
                        ray_t,
                    ) is None by {
                        assert(first.contains(o) || second.contains(o));
                    }
                },
            }
        },
        Some(t1) => {
            let cut = Interval { min: lo, max: t1 };
            let w1 = choose|o: H| #[trigger]
                first.contains(o) && hit_t(o.hit_spec(r, ray_t)) == Some(t1);
            assert(both.contains(w1));
            assert(nearest_first(&w1, r, lo));
            assert(w1.hit_spec(r, Interval { min: lo, max: hi }) is Some);
            assert(t1 <= hi);
            match t_second {
                Some(t2) => {
                    let w2 = choose|o: H| #[trigger]
                        second.contains(o) && hit_t(o.hit_spec(r, cut)) == Some(t2);
                    assert(both.contains(w2));
                    assert(nearest_first(&w2, r, lo));
                    let wide = w2.hit_spec(r, Interval { min: lo, max: hi });
                    let short = w2.hit_spec(r, Interval { min: lo, max: t1 });
                    assert(wide is Some && wide->0.t == t2);
                    assert(t2 <= t1);
                    assert forall|o: H| #[trigger]
                        both.contains(o) && o.hit_spec(r, ray_t) is Some implies t2 <= o.hit_spec(
                        r,
                        ray_t,
                    )->0.t by {
                        assert(nearest_first(&o, r, lo));
                        let ow = o.hit_spec(r, Interval { min: lo, max: hi });
                        let os = o.hit_spec(r, Interval { min: lo, max: t1 });
                        if second.contains(o) && ow->0.t < t1 {
                            assert(os is Some && os->0.t == ow->0.t);
                        }
                    }
                },
                None => {
                    assert forall|o: H| #[trigger]
                        both.contains(o) && o.hit_spec(r, ray_t) is Some implies t1 <= o.hit_spec(
                        r,
                        ray_t,
                    )->0.t by {
                        assert(nearest_first(&o, r, lo));
                        let ow = o.hit_spec(r, Interval { min: lo, max: hi });
                        let os = o.hit_spec(r, Interval { min: lo, max: t1 });
                        if second.contains(o) && ow->0.t < t1 {
                            assert(os is Some && os->0.t == ow->0.t);
                        }
                    }
                },
            }
        },
    }
}

/// A steady surface that reports, for every range from `lo`, the nearest
/// hit of a group of surfaces that report the first hit in a range reports
/// the first hit in a range itself.
pub proof fn lemma_group_nearest_first<H: Hittable, C: Hittable>(
    whole: &C,
    objects: Seq<H>,
    r: Ray,
    lo: Scalar,
)
    requires
        whole.steady(),
        forall|o: H| #[trigger] objects.contains(o) ==> nearest_first(&o, r, lo),
        forall|hi: Scalar|
            is_nearest(
                objects,
                r,
                Interval { min: lo, max: hi },
                hit_t(#[trigger] whole.hit_spec(r, Interval { min: lo, max: hi })),
            ),
    ensures
        nearest_first(whole, r, lo),
{
    assert forall|hi: Scalar, cut: Scalar| cut <= hi implies {
        let wide = #[trigger] whole.hit_spec(r, Interval { min: lo, max: hi });
        let short = #[trigger] whole.hit_spec(r, Interval { min: lo, max: cut });
        &&& wide is Some ==> lo <= wide->0.t <= hi
        &&& short is Some ==> wide is Some && wide->0.t == short->0.t
        &&& wide is Some && wide->0.t < cut ==> short is Some && short->0.t == wide->0.t
    } by {
        let wide_t = Interval { min: lo, max: hi };
        let short_t = Interval { min: lo, max: cut };
        let wide = whole.hit_spec(r, wide_t);
        let short = whole.hit_spec(r, short_t);
        assert(is_nearest(objects, r, wide_t, hit_t(wide)));
        assert(is_nearest(objects, r, short_t, hit_t(short)));
        if wide is Some {
            let tw = wide->0.t;
            let ow = choose|o: H| #[trigger]
                objects.contains(o) && hit_t(o.hit_spec(r, wide_t)) == Some(tw);
            assert(nearest_first(&ow, r, lo));
            let ow_wide = ow.hit_spec(r, Interval { min: lo, max: hi });
            let ow_short = ow.hit_spec(r, Interval { min: lo, max: cut });
            assert(lo <= tw <= hi);
            if tw < cut {
                assert(ow_short is Some && ow_short->0.t == tw);
                assert(short is Some);
                let ts = short->0.t;
                let os = choose|o: H| #[trigger]
                    objects.contains(o) && hit_t(o.hit_spec(r, short_t)) == Some(ts);
                assert(nearest_first(&os, r, lo));
                let os_wide = os.hit_spec(r, Interval { min: lo, max: hi });
                let os_short = os.hit_spec(r, Interval { min: lo, max: cut });
                assert(os_wide is Some && os_wide->0.t == ts);
            }
        }
        if short is Some {
            let ts = short->0.t;
            let os = choose|o: H| #[trigger]
                objects.contains(o) && hit_t(o.hit_spec(r, short_t)) == Some(ts);
            assert(nearest_first(&os, r, lo));
            let os_wide = os.hit_spec(r, Interval { min: lo, max: hi });
            let os_short = os.hit_spec(r, Interval { min: lo, max: cut });
            assert(os_wide is Some && os_wide->0.t == ts);
            assert(wide is Some);
            let tw = wide->0.t;
            let ow = choose|o: H| #[trigger]
                objects.contains(o) && hit_t(o.hit_spec(r, wide_t)) == Some(tw);
            assert(nearest_first(&ow, r, lo));
            let ow_wide = ow.hit_spec(r, Interval { min: lo, max: hi });
            let ow_short = ow.hit_spec(r, Interval { min: lo, max: cut });
            assert(ts <= cut) by {
                let again = os.hit_spec(r, Interval { min: lo, max: cut });
                assert(again is Some ==> lo <= again->0.t <= cut);
            }
            if tw < ts {
                assert(ow_short is Some && ow_short->0.t == tw);
            }
        }
    }
}

/// What a single surface reports is its own nearest hit.
pub proof fn lemma_nearest_single<H: Hittable>(o: H, r: Ray, ray_t: Interval)
    ensures
        is_nearest(seq![o], r, ray_t, hit_t(o.hit_spec(r, ray_t))),
{
    let s = seq![o];
    assert(s[0] == o);
    assert(s.contains(o));
    assert forall|x: H| #[trigger] s.contains(x) implies x == o by {
        let i = choose|i: int| 0 <= i < s.len() && s[i] == x;
    }
}

/// A moved surface reports the first hit in a range where the surface
/// inside does so for the ray moved back.
pub proof fn lemma_translate_nearest_first<H: Hittable>(tr: &Translate<H>, r: Ray, lo: Scalar)
    requires
        nearest_first(&tr.object, tr.local_ray_spec(r), lo),
    ensures
        nearest_first(tr, r, lo),
{
    let inner = tr.local_ray_spec(r);
    assert forall|hi: Scalar, cut: Scalar| cut <= hi implies {
        let wide = #[trigger] tr.hit_spec(r, Interval { min: lo, max: hi });
        let short = #[trigger] tr.hit_spec(r, Interval { min: lo, max: cut });
        &&& wide is Some ==> lo <= wide->0.t <= hi
        &&& short is Some ==> wide is Some && wide->0.t == short->0.t
        &&& wide is Some && wide->0.t < cut ==> short is Some && short->0.t == wide->0.t
    } by {
        let w = tr.object.hit_spec(inner, Interval { min: lo, max: hi });
        let s = tr.object.hit_spec(inner, Interval { min: lo, max: cut });
    }
}

/// A moved surface lies within its box where the surface inside lies
/// within its own for the ray moved back, the box of the moved surface is
/// the moved box of the surface inside, and the offset moves the box and
/// the origin of the ray exactly.
pub proof fn lemma_translate_box_bounds<H: Hittable>(tr: &Translate<H>, r: Ray, lo: Scalar)
    requires
        box_bounds(&tr.object, tr.local_ray_spec(r), lo),
        tr.bbox == tr.object.bounding_box_spec().translate_spec(tr.offset),
        tr.offset.is_finite(),
        tr.local_ray_spec(r).orig.is_finite(),
        tr.local_ray_spec(r).shifted_spec(tr.offset) == r,
        ({
            let inner = tr.object.bounding_box_spec();
            let back = tr.local_ray_spec(r).orig;
            &&& moves_exactly(back.e0, tr.offset.e0)
            &&& moves_exactly(back.e1, tr.offset.e1)
            &&& moves_exactly(back.e2, tr.offset.e2)
            &&& interval_moves_exactly(inner.e0, tr.offset.e0)
            &&& interval_moves_exactly(inner.e1, tr.offset.e1)
            &&& interval_moves_exactly(inner.e2, tr.offset.e2)
        }),
    ensures
        box_bounds(tr, r, lo),
{
    let inner = tr.object.bounding_box_spec();
    let back = tr.local_ray_spec(r);
    assert forall|hi: Scalar| #[trigger]
        tr.hit_spec(r, Interval { min: lo, max: hi }) is Some implies tr.bbox.hit_spec(
        r,
        Interval { min: lo, max: hi },
    ) by {
        let ray_t = Interval { min: lo, max: hi };
        assert(tr.object.hit_spec(back, Interval { min: lo, max: hi }) is Some);
        lemma_hit_translation_invariant(inner, back, ray_t, tr.offset);
    }
}

/// A turned surface reports the first hit in a range where the surface
/// inside does so for the ray turned back.
pub proof fn lemma_rotate_nearest_first<H: Hittable>(rot: &RotateY<H>, r: Ray, lo: Scalar)
    requires
        nearest_first(&rot.object, rot.local_ray_spec(r), lo),
    ensures
        nearest_first(rot, r, lo),
{
    let inner = rot.local_ray_spec(r);
    assert forall|hi: Scalar, cut: Scalar| cut <= hi implies {
        let wide = #[trigger] rot.hit_spec(r, Interval { min: lo, max: hi });
        let short = #[trigger] rot.hit_spec(r, Interval { min: lo, max: cut });
        &&& wide is Some ==> lo <= wide->0.t <= hi
        &&& short is Some ==> wide is Some && wide->0.t == short->0.t
        &&& wide is Some && wide->0.t < cut ==> short is Some && short->0.t == wide->0.t
    } by {
        let w = rot.object.hit_spec(inner, Interval { min: lo, max: hi });
        let s = rot.object.hit_spec(inner, Interval { min: lo, max: cut });
    }
}

/// A surface turned by a whole number of quarter turns and then turned back
/// about the same axis reports what the surface itself reports: the same
/// hits, at the same points and with the same normals. This holds for rays
/// and hits without an infinity among their coordinates.
pub proof fn lemma_rotation_round_trip<H: Hittable>(
    back: &RotateY<RotateY<H>>,
    r: Ray,
    ray_t: Interval,
)
    requires
        back.axis == back.object.axis,
        is_quarter_turn(back.object.sin_theta, back.object.cos_theta),
        back.sin_theta == neg_spec(back.object.sin_theta),
        back.cos_theta == back.object.cos_theta,
        r.orig.is_finite(),
        r.dir.is_finite(),
        back.object.object.hit_spec(r, ray_t) matches Some(rec) ==> rec.p.is_finite()
            && rec.normal.is_finite(),
    ensures
        back.hit_spec(r, ray_t) == back.object.object.hit_spec(r, ray_t),
{
    let there = back.object;
    let axis = there.axis as int;
    let s = there.sin_theta;
    let c = there.cos_theta;
    lemma_quarter_turn_round_trip(r.orig, axis, s, c);
    lemma_quarter_turn_round_trip(r.dir, axis, s, c);
    let seen = back.local_ray_spec(r);
    assert(there.local_ray_spec(seen) == r);
    match there.object.hit_spec(r, ray_t) {
        Some(rec) => {
            lemma_quarter_turn_round_trip(rec.p, axis, s, c);
            lemma_quarter_turn_round_trip(rec.normal, axis, s, c);
        },
        None => {},
    }
}

/// A surface turned by no angle, and turned back by none, reports what the
/// surface itself reports, for rays and hits without an infinity among
/// their coordinates.
pub proof fn lemma_no_turn_round_trip<H: Hittable>(
    back: &RotateY<RotateY<H>>,
    r: Ray,
    ray_t: Interval,
)
    requires
        back.axis == back.object.axis,
        (back.object.sin_theta, back.object.cos_theta) == sin_cos_spec(degrees_to_radians_spec(0)),
        (back.sin_theta, back.cos_theta) == sin_cos_spec(degrees_to_radians_spec(neg_spec(0))),
        r.orig.is_finite(),
        r.dir.is_finite(),
        back.object.object.hit_spec(r, ray_t) matches Some(rec) ==> rec.p.is_finite()
            && rec.normal.is_finite(),
    ensures
        back.hit_spec(r, ray_t) == back.object.object.hit_spec(r, ray_t),
{
    lemma_sin_cos_zero();
    lemma_rotation_round_trip(back, r, ray_t);
}

} // verus!
