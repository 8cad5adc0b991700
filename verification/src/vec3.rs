//! Triples: points, directions and colours over [`Scalar`], and boxes over
//! intervals.
//!
//! The operators `+`, `-`, `*` and `/` on vectors of scalars do what the
//! methods `plus`, `minus`, `negated`, `times`, `scaled` and `divided` do;
//! verified code calls the methods.

use vstd::prelude::*;
use crate::scalar::{
    Scalar, ONE, TWO, MINUS_ONE, INFINITY, is_finite, add_spec, sub_spec, mul_spec, div_spec,
    neg_spec, abs_spec, sqrt_spec, min_spec, saturate, trunc_div, int_sqrt, is_int_sqrt, fx_add,
    fx_sub, fx_mul, fx_div, fx_neg, fx_abs, fx_sqrt, fx_min, isqrt, wide_ratio, uniform,
    lemma_int_sqrt_exists, lemma_int_sqrt_unique, lemma_mul_exact, lemma_mul_one,
    lemma_mul_minus_one, lemma_unit_part, NEG_INFINITY,
};

verus! {

/// Three values of one type, one for each axis.
#[derive(Clone, Copy, Debug, PartialEq, Eq)]
pub struct Vec3<T> {
    pub e0: T,
    pub e1: T,
    pub e2: T,
}

/// A triple of scalars.
pub type Vector = Vec3<Scalar>;

/// A position in space.
pub type Point = Vec3<Scalar>;

/// How far a coordinate reaches into the exact products: two to the power
/// 62, about 4.6 thousand million, either way.
pub const WIDE_REACH: Scalar = 0x4000_0000_0000_0000;

/// The coordinate as the exact products take it: held within `WIDE_REACH`
/// of zero.
pub open spec fn reach_spec(x: Scalar) -> int {
    if x > WIDE_REACH {
        WIDE_REACH as int
    } else if x < -WIDE_REACH {
        -(WIDE_REACH as int)
    } else {
        x as int
    }
}

fn reach(x: Scalar) -> (r: i128)
    ensures
        r == reach_spec(x),
{
    if x > WIDE_REACH {
        WIDE_REACH as i128
    } else if x < -WIDE_REACH {
        -(WIDE_REACH as i128)
    } else {
        x as i128
    }
}

/// The size of a coordinate.
fn magnitude_of(x: Scalar) -> (m: u128)
    ensures
        m == (if x >= 0 { x as int } else { -(x as int) }),
        m <= 0x8000_0000_0000_0000,
{
    if x >= 0 {
        x as u128
    } else {
        (-(x as i128)) as u128
    }
}

/// A coordinate times one fits the wide range.
proof fn lemma_scaled_fits(e: int)
    requires
        -0x8000_0000_0000_0000 <= e <= 0x8000_0000_0000_0000,
    ensures
        -0x8000_0000_0000_0000 * 1_000_000_000 <= e * ONE <= 0x8000_0000_0000_0000 * 1_000_000_000,
{
    assert(-0x8000_0000_0000_0000 * 1_000_000_000 <= e * ONE <= 0x8000_0000_0000_0000
        * 1_000_000_000) by (nonlinear_arith)
        requires
            -0x8000_0000_0000_0000 <= e <= 0x8000_0000_0000_0000,
            ONE == 1_000_000_000,
    ;
}

/// The square of a size of a coordinate fits a quarter of the wide range.
proof fn lemma_square_bound(a: int)
    requires
        0 <= a <= 0x8000_0000_0000_0000,
    ensures
        0 <= a * a <= 0x4000_0000_0000_0000_0000_0000_0000_0000,
{
    assert(0 <= a * a <= 0x8000_0000_0000_0000 * 0x8000_0000_0000_0000) by (nonlinear_arith)
        requires
            0 <= a <= 0x8000_0000_0000_0000,
    ;
}

/// The product of two coordinates within reach fits a sixteenth of the wide
/// range.
proof fn lemma_reach_product(a: int, b: int)
    requires
        -0x4000_0000_0000_0000 <= a <= 0x4000_0000_0000_0000,
        -0x4000_0000_0000_0000 <= b <= 0x4000_0000_0000_0000,
    ensures
        -0x1000_0000_0000_0000_0000_0000_0000_0000 <= a * b
            <= 0x1000_0000_0000_0000_0000_0000_0000_0000,
{
    assert(-(0x4000_0000_0000_0000 * 0x4000_0000_0000_0000) <= a * b <= 0x4000_0000_0000_0000
        * 0x4000_0000_0000_0000) by (nonlinear_arith)
        requires
            -0x4000_0000_0000_0000 <= a <= 0x4000_0000_0000_0000,
            -0x4000_0000_0000_0000 <= b <= 0x4000_0000_0000_0000,
    ;
}

/// Below this size a component counts as zero.
pub const NEAR_ZERO: Scalar = 10;

/// How often a random vector is drawn before the search for one inside the
/// unit ball gives up.
pub const UNIT_VECTOR_DRAWS: usize = 256;

impl<T> Vec3<T> {
    pub fn new(x: T, y: T, z: T) -> (v: Self)
        ensures
            v.e0 == x,
            v.e1 == y,
            v.e2 == z,
    {
        Vec3 { e0: x, e1: y, e2: z }
    }

    pub fn x(&self) -> (r: &T)
        ensures
            *r == self.e0,
    {
        &self.e0
    }

    pub fn y(&self) -> (r: &T)
        ensures
            *r == self.e1,
    {
        &self.e1
    }

    pub fn z(&self) -> (r: &T)
        ensures
            *r == self.e2,
    {
        &self.e2
    }

    /// The component on `axis`: 0, 1 or 2.
    pub open spec fn at(self, axis: int) -> T {
        if axis == 0 {
            self.e0
        } else if axis == 1 {
            self.e1
        } else {
            self.e2
        }
    }

    /// The triple with `value` on `axis` and the other two components kept.
    pub open spec fn with(self, axis: int, value: T) -> Self {
        if axis == 0 {
            Vec3 { e0: value, e1: self.e1, e2: self.e2 }
        } else if axis == 1 {
            Vec3 { e0: self.e0, e1: value, e2: self.e2 }
        } else {
            Vec3 { e0: self.e0, e1: self.e1, e2: value }
        }
    }

    pub fn index(&self, axis: usize) -> (r: &T)
        requires
            axis < 3,
        ensures
            *r == self.at(axis as int),
    {
        if axis == 0 {
            &self.e0
        } else if axis == 1 {
            &self.e1
        } else {
            &self.e2
        }
    }

    pub fn set(&mut self, axis: usize, value: T)
        requires
            axis < 3,
        ensures
            *final(self) == old(self).with(axis as int, value),
    {
        if axis == 0 {
            self.e0 = value;
        } else if axis == 1 {
            self.e1 = value;
        } else {
            self.e2 = value;
        }
    }
}

impl Vec3<Scalar> {
/// The vector with `e` on every axis.
    pub open spec fn all_spec(e: Scalar) -> Self {
        Vec3 { e0: e, e1: e, e2: e }
    }

/// The opposite vector.
    pub open spec fn neg_spec(self) -> Self {
        Vec3 { e0: neg_spec(self.e0), e1: neg_spec(self.e1), e2: neg_spec(self.e2) }
    }

/// The sum.
    pub open spec fn plus_spec(self, v: Self) -> Self {
        Vec3 {
            e0: add_spec(self.e0, v.e0),
            e1: add_spec(self.e1, v.e1),
            e2: add_spec(self.e2, v.e2),
        }
    }

/// The difference.
    pub open spec fn minus_spec(self, v: Self) -> Self {
        Vec3 {
            e0: sub_spec(self.e0, v.e0),
            e1: sub_spec(self.e1, v.e1),
            e2: sub_spec(self.e2, v.e2),
        }
    }

    /// The product component by component.
    pub open spec fn times_spec(self, v: Self) -> Self {
        Vec3 {
            e0: mul_spec(self.e0, v.e0),
            e1: mul_spec(self.e1, v.e1),
            e2: mul_spec(self.e2, v.e2),
        }
    }

/// The product with a number.
    pub open spec fn scaled_spec(self, k: Scalar) -> Self {
        Vec3 { e0: mul_spec(self.e0, k), e1: mul_spec(self.e1, k), e2: mul_spec(self.e2, k) }
    }

/// The quotient by a number.
    pub open spec fn divided_spec(self, k: Scalar) -> Self {
        Vec3 { e0: div_spec(self.e0, k), e1: div_spec(self.e1, k), e2: div_spec(self.e2, k) }
    }

/// The inner product.
    pub open spec fn dot_spec(self, v: Self) -> Scalar {
        add_spec(
            add_spec(mul_spec(self.e0, v.e0), mul_spec(self.e1, v.e1)),
            mul_spec(self.e2, v.e2),
        )
    }

/// The vector product.
    pub open spec fn cross_spec(self, v: Self) -> Self {
        Vec3 {
            e0: sub_spec(mul_spec(self.e1, v.e2), mul_spec(self.e2, v.e1)),
            e1: sub_spec(mul_spec(self.e2, v.e0), mul_spec(self.e0, v.e2)),
            e2: sub_spec(mul_spec(self.e0, v.e1), mul_spec(self.e1, v.e0)),
        }
    }

/// The square of the length.
    pub open spec fn length_squared_spec(self) -> Scalar {
        self.dot_spec(self)
    }

    /// The sum of the squares of the components, exact, in squares of
    /// billionths.
    pub open spec fn raw_square_spec(self) -> int {
        self.e0 * self.e0 + self.e1 * self.e1 + self.e2 * self.e2
    }

    /// The length in billionths, rounded down, before it is held in the
    /// range of scalars.
    pub open spec fn raw_length_spec(self) -> int {
        int_sqrt(self.raw_square_spec())
    }

    /// The length: the root of the exact sum of squares, rounded once.
    pub open spec fn length_spec(self) -> Scalar {
        saturate(self.raw_length_spec())
    }

    /// The inner product, exact, in squares of billionths. A coordinate
    /// counts for at most `WIDE_REACH` either way.
    pub open spec fn raw_dot_spec(self, v: Self) -> int {
        reach_spec(self.e0) * reach_spec(v.e0) + reach_spec(self.e1) * reach_spec(v.e1)
            + reach_spec(self.e2) * reach_spec(v.e2)
    }

    /// How far `self` reaches along `dir`: the exact inner product over the
    /// length of `dir`, rounded once. Along no direction it is zero.
    pub open spec fn along_spec(self, dir: Self) -> Scalar {
        if dir.raw_length_spec() == 0 {
            0
        } else {
            saturate(trunc_div(self.raw_dot_spec(dir), dir.raw_length_spec()))
        }
    }

    /// The part of `self` across `dir`: the vector product with `dir`, from
    /// exact products, over the length of `dir`, each component rounded
    /// once. Its length is how far the end of `self` lies from the line
    /// along `dir`. Across a `dir` without length it is `self`.
    pub open spec fn across_spec(self, dir: Self) -> Self {
        let length = dir.raw_length_spec();
        if length == 0 {
            self
        } else {
            Vec3 {
                e0: saturate(
                    trunc_div(
                        reach_spec(self.e1) * reach_spec(dir.e2) - reach_spec(self.e2) * reach_spec(
                            dir.e1,
                        ),
                        length,
                    ),
                ),
                e1: saturate(
                    trunc_div(
                        reach_spec(self.e2) * reach_spec(dir.e0) - reach_spec(self.e0) * reach_spec(
                            dir.e2,
                        ),
                        length,
                    ),
                ),
                e2: saturate(
                    trunc_div(
                        reach_spec(self.e0) * reach_spec(dir.e1) - reach_spec(self.e1) * reach_spec(
                            dir.e0,
                        ),
                        length,
                    ),
                ),
            }
        }
    }

    /// The other side of the right triangle whose long side is `r` and one
    /// of whose sides is `self`: the root of the square of `r` less the
    /// exact square of the length, rounded down. There is none where the
    /// vector is longer than `r`.
    pub open spec fn leg_spec(self, r: Scalar) -> Option<Scalar> {
        let clear = r * r - self.raw_square_spec();
        if clear < 0 {
            None
        } else {
            Some(saturate(int_sqrt(clear)))
        }
    }

/// Whether the vector is close to zero on every axis.
    pub open spec fn near_zero_spec(self) -> bool {
        abs_spec(self.e0) < NEAR_ZERO && abs_spec(self.e1) < NEAR_ZERO && abs_spec(self.e2)
            < NEAR_ZERO
    }

    /// The vector over its length: each component times one over the
    /// length in billionths, rounded once. That of the zero vector is the
    /// zero vector.
    pub open spec fn unit_vector_spec(self) -> Self {
        let length = self.raw_length_spec();
        if length == 0 {
            Vec3 { e0: 0, e1: 0, e2: 0 }
        } else {
            Vec3 {
                e0: saturate(trunc_div(self.e0 * ONE, length)),
                e1: saturate(trunc_div(self.e1 * ONE, length)),
                e2: saturate(trunc_div(self.e2 * ONE, length)),
            }
        }
    }

    /// The mirror image of `self` on the plane whose normal is `n`.
    pub open spec fn reflect_spec(self, n: Self) -> Self {
        self.minus_spec(n.scaled_spec(self.dot_spec(n)).scaled_spec(TWO))
    }

    /// The direction of `self` after it passes a surface of normal `n`, the
    /// ratio of the refractive indices being `etai_over_etat`.
    pub open spec fn refract_spec(self, n: Self, etai_over_etat: Scalar) -> Self {
        let cos_theta = min_spec(neg_spec(self.dot_spec(n)), ONE);
        let r_out_perp = self.plus_spec(n.scaled_spec(cos_theta)).scaled_spec(etai_over_etat);
        let r_out_parallel = n.neg_spec().scaled_spec(
            sqrt_spec(abs_spec(sub_spec(ONE, r_out_perp.length_squared_spec()))),
        );
        r_out_perp.plus_spec(r_out_parallel)
    }

    /// Every component lies in the half-open range from `min` to `max`.
    pub open spec fn within(self, min: Scalar, max: Scalar) -> bool {
        min <= self.e0 < max && min <= self.e1 < max && min <= self.e2 < max
    }

    /// No component is an infinity.
    pub open spec fn is_finite(self) -> bool {
        is_finite(self.e0) && is_finite(self.e1) && is_finite(self.e2)
    }

    /// Every component lies within `limit` of zero.
    pub open spec fn is_within(self, limit: Scalar) -> bool {
        -limit <= self.e0 <= limit && -limit <= self.e1 <= limit && -limit <= self.e2 <= limit
    }

    /// The vector lies within the range of a scene: every component within
    /// `SCENE_LIMIT` of zero. Sums, products and lengths of such vectors do
    /// not leave the range of scalars.
    pub open spec fn in_scene(self) -> bool {
        self.is_within(SCENE_LIMIT)
    }

    /// No component is negative.
    pub open spec fn non_negative(self) -> bool {
        self.e0 >= 0 && self.e1 >= 0 && self.e2 >= 0
    }

    pub fn all(e: Scalar) -> (v: Self)
        ensures
            v == Self::all_spec(e),
    {
        Vec3 { e0: e, e1: e, e2: e }
    }

    pub fn zero() -> (v: Self)
        ensures
            v == Self::all_spec(0),
    {
        Self::all(0)
    }

    pub fn one() -> (v: Self)
        ensures
            v == Self::all_spec(ONE),
    {
        Self::all(ONE)
    }

    /// A vector whose components are drawn evenly from zero up to one.
    pub fn random() -> (v: Self)
        ensures
            v.within(0, ONE),
    {
        Self::random_range(0, ONE)
    }

    /// A vector whose components are drawn evenly from `min` up to `max`.
    pub fn random_range(min: Scalar, max: Scalar) -> (v: Self)
        requires
            min < max,
        ensures
            v.within(min, max),
    {
        let x: Scalar = uniform(min, max);
        let y: Scalar = uniform(min, max);
        let z: Scalar = uniform(min, max);
        Vec3 { e0: x, e1: y, e2: z }
    }

    pub fn negated(&self) -> (v: Self)
        ensures
            v == self.neg_spec(),
    {
        Vec3 { e0: fx_neg(self.e0), e1: fx_neg(self.e1), e2: fx_neg(self.e2) }
    }

    pub fn plus(&self, v: &Self) -> (r: Self)
        ensures
            r == self.plus_spec(*v),
    {
        Vec3 { e0: fx_add(self.e0, v.e0), e1: fx_add(self.e1, v.e1), e2: fx_add(self.e2, v.e2) }
    }

    pub fn minus(&self, v: &Self) -> (r: Self)
        ensures
            r == self.minus_spec(*v),
    {
        Vec3 { e0: fx_sub(self.e0, v.e0), e1: fx_sub(self.e1, v.e1), e2: fx_sub(self.e2, v.e2) }
    }

    pub fn times(&self, v: &Self) -> (r: Self)
        ensures
            r == self.times_spec(*v),
    {
        Vec3 { e0: fx_mul(self.e0, v.e0), e1: fx_mul(self.e1, v.e1), e2: fx_mul(self.e2, v.e2) }
    }

    pub fn scaled(&self, k: Scalar) -> (r: Self)
        ensures
            r == self.scaled_spec(k),
    {
        Vec3 { e0: fx_mul(self.e0, k), e1: fx_mul(self.e1, k), e2: fx_mul(self.e2, k) }
    }

    pub fn divided(&self, k: Scalar) -> (r: Self)
        ensures
            r == self.divided_spec(k),
    {
        Vec3 { e0: fx_div(self.e0, k), e1: fx_div(self.e1, k), e2: fx_div(self.e2, k) }
    }

    /// The length in billionths, from the exact sum of squares.
    pub fn raw_length(&self) -> (r: u128)
        ensures
            r == self.raw_length_spec(),
            is_int_sqrt(self.raw_square_spec(), r as int),
            r < 0x1_0000_0000_0000_0000,
    {
        let a: u128 = magnitude_of(self.e0);
        let b: u128 = magnitude_of(self.e1);
        let c: u128 = magnitude_of(self.e2);
        proof {
            lemma_square_bound(a as int);
            lemma_square_bound(b as int);
            lemma_square_bound(c as int);
            assert(a * a == self.e0 * self.e0 && b * b == self.e1 * self.e1 && c * c == self.e2
                * self.e2) by (nonlinear_arith)
                requires
                    a == (if self.e0 >= 0 { self.e0 as int } else { -(self.e0 as int) }),
                    b == (if self.e1 >= 0 { self.e1 as int } else { -(self.e1 as int) }),
                    c == (if self.e2 >= 0 { self.e2 as int } else { -(self.e2 as int) }),
            ;
        }
        isqrt(a * a + b * b + c * c)
    }

    /// The length.
    pub fn length(&self) -> (r: Scalar)
        ensures
            r == self.length_spec(),
            r >= 0,
    {
        let raw: u128 = self.raw_length();
        if raw >= INFINITY as u128 {
            INFINITY
        } else {
            raw as i64
        }
    }

    /// The inner product, exact.
    pub fn raw_dot(&self, v: &Self) -> (r: i128)
        ensures
            r == self.raw_dot_spec(*v),
    {
        let a0: i128 = reach(self.e0);
        let a1: i128 = reach(self.e1);
        let a2: i128 = reach(self.e2);
        let b0: i128 = reach(v.e0);
        let b1: i128 = reach(v.e1);
        let b2: i128 = reach(v.e2);
        proof {
            lemma_reach_product(a0 as int, b0 as int);
            lemma_reach_product(a1 as int, b1 as int);
            lemma_reach_product(a2 as int, b2 as int);
        }
        a0 * b0 + a1 * b1 + a2 * b2
    }

    /// How far `self` reaches along `dir`.
    pub fn along(&self, dir: &Self) -> (r: Scalar)
        ensures
            r == self.along_spec(*dir),
    {
        let length: u128 = dir.raw_length();
        if length == 0 {
            0
        } else {
            wide_ratio(self.raw_dot(dir), length as i128)
        }
    }

    /// The part of `self` across `dir`.
    pub fn across(&self, dir: &Self) -> (w: Self)
        ensures
            w == self.across_spec(*dir),
    {
        let length: u128 = dir.raw_length();
        if length == 0 {
            return *self;
        }
        let length: i128 = length as i128;
        let a0: i128 = reach(self.e0);
        let a1: i128 = reach(self.e1);
        let a2: i128 = reach(self.e2);
        let b0: i128 = reach(dir.e0);
        let b1: i128 = reach(dir.e1);
        let b2: i128 = reach(dir.e2);
        proof {
            lemma_reach_product(a1 as int, b2 as int);
            lemma_reach_product(a2 as int, b1 as int);
            lemma_reach_product(a2 as int, b0 as int);
            lemma_reach_product(a0 as int, b2 as int);
            lemma_reach_product(a0 as int, b1 as int);
            lemma_reach_product(a1 as int, b0 as int);
        }
        Vec3 {
            e0: wide_ratio(a1 * b2 - a2 * b1, length),
            e1: wide_ratio(a2 * b0 - a0 * b2, length),
            e2: wide_ratio(a0 * b1 - a1 * b0, length),
        }
    }

    /// The other side of the right triangle whose long side is `r` and one
    /// of whose sides is `self`.
    pub fn leg(&self, r: Scalar) -> (side: Option<Scalar>)
        ensures
            side == self.leg_spec(r),
    {
        let a: u128 = magnitude_of(self.e0);
        let b: u128 = magnitude_of(self.e1);
        let c: u128 = magnitude_of(self.e2);
        let k: u128 = magnitude_of(r);
        proof {
            lemma_square_bound(a as int);
            lemma_square_bound(b as int);
            lemma_square_bound(c as int);
            lemma_square_bound(k as int);
            assert(a * a == self.e0 * self.e0 && b * b == self.e1 * self.e1 && c * c == self.e2
                * self.e2 && k * k == r * r) by (nonlinear_arith)
                requires
                    a == (if self.e0 >= 0 { self.e0 as int } else { -(self.e0 as int) }),
                    b == (if self.e1 >= 0 { self.e1 as int } else { -(self.e1 as int) }),
                    c == (if self.e2 >= 0 { self.e2 as int } else { -(self.e2 as int) }),
                    k == (if r >= 0 { r as int } else { -(r as int) }),
            ;
        }
        let square: u128 = a * a + b * b + c * c;
        let whole: u128 = k * k;
        if square > whole {
            return None;
        }
        let raw: u128 = isqrt(whole - square);
        if raw >= INFINITY as u128 {
            Some(INFINITY)
        } else {
            Some(raw as i64)
        }
    }


    pub fn length_squared(&self) -> (r: Scalar)
        ensures
            r == self.length_squared_spec(),
    {
        self.dot(self)
    }

    /// Whether the vector is close to zero in every dimension.
    pub fn near_zero(&self) -> (r: bool)
        ensures
            r == self.near_zero_spec(),
    {
        fx_abs(self.e0) < NEAR_ZERO && fx_abs(self.e1) < NEAR_ZERO && fx_abs(self.e2) < NEAR_ZERO
    }

    pub fn dot(&self, v: &Self) -> (r: Scalar)
        ensures
            r == self.dot_spec(*v),
    {
        fx_add(fx_add(fx_mul(self.e0, v.e0), fx_mul(self.e1, v.e1)), fx_mul(self.e2, v.e2))
    }

    pub fn cross(&self, v: &Self) -> (r: Self)
        ensures
            r == self.cross_spec(*v),
    {
        Vec3 {
            e0: fx_sub(fx_mul(self.e1, v.e2), fx_mul(self.e2, v.e1)),
            e1: fx_sub(fx_mul(self.e2, v.e0), fx_mul(self.e0, v.e2)),
            e2: fx_sub(fx_mul(self.e0, v.e1), fx_mul(self.e1, v.e0)),
        }
    }

    /// The vector over its length.
    pub fn unit_vector(&self) -> (r: Self)
        ensures
            r == self.unit_vector_spec(),
    {
        let length: u128 = self.raw_length();
        if length == 0 {
            Vec3 { e0: 0, e1: 0, e2: 0 }
        } else {
            let l: i128 = length as i128;
            proof {
                lemma_scaled_fits(self.e0 as int);
                lemma_scaled_fits(self.e1 as int);
                lemma_scaled_fits(self.e2 as int);
            }
            Vec3 {
                e0: wide_ratio(self.e0 as i128 * ONE as i128, l),
                e1: wide_ratio(self.e1 as i128 * ONE as i128, l),
                e2: wide_ratio(self.e2 as i128 * ONE as i128, l),
            }
        }
    }

    /// The vector over its length.
    pub fn into_unit_vector(self) -> (r: Self)
        ensures
            r == self.unit_vector_spec(),
    {
        self.unit_vector()
    }

    /// What becomes of a vector `p` drawn from the cube around the unit ball:
    /// inside the ball and away from its centre it is divided by the square
    /// of its length, and else it is turned down.
    pub open spec fn accepted(p: Self) -> Option<Self> {
        let lensq = p.length_squared_spec();
        if 0 < lensq && lensq < ONE {
            Some(p.divided_spec(lensq))
        } else {
            None
        }
    }

    /// Tests one draw from the cube.
    pub fn accept(p: &Self) -> (r: Option<Self>)
        ensures
            r == Self::accepted(*p),
    {
        let lensq: Scalar = p.length_squared();
        if 0 < lensq && lensq < ONE {
            Some(p.divided(lensq))
        } else {
            None
        }
    }

    /// Whether `v` can come out of `random_unit_vector`: it is the first
    /// axis, or what an accepted draw from the cube gives.
    pub open spec fn drawn_unit(v: Self) -> bool {
        v == (Vec3 { e0: ONE, e1: 0, e2: 0 }) || exists|p: Self|
            p.within(MINUS_ONE, ONE) && #[trigger] Self::accepted(p) == Some(v)
    }

    /// A random direction: the first of up to `UNIT_VECTOR_DRAWS` draws from
    /// the cube that is accepted, or the first axis if none is.
    pub fn random_unit_vector() -> (v: Self)
        ensures
            Self::drawn_unit(v),
    {
        let mut draws: usize = 0;
        while draws < UNIT_VECTOR_DRAWS
            invariant
                draws <= UNIT_VECTOR_DRAWS,
            decreases UNIT_VECTOR_DRAWS - draws,
        {
            let p = Self::random_range(MINUS_ONE, ONE);
            if let Some(v) = Self::accept(&p) {
                return v;
            }
            draws = draws + 1;
        }
        Vec3 { e0: ONE, e1: 0, e2: 0 }
    }

    /// The one of `v` and its opposite that points away from the surface of
    /// normal `normal`.
    pub open spec fn on_hemisphere(v: Self, normal: Self) -> Self {
        if v.dot_spec(normal) > 0 {
            v
        } else {
            v.neg_spec()
        }
    }

    /// Turns `v` to the side of `normal`.
    pub fn toward(v: Self, normal: &Self) -> (r: Self)
        ensures
            r == Self::on_hemisphere(v, *normal),
    {
        if v.dot(normal) > 0 {
            v
        } else {
            v.negated()
        }
    }

    /// A random direction on the side of `normal`.
    pub fn random_on_hemisphere(normal: &Self) -> (r: Self)
        ensures
            exists|v: Self| Self::drawn_unit(v) && r == #[trigger] Self::on_hemisphere(v, *normal),
    {
        let on_unit_sphere = Self::random_unit_vector();
        let r = Self::toward(on_unit_sphere, normal);
        assert(r == Self::on_hemisphere(on_unit_sphere, *normal));
        r
    }

/// The mirror image of `self` on the plane whose normal is `n`.
    pub fn reflect(&self, n: &Self) -> (r: Self)
        ensures
            r == self.reflect_spec(*n),
    {
        let d: Scalar = self.dot(n);
        self.minus(&n.scaled(d).scaled(TWO))
    }

/// The direction of `self` after it passes a surface of normal `n`.
    pub fn refract(&self, n: &Self, etai_over_etat: Scalar) -> (r: Self)
        ensures
            r == self.refract_spec(*n, etai_over_etat),
    {
        let cos_theta: Scalar = fx_min(fx_neg(self.dot(n)), ONE);
        let r_out_perp = self.plus(&n.scaled(cos_theta)).scaled(etai_over_etat);
        let r_out_parallel = n.negated().scaled(
            fx_sqrt(fx_abs(fx_sub(ONE, r_out_perp.length_squared()))),
        );
        r_out_perp.plus(&r_out_parallel)
    }
}

/// The length of a vector is the integer root of its exact sum of squares,
/// and not negative.
pub proof fn lemma_length_non_negative(v: Vec3<Scalar>)
    ensures
        v.raw_square_spec() >= 0,
        is_int_sqrt(v.raw_square_spec(), v.raw_length_spec()),
        v.raw_length_spec() >= 0,
        v.length_spec() >= 0,
{
    assert(v.e0 * v.e0 >= 0 && v.e1 * v.e1 >= 0 && v.e2 * v.e2 >= 0) by (nonlinear_arith);
    lemma_int_sqrt_exists(v.raw_square_spec());
}

/// Coordinates within this of zero are within the range of a scene:
/// fifteen thousand.
pub const SCENE_LIMIT: Scalar = 15_000_000_000_000;

/// No component of a vector is greater than its length in billionths.
pub proof fn lemma_component_within_length(v: Vec3<Scalar>)
    ensures
        -v.raw_length_spec() <= v.e0 <= v.raw_length_spec(),
        -v.raw_length_spec() <= v.e1 <= v.raw_length_spec(),
        -v.raw_length_spec() <= v.e2 <= v.raw_length_spec(),
{
    lemma_length_non_negative(v);
    let l = v.raw_length_spec();
    assert(v.e0 * v.e0 >= 0 && v.e1 * v.e1 >= 0 && v.e2 * v.e2 >= 0) by (nonlinear_arith);
    lemma_square_order(v.e0 as int, l);
    lemma_square_order(v.e1 as int, l);
    lemma_square_order(v.e2 as int, l);
}

/// A number whose square is below the square of `l + 1` lies within `l` of
/// zero.
proof fn lemma_square_order(e: int, l: int)
    requires
        l >= 0,
        e * e < (l + 1) * (l + 1),
    ensures
        -l <= e <= l,
{
    if e > l {
        assert(e * e >= (l + 1) * (l + 1)) by (nonlinear_arith)
            requires
                e >= l + 1,
                l >= 0,
        ;
    }
    if e < -l {
        assert(e * e >= (l + 1) * (l + 1)) by (nonlinear_arith)
            requires
                -e >= l + 1,
                l >= 0,
        ;
    }
}

/// The length of a vector whose greatest component has the size `m` is
/// `m` at least and less than twice `m`.
pub proof fn lemma_length_against_component(v: Vec3<Scalar>, m: int)
    requires
        m >= 1,
        -m <= v.e0 <= m && -m <= v.e1 <= m && -m <= v.e2 <= m,
        v.e0 == m || v.e0 == -m || v.e1 == m || v.e1 == -m || v.e2 == m || v.e2 == -m,
    ensures
        m <= v.raw_length_spec() < 2 * m,
{
    lemma_component_within_length(v);
    lemma_length_non_negative(v);
    let l = v.raw_length_spec();
    assert(v.e0 * v.e0 <= m * m && v.e1 * v.e1 <= m * m && v.e2 * v.e2 <= m * m) by (nonlinear_arith)
        requires
            -m <= v.e0 <= m && -m <= v.e1 <= m && -m <= v.e2 <= m,
    ;
    assert(m * m >= 1) by (nonlinear_arith)
        requires
            m >= 1,
    ;
    assert(v.raw_square_spec() <= 3 * (m * m));
    assert(l * l <= v.raw_square_spec());
    if l >= 2 * m {
        assert(l * l >= 4 * (m * m)) by (nonlinear_arith)
            requires
                l >= 2 * m,
                m >= 1,
        ;
    }
}

/// A component over a length that is no less than its size lies within one
/// either way, and is not zero where the length is less than twice its
/// size.
pub proof fn lemma_unit_component(e: int, l: int)
    requires
        l >= 1,
        -l <= e <= l,
    ensures
        -(ONE as int) <= trunc_div(e * ONE, l) <= ONE,
        (l < 2 * e || l < -2 * e) ==> trunc_div(e * ONE, l) != 0,
{
    let a: int = if e >= 0 { e } else { -e };
    assert(a * ONE >= 0 && a * ONE == (if e >= 0 { e * ONE } else { -(e * ONE) }) && a * ONE
        <= ONE * l) by (nonlinear_arith)
        requires
            a == (if e >= 0 { e } else { -e }),
            a <= l,
    ;
    vstd::arithmetic::div_mod::lemma_div_is_ordered(a * ONE, ONE * l, l);
    vstd::arithmetic::div_mod::lemma_div_multiples_vanish(ONE as int, l);
    assert((ONE * l) / l == ONE) by (nonlinear_arith)
        requires
            (l * ONE) / l == ONE,
    ;
    vstd::arithmetic::div_mod::lemma_div_pos_is_pos(a * ONE, l);
    if l < 2 * a {
        assert(a * ONE >= l) by (nonlinear_arith)
            requires
                l < 2 * a,
                a >= 1,
        ;
        vstd::arithmetic::div_mod::lemma_div_non_zero(a * ONE, l);
    }
}

/// The vector over its length is not the zero vector, for every vector
/// but the zero vector itself: no vector is too long for it. No component
/// of it is past one or minus one.
pub proof fn lemma_unit_vector_non_zero(v: Vec3<Scalar>)
    requires
        v.e0 != 0 || v.e1 != 0 || v.e2 != 0,
    ensures
        v.unit_vector_spec() != (Vec3::<Scalar> { e0: 0, e1: 0, e2: 0 }),
        v.raw_length_spec() >= 1,
        MINUS_ONE <= v.unit_vector_spec().e0 <= ONE,
        MINUS_ONE <= v.unit_vector_spec().e1 <= ONE,
        MINUS_ONE <= v.unit_vector_spec().e2 <= ONE,
{
    let a0: int = if v.e0 >= 0 { v.e0 as int } else { -(v.e0 as int) };
    let a1: int = if v.e1 >= 0 { v.e1 as int } else { -(v.e1 as int) };
    let a2: int = if v.e2 >= 0 { v.e2 as int } else { -(v.e2 as int) };
    let m: int = if a0 >= a1 && a0 >= a2 { a0 } else if a1 >= a2 { a1 } else { a2 };
    lemma_length_against_component(v, m);
    lemma_component_within_length(v);
    let l = v.raw_length_spec();
    lemma_unit_component(v.e0 as int, l);
    lemma_unit_component(v.e1 as int, l);
    lemma_unit_component(v.e2 as int, l);
}

/// The inner product and the vector product of two vectors within `s` of
/// zero, for `s` within a third of the factor limit, do not leave the
/// range.
pub proof fn lemma_products_within(a: Vec3<Scalar>, b: Vec3<Scalar>, s: Scalar)
    requires
        0 <= s <= 32_000_000_000_000,
        a.is_within(s),
        b.is_within(s),
    ensures
        is_finite(a.dot_spec(b)),
        a.dot_spec(b) == trunc_div(a.e0 * b.e0, ONE as int) + trunc_div(a.e1 * b.e1, ONE as int)
            + trunc_div(a.e2 * b.e2, ONE as int),
        -3 * ((s * s) / (ONE as int)) <= a.dot_spec(b) <= 3 * ((s * s) / (ONE as int)),
        a.cross_spec(b).is_finite(),
        a.cross_spec(b).is_within((2 * ((s * s) / (ONE as int))) as Scalar),
        a.raw_dot_spec(b) == a.e0 * b.e0 + a.e1 * b.e1 + a.e2 * b.e2,
{
    lemma_mul_exact(a.e0, b.e0, s);
    lemma_mul_exact(a.e1, b.e1, s);
    lemma_mul_exact(a.e2, b.e2, s);
    lemma_mul_exact(a.e1, b.e2, s);
    lemma_mul_exact(a.e2, b.e1, s);
    lemma_mul_exact(a.e2, b.e0, s);
    lemma_mul_exact(a.e0, b.e2, s);
    lemma_mul_exact(a.e0, b.e1, s);
    lemma_mul_exact(a.e1, b.e0, s);
    lemma_mul_exact(s, s, s);
    assert((s * s) / (ONE as int) <= 1_024_000_000_000_000_000) by {
        assert(0 <= s * s <= 32_000_000_000_000 * 32_000_000_000_000) by (nonlinear_arith)
            requires
                0 <= s <= 32_000_000_000_000,
        ;
        vstd::arithmetic::div_mod::lemma_div_is_ordered(
            s * s,
            32_000_000_000_000int * 32_000_000_000_000int,
            ONE as int,
        );
        assert((32_000_000_000_000int * 32_000_000_000_000int) / 1_000_000_000int
            == 1_024_000_000_000_000_000int) by (nonlinear_arith);
    }
}

/// The length of a vector within `s` of zero is less than twice `s`, and
/// does not leave the range.
pub proof fn lemma_length_within(v: Vec3<Scalar>, s: Scalar)
    requires
        1 <= s <= 0x2000_0000_0000_0000,
        v.is_within(s),
    ensures
        v.length_spec() == v.raw_length_spec(),
        0 <= v.length_spec() < 2 * s,
{
    lemma_length_non_negative(v);
    let l = v.raw_length_spec();
    assert(v.e0 * v.e0 <= s * s && v.e1 * v.e1 <= s * s && v.e2 * v.e2 <= s * s) by (nonlinear_arith)
        requires
            -s <= v.e0 <= s && -s <= v.e1 <= s && -s <= v.e2 <= s,
    ;
    assert(s * s >= 1) by (nonlinear_arith)
        requires
            s >= 1,
    ;
    if l >= 2 * s {
        assert(l * l >= 4 * (s * s)) by (nonlinear_arith)
            requires
                l >= 2 * s,
                s >= 1,
        ;
    }
}

/// A vector along one axis has the size of its one component for length,
/// and for unit vector one or minus one on that axis.
pub proof fn lemma_axis_vector(n: Vec3<Scalar>, k: int)
    requires
        0 <= k < 3,
        n == (Vec3::<Scalar> { e0: 0, e1: 0, e2: 0 }).with(k, n.at(k)),
        n.at(k) != 0,
        is_finite(n.at(k)),
    ensures
        n.raw_length_spec() == abs_spec(n.at(k)),
        n.length_spec() == abs_spec(n.at(k)),
        n.unit_vector_spec() == (Vec3::<Scalar> { e0: 0, e1: 0, e2: 0 }).with(
            k,
            if n.at(k) > 0 {
                ONE
            } else {
                MINUS_ONE
            },
        ),
{
    let e: int = n.at(k) as int;
    let a: int = if e > 0 { e } else { -e };
    assert(0int * 0int == 0);
    assert(n.raw_square_spec() == e * e) by {
        if k == 0 {
            assert(n.e1 == 0 && n.e2 == 0 && n.e0 == e);
        } else if k == 1 {
            assert(n.e0 == 0 && n.e2 == 0 && n.e1 == e);
        } else {
            assert(n.e0 == 0 && n.e1 == 0 && n.e2 == e);
        }
    }
    assert(n.raw_square_spec() == a * a && a * a < (a + 1) * (a + 1) && a * ONE == (if e > 0 {
        e * ONE
    } else {
        -(e * ONE)
    }) && a * ONE >= 0) by (nonlinear_arith)
        requires
            n.raw_square_spec() == e * e,
            a == (if e > 0 { e } else { -e }),
    ;
    lemma_int_sqrt_exists(n.raw_square_spec());
    assert(is_int_sqrt(n.raw_square_spec(), a));
    lemma_int_sqrt_unique(n.raw_square_spec(), a, n.raw_length_spec());
    vstd::arithmetic::div_mod::lemma_div_multiples_vanish(ONE as int, a);
    assert((a * ONE) / a == ONE) by (nonlinear_arith)
        requires
            (a * ONE) / a == ONE || (ONE * a) / a == ONE,
    ;
    assert(trunc_div(0 * ONE, a) == 0);
}

/// The inner product with the unit vector of an axis, or with its
/// opposite, picks the component on that axis, or its opposite.
pub proof fn lemma_axis_dot(n: Vec3<Scalar>, k: int, c: Vec3<Scalar>)
    requires
        0 <= k < 3,
        n == (Vec3::<Scalar> { e0: 0, e1: 0, e2: 0 }).with(k, n.at(k)),
        n.at(k) == ONE || n.at(k) == MINUS_ONE,
        c.at(k) >= NEG_INFINITY,
    ensures
        n.dot_spec(c) == (if n.at(k) == ONE {
            c.at(k)
        } else {
            neg_spec(c.at(k))
        }),
        c.dot_spec(n) == n.dot_spec(c),
{
    lemma_mul_one(c.at(k));
    lemma_mul_minus_one(c.at(k));
}

/// Whether the axis `j` follows the axis `i` in their round order.
pub open spec fn in_turn(i: int, j: int) -> bool {
    (i == 0 && j == 1) || (i == 1 && j == 2) || (i == 2 && j == 0)
}

/// The vector product with a vector `y` along the axis `j` has, on the
/// third axis, the product of the component of the other vector on the
/// axis `i` and the one component of `y`, or its opposite, by the order of
/// the axes.
pub proof fn lemma_cross_on_axis(x: Vec3<Scalar>, y: Vec3<Scalar>, i: int, j: int)
    requires
        0 <= i < 3 && 0 <= j < 3 && i != j,
        y == (Vec3::<Scalar> { e0: 0, e1: 0, e2: 0 }).with(j, y.at(j)),
        is_finite(mul_spec(x.at(i), y.at(j))),
        is_finite(mul_spec(y.at(j), x.at(i))),
    ensures
        x.cross_spec(y).at(3 - i - j) == (if in_turn(i, j) {
            mul_spec(x.at(i), y.at(j)) as int
        } else {
            -mul_spec(x.at(i), y.at(j))
        }),
        y.cross_spec(x).at(3 - i - j) == (if in_turn(i, j) {
            -mul_spec(y.at(j), x.at(i))
        } else {
            mul_spec(y.at(j), x.at(i)) as int
        }),
{
}

/// The inner product of a vector with the vector over its length, in
/// exact numbers, is the length times one: three billionths of the length
/// less at most, and twice one more at most.
pub proof fn lemma_unit_dot(n: Vec3<Scalar>)
    requires
        n.e0 != 0 || n.e1 != 0 || n.e2 != 0,
    ensures
        ({
            let unit = n.unit_vector_spec();
            let l = n.raw_length_spec();
            let g = unit.e0 * n.e0 + unit.e1 * n.e1 + unit.e2 * n.e2;
            (ONE - 3) * l <= g <= ONE * (l + 2)
        }),
{
    let unit = n.unit_vector_spec();
    let l = n.raw_length_spec();
    lemma_unit_vector_non_zero(n);
    lemma_component_within_length(n);
    lemma_length_non_negative(n);
    lemma_unit_part(n.e0 as int, l);
    lemma_unit_part(n.e1 as int, l);
    lemma_unit_part(n.e2 as int, l);
    let g0 = unit.e0 * n.e0;
    let g1 = unit.e1 * n.e1;
    let g2 = unit.e2 * n.e2;
    let q = n.raw_square_spec();
    assert(l * (g0 + g1 + g2) == l * g0 + l * g1 + l * g2) by (nonlinear_arith);
    assert(ONE * q == ONE * (n.e0 * n.e0) + ONE * (n.e1 * n.e1) + ONE * (n.e2 * n.e2))
        by (nonlinear_arith)
        requires
            q == n.e0 * n.e0 + n.e1 * n.e1 + n.e2 * n.e2,
    ;
    let g = g0 + g1 + g2;
    assert(ONE * q - 3 * (l * l) <= l * g <= ONE * q);
    assert((l + 1) * (l + 1) == l * l + 2 * l + 1) by (nonlinear_arith);
    assert(ONE * (l * l) <= ONE * q <= ONE * (l * l + 2 * l)) by (nonlinear_arith)
        requires
            l * l <= q <= l * l + 2 * l,
    ;
    assert((ONE - 3) * l <= g) by (nonlinear_arith)
        requires
            ONE * (l * l) - 3 * (l * l) <= l * g,
            l >= 1,
    ;
    assert(g <= ONE * (l + 2)) by (nonlinear_arith)
        requires
            l * g <= ONE * (l * l + 2 * l),
            l >= 1,
    ;
}

/// The vector over the length of a vector that is not zero is not short:
/// its inner product with itself is a quarter at least, and three at most.
pub proof fn lemma_unit_vector_long(n: Vec3<Scalar>)
    requires
        n.e0 != 0 || n.e1 != 0 || n.e2 != 0,
    ensures
        ONE / 4 <= n.unit_vector_spec().dot_spec(n.unit_vector_spec()) <= 3 * ONE,
{
    let unit = n.unit_vector_spec();
    let l = n.raw_length_spec();
    let a0: int = if n.e0 >= 0 { n.e0 as int } else { -(n.e0 as int) };
    let a1: int = if n.e1 >= 0 { n.e1 as int } else { -(n.e1 as int) };
    let a2: int = if n.e2 >= 0 { n.e2 as int } else { -(n.e2 as int) };
    let m: int = if a0 >= a1 && a0 >= a2 { a0 } else if a1 >= a2 { a1 } else { a2 };
    lemma_length_against_component(n, m);
    lemma_unit_vector_non_zero(n);
    lemma_square_part(unit.e0);
    lemma_square_part(unit.e1);
    lemma_square_part(unit.e2);
    let e: int = if a0 == m { n.e0 as int } else if a1 == m { n.e1 as int } else { n.e2 as int };
    let k: int = if a0 == m { unit.e0 as int } else if a1 == m { unit.e1 as int } else { unit.e2 as int };
    assert(k == trunc_div(e * ONE, l));
    assert(m * ONE >= 0 && m * ONE == (if e >= 0 { e * ONE } else { -(e * ONE) }) && m * ONE
        >= 500_000_000 * l) by (nonlinear_arith)
        requires
            m == (if e >= 0 { e } else { -e }),
            l < 2 * m,
            l >= 1,
    ;
    vstd::arithmetic::div_mod::lemma_div_is_ordered(500_000_000 * l, m * ONE, l);
    vstd::arithmetic::div_mod::lemma_div_multiples_vanish(500_000_000, l);
    assert((500_000_000 * l) / l == 500_000_000) by (nonlinear_arith)
        requires
            (l * 500_000_000) / l == 500_000_000,
    ;
    assert(k >= 500_000_000 || k <= -500_000_000);
    assert(k * k >= 250_000_000_000_000_000) by (nonlinear_arith)
        requires
            k >= 500_000_000 || k <= -500_000_000,
    ;
    vstd::arithmetic::div_mod::lemma_div_is_ordered(250_000_000_000_000_000, k * k, ONE as int);
    assert(250_000_000_000_000_000int / 1_000_000_000int == 250_000_000) by (nonlinear_arith);
}

/// The square of a number within one of zero is between nothing and one,
/// and is the exact square over one, rounded down.
proof fn lemma_square_part(k: Scalar)
    requires
        MINUS_ONE <= k <= ONE,
    ensures
        0 <= mul_spec(k, k) <= ONE,
        mul_spec(k, k) == (k * k) / (ONE as int),
{
    assert(0 <= k * k <= ONE * ONE) by (nonlinear_arith)
        requires
            MINUS_ONE <= k <= ONE,
    ;
    vstd::arithmetic::div_mod::lemma_div_pos_is_pos(k * k, ONE as int);
    vstd::arithmetic::div_mod::lemma_div_is_ordered(k * k, ONE * ONE, ONE as int);
    assert((ONE * ONE) / (ONE as int) == ONE) by (nonlinear_arith);
}

impl core::ops::Neg for Vec3<Scalar> {
    type Output = Vec3<Scalar>;

    fn neg(self) -> (r: Vec3<Scalar>) {
        self.negated()
    }
}

impl vstd::std_specs::ops::NegSpecImpl for Vec3<Scalar> {
    open spec fn obeys_neg_spec() -> bool {
        true
    }

    open spec fn neg_req(self) -> bool {
        true
    }

    open spec fn neg_spec(self) -> Vec3<Scalar> {
        Vec3::<Scalar>::neg_spec(self)
    }
}

impl core::ops::Add for Vec3<Scalar> {
    type Output = Vec3<Scalar>;

    fn add(self, rhs: Vec3<Scalar>) -> (r: Vec3<Scalar>) {
        self.plus(&rhs)
    }
}

impl vstd::std_specs::ops::AddSpecImpl for Vec3<Scalar> {
    open spec fn obeys_add_spec() -> bool {
        true
    }

    open spec fn add_req(self, rhs: Vec3<Scalar>) -> bool {
        true
    }

    open spec fn add_spec(self, rhs: Vec3<Scalar>) -> Vec3<Scalar> {
        self.plus_spec(rhs)
    }
}

impl core::ops::Sub for Vec3<Scalar> {
    type Output = Vec3<Scalar>;

    fn sub(self, rhs: Vec3<Scalar>) -> (r: Vec3<Scalar>) {
        self.minus(&rhs)
    }
}

impl vstd::std_specs::ops::SubSpecImpl for Vec3<Scalar> {
    open spec fn obeys_sub_spec() -> bool {
        true
    }

    open spec fn sub_req(self, rhs: Vec3<Scalar>) -> bool {
        true
    }

    open spec fn sub_spec(self, rhs: Vec3<Scalar>) -> Vec3<Scalar> {
        self.minus_spec(rhs)
    }
}

/// The product component by component.
impl core::ops::Mul for Vec3<Scalar> {
    type Output = Vec3<Scalar>;

    fn mul(self, rhs: Vec3<Scalar>) -> (r: Vec3<Scalar>) {
        self.times(&rhs)
    }
}

impl vstd::std_specs::ops::MulSpecImpl for Vec3<Scalar> {
    open spec fn obeys_mul_spec() -> bool {
        true
    }

    open spec fn mul_req(self, rhs: Vec3<Scalar>) -> bool {
        true
    }

    open spec fn mul_spec(self, rhs: Vec3<Scalar>) -> Vec3<Scalar> {
        self.times_spec(rhs)
    }
}

/// The product with a number.
impl core::ops::Mul<Scalar> for Vec3<Scalar> {
    type Output = Vec3<Scalar>;

    fn mul(self, rhs: Scalar) -> (r: Vec3<Scalar>) {
        self.scaled(rhs)
    }
}

impl vstd::std_specs::ops::MulSpecImpl<Scalar> for Vec3<Scalar> {
    open spec fn obeys_mul_spec() -> bool {
        true
    }

    open spec fn mul_req(self, rhs: Scalar) -> bool {
        true
    }

    open spec fn mul_spec(self, rhs: Scalar) -> Vec3<Scalar> {
        self.scaled_spec(rhs)
    }
}

/// The quotient by a number.
impl core::ops::Div<Scalar> for Vec3<Scalar> {
    type Output = Vec3<Scalar>;

    fn div(self, rhs: Scalar) -> (r: Vec3<Scalar>) {
        self.divided(rhs)
    }
}

impl vstd::std_specs::ops::DivSpecImpl<Scalar> for Vec3<Scalar> {
    open spec fn obeys_div_spec() -> bool {
        true
    }

    open spec fn div_req(self, rhs: Scalar) -> bool {
        true
    }

    open spec fn div_spec(self, rhs: Scalar) -> Vec3<Scalar> {
        self.divided_spec(rhs)
    }
}

} // verus!
