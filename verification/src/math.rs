//! Angles, logarithms and powers over [`Scalar`], each built from the four
//! operations and the square root.

use vstd::prelude::*;
use crate::scalar::{
    Scalar, ONE, TWO, MINUS_ONE, INFINITY, NEG_INFINITY, add_spec, sub_spec, mul_spec, div_spec,
    neg_spec, abs_spec, sqrt_spec, min_spec, max_spec, is_finite, saturate, fx_add, fx_sub,
    fx_mul, fx_div, fx_neg, fx_abs, fx_sqrt, fx_min, fx_max, int_sqrt, isqrt,
    lemma_int_sqrt_exists, lemma_int_sqrt_unique,
};

verus! {

/// Half a turn, in radians.
pub const PI: Scalar = 3_141_592_654;

/// A whole turn.
pub const TWO_PI: Scalar = 6_283_185_307;

/// A quarter of a turn.
pub const HALF_PI: Scalar = 1_570_796_327;

/// The natural logarithm of two.
pub const LN_2: Scalar = 693_147_181;

/// Half a turn, in degrees.
pub const HALF_TURN: Scalar = 180_000_000_000;

/// One half.
pub const HALF: Scalar = 500_000_000;

/// Below this a number is doubled before the series for its logarithm is
/// used.
pub const LN_LOW: Scalar = 750_000_000;

/// From this on a number is halved before the series for its logarithm is
/// used.
pub const LN_HIGH: Scalar = 1_500_000_000;

/// `c - x2 * acc`: one step of a series with alternating signs.
pub open spec fn down_spec(c: Scalar, x2: Scalar, acc: Scalar) -> Scalar {
    sub_spec(c, mul_spec(x2, acc))
}

/// `c + x2 * acc`: one step of a series with equal signs.
pub open spec fn up_spec(c: Scalar, x2: Scalar, acc: Scalar) -> Scalar {
    add_spec(c, mul_spec(x2, acc))
}

fn down(c: Scalar, x2: Scalar, acc: Scalar) -> (r: Scalar)
    ensures
        r == down_spec(c, x2, acc),
{
    fx_sub(c, fx_mul(x2, acc))
}

fn up(c: Scalar, x2: Scalar, acc: Scalar) -> (r: Scalar)
    ensures
        r == up_spec(c, x2, acc),
{
    fx_add(c, fx_mul(x2, acc))
}

/// The angle in radians: the degrees times half a turn in radians, over
/// half a turn in degrees.
pub open spec fn degrees_to_radians_spec(degrees: Scalar) -> Scalar {
    div_spec(mul_spec(degrees, PI), HALF_TURN)
}

/// The angle in radians.
pub fn degrees_to_radians(degrees: Scalar) -> (r: Scalar)
    ensures
        r == degrees_to_radians_spec(degrees),
{
    fx_div(fx_mul(degrees, PI), HALF_TURN)
}

/// The sine of an angle of at most a quarter turn either way: the series
/// `x - x^3/3! + x^5/5! - ...` up to the power 15.
pub open spec fn sin_series_spec(x: Scalar) -> Scalar {
    let x2 = mul_spec(x, x);
    let a7 = down_spec(ONE, div_spec(x2, 210_000_000_000), ONE);
    let a6 = down_spec(ONE, div_spec(x2, 156_000_000_000), a7);
    let a5 = down_spec(ONE, div_spec(x2, 110_000_000_000), a6);
    let a4 = down_spec(ONE, div_spec(x2, 72_000_000_000), a5);
    let a3 = down_spec(ONE, div_spec(x2, 42_000_000_000), a4);
    let a2 = down_spec(ONE, div_spec(x2, 20_000_000_000), a3);
    let a1 = down_spec(ONE, div_spec(x2, 6_000_000_000), a2);
    mul_spec(x, a1)
}

/// The cosine of an angle of at most a quarter turn either way: the series
/// `1 - x^2/2! + x^4/4! - ...` up to the power 16.
pub open spec fn cos_series_spec(x: Scalar) -> Scalar {
    let x2 = mul_spec(x, x);
    let a8 = down_spec(ONE, div_spec(x2, 240_000_000_000), ONE);
    let a7 = down_spec(ONE, div_spec(x2, 182_000_000_000), a8);
    let a6 = down_spec(ONE, div_spec(x2, 132_000_000_000), a7);
    let a5 = down_spec(ONE, div_spec(x2, 90_000_000_000), a6);
    let a4 = down_spec(ONE, div_spec(x2, 56_000_000_000), a5);
    let a3 = down_spec(ONE, div_spec(x2, 30_000_000_000), a4);
    let a2 = down_spec(ONE, div_spec(x2, 12_000_000_000), a3);
    down_spec(ONE, div_spec(x2, 2_000_000_000), a2)
}

fn sin_series(x: Scalar) -> (r: Scalar)
    ensures
        r == sin_series_spec(x),
{
    let x2: Scalar = fx_mul(x, x);
    let a7: Scalar = down(ONE, fx_div(x2, 210_000_000_000), ONE);
    let a6: Scalar = down(ONE, fx_div(x2, 156_000_000_000), a7);
    let a5: Scalar = down(ONE, fx_div(x2, 110_000_000_000), a6);
    let a4: Scalar = down(ONE, fx_div(x2, 72_000_000_000), a5);
    let a3: Scalar = down(ONE, fx_div(x2, 42_000_000_000), a4);
    let a2: Scalar = down(ONE, fx_div(x2, 20_000_000_000), a3);
    let a1: Scalar = down(ONE, fx_div(x2, 6_000_000_000), a2);
    fx_mul(x, a1)
}

fn cos_series(x: Scalar) -> (r: Scalar)
    ensures
        r == cos_series_spec(x),
{
    let x2: Scalar = fx_mul(x, x);
    let a8: Scalar = down(ONE, fx_div(x2, 240_000_000_000), ONE);
    let a7: Scalar = down(ONE, fx_div(x2, 182_000_000_000), a8);
    let a6: Scalar = down(ONE, fx_div(x2, 132_000_000_000), a7);
    let a5: Scalar = down(ONE, fx_div(x2, 90_000_000_000), a6);
    let a4: Scalar = down(ONE, fx_div(x2, 56_000_000_000), a5);
    let a3: Scalar = down(ONE, fx_div(x2, 30_000_000_000), a4);
    let a2: Scalar = down(ONE, fx_div(x2, 12_000_000_000), a3);
    down(ONE, fx_div(x2, 2_000_000_000), a2)
}

/// The size of the angle within one turn: from zero up to a whole turn.
pub open spec fn turn_spec(radians: Scalar) -> Scalar {
    ((if radians >= 0 {
        radians as int
    } else {
        -(radians as int)
    }) % (TWO_PI as int)) as Scalar
}

/// The sine and the cosine of an angle of `m` radians, for `m` from zero up
/// to a whole turn: the angle is folded into the quarter turn round zero,
/// where the series are used.
pub open spec fn sin_cos_turn_spec(m: Scalar) -> (Scalar, Scalar) {
    let a = if m > PI {
        sub_spec(m, TWO_PI)
    } else {
        m
    };
    if a > HALF_PI {
        let f = sub_spec(PI, a);
        (sin_series_spec(f), neg_spec(cos_series_spec(f)))
    } else if a < -HALF_PI {
        let f = sub_spec(neg_spec(PI), a);
        (sin_series_spec(f), neg_spec(cos_series_spec(f)))
    } else {
        (sin_series_spec(a), cos_series_spec(a))
    }
}

/// `x` held between minus one and one.
pub open spec fn unit_held_spec(x: Scalar) -> Scalar {
    max_spec(MINUS_ONE, min_spec(x, ONE))
}

/// What is left of one beside `x`: the root of one less the square of
/// `x`, rounded down, for `x` between minus one and one.
pub open spec fn beside_spec(x: Scalar) -> Scalar {
    int_sqrt(ONE * ONE - x * x) as Scalar
}

/// The pair put on the circle of the radius one: each part is held between
/// minus one and one; then the part of the lesser size stays, and the other
/// becomes what is left of one beside it, with the sign that it had.
pub open spec fn on_circle_spec(s: Scalar, c: Scalar) -> (Scalar, Scalar) {
    let s = unit_held_spec(s);
    let c = unit_held_spec(c);
    if abs_spec(s) <= abs_spec(c) {
        (s, if c >= 0 {
            beside_spec(s)
        } else {
            neg_spec(beside_spec(s))
        })
    } else {
        (if s >= 0 {
            beside_spec(c)
        } else {
            neg_spec(beside_spec(c))
        }, c)
    }
}

/// How far the squares of a sine and a cosine are from adding up to one,
/// in squares of billionths.
pub open spec fn turn_defect_spec(sin_theta: Scalar, cos_theta: Scalar) -> int {
    let d = cos_theta * cos_theta + sin_theta * sin_theta - ONE * ONE;
    if d >= 0 {
        d
    } else {
        -d
    }
}

/// The sine and the cosine of an angle in radians: what the series give,
/// put on the circle of the radius one, so that no part is past one or
/// minus one and the two belong to one angle.
pub open spec fn sin_cos_spec(radians: Scalar) -> (Scalar, Scalar) {
    let (s, c) = sin_cos_turn_spec(turn_spec(radians));
    let (s, c) = on_circle_spec(s, c);
    if radians < 0 {
        (neg_spec(s), c)
    } else {
        (s, c)
    }
}

/// A pair on the circle has no part past one or minus one, and the squares
/// of its parts add up to one but for the rounding of the root: to twice a
/// billionth less at most.
pub proof fn lemma_on_circle(s: Scalar, c: Scalar)
    ensures
        MINUS_ONE <= on_circle_spec(s, c).0 <= ONE,
        MINUS_ONE <= on_circle_spec(s, c).1 <= ONE,
        turn_defect_spec(on_circle_spec(s, c).0, on_circle_spec(s, c).1) <= 2 * ONE,
{
    let (s1, c1) = on_circle_spec(s, c);
    let s = unit_held_spec(s);
    let c = unit_held_spec(c);
    lemma_beside(s);
    lemma_beside(c);
    assert(s1 * s1 + c1 * c1 == s * s + beside_spec(s) * beside_spec(s) || s1 * s1 + c1 * c1
        == c * c + beside_spec(c) * beside_spec(c)) by (nonlinear_arith)
        requires
            (s1 == s && (c1 == beside_spec(s) || c1 == -beside_spec(s))) || (c1 == c && (s1
                == beside_spec(c) || s1 == -beside_spec(c))),
    ;
}

/// What is left of one beside `x` is between nothing and one, and its
/// square is what is left of one beside the square of `x`, to twice a
/// billionth less at most.
proof fn lemma_beside(x: Scalar)
    requires
        MINUS_ONE <= x <= ONE,
    ensures
        0 <= ONE * ONE - x * x,
        0 <= beside_spec(x) <= ONE,
        0 <= ONE * ONE - x * x - beside_spec(x) * beside_spec(x) <= 2 * ONE,
{
    let n = ONE * ONE - x * x;
    assert(0 <= n <= ONE * ONE) by (nonlinear_arith)
        requires
            n == ONE * ONE - x * x,
            MINUS_ONE <= x <= ONE,
    ;
    lemma_int_sqrt_exists(n);
    let r = int_sqrt(n);
    if r > ONE {
        assert(r * r > ONE * ONE) by (nonlinear_arith)
            requires
                r > ONE,
        ;
    }
    assert((r + 1) * (r + 1) == r * r + 2 * r + 1) by (nonlinear_arith);
}

/// The sine of no angle is zero and its cosine is one, also for no angle in
/// degrees.
pub proof fn lemma_sin_cos_zero()
    ensures
        sin_cos_spec(0) == (0i64, ONE),
        degrees_to_radians_spec(0) == 0,
{
    assert(turn_spec(0) == 0);
    assert(mul_spec(0, 0) == 0);
    assert(sin_series_spec(0) == 0);
    assert(cos_series_spec(0) == ONE);
    assert(ONE * ONE - 0 * 0 == ONE * ONE && ONE * ONE < (ONE + 1) * (ONE + 1)) by (nonlinear_arith);
    lemma_int_sqrt_exists(ONE * ONE);
    lemma_int_sqrt_unique(ONE * ONE, ONE as int, int_sqrt(ONE * ONE));
}

/// No sine and no cosine is below minus one or above one, and the squares
/// of the two add up to one, to twice a billionth less at most.
pub proof fn lemma_sin_cos_bounded(radians: Scalar)
    ensures
        MINUS_ONE <= sin_cos_spec(radians).0 <= ONE,
        MINUS_ONE <= sin_cos_spec(radians).1 <= ONE,
        turn_defect_spec(sin_cos_spec(radians).0, sin_cos_spec(radians).1) <= 2 * ONE,
{
    let (s, c) = sin_cos_turn_spec(turn_spec(radians));
    lemma_on_circle(s, c);
    let (s1, c1) = on_circle_spec(s, c);
    assert(neg_spec(s1) * neg_spec(s1) == s1 * s1) by (nonlinear_arith)
        requires
            neg_spec(s1) == -s1,
    ;
}

/// The tangent: the sine over the cosine.
pub open spec fn tan_spec(radians: Scalar) -> Scalar {
    div_spec(sin_cos_spec(radians).0, sin_cos_spec(radians).1)
}

fn turn(radians: Scalar) -> (m: Scalar)
    ensures
        m == turn_spec(radians),
        0 <= m < TWO_PI,
{
    let size: u64 = if radians >= 0 {
        radians as u64
    } else if radians == i64::MIN {
        0x8000_0000_0000_0000
    } else {
        (-radians) as u64
    };
    (size % (TWO_PI as u64)) as i64
}

fn beside(x: Scalar) -> (r: Scalar)
    requires
        MINUS_ONE <= x <= ONE,
    ensures
        r == beside_spec(x),
        0 <= r <= ONE,
{
    let a: u128 = if x >= 0 {
        x as u128
    } else {
        (-x) as u128
    };
    proof {
        lemma_beside(x);
        assert(a * a == x * x && 0 <= a * a <= 1_000_000_000_000_000_000 && ONE * ONE
            == 1_000_000_000_000_000_000) by (nonlinear_arith)
            requires
                a == (if x >= 0 { x as int } else { -(x as int) }),
                a <= 1_000_000_000,
                ONE == 1_000_000_000,
        ;
    }
    let whole: u128 = 1_000_000_000_000_000_000;
    isqrt(whole - a * a) as i64
}

/// The pair put on the circle of the radius one.
pub fn on_circle(s: Scalar, c: Scalar) -> (r: (Scalar, Scalar))
    ensures
        r == on_circle_spec(s, c),
        MINUS_ONE <= r.0 <= ONE,
        MINUS_ONE <= r.1 <= ONE,
        turn_defect_spec(r.0, r.1) <= 2 * ONE,
{
    proof {
        lemma_on_circle(s, c);
    }
    let s: Scalar = fx_max(MINUS_ONE, fx_min(s, ONE));
    let c: Scalar = fx_max(MINUS_ONE, fx_min(c, ONE));
    if fx_abs(s) <= fx_abs(c) {
        let other: Scalar = beside(s);
        (s, if c >= 0 {
            other
        } else {
            fx_neg(other)
        })
    } else {
        let other: Scalar = beside(c);
        (if s >= 0 {
            other
        } else {
            fx_neg(other)
        }, c)
    }
}

/// How far the squares of `sin_theta` and `cos_theta` are from adding up
/// to one.
pub fn turn_defect(sin_theta: Scalar, cos_theta: Scalar) -> (d: u128)
    ensures
        d == turn_defect_spec(sin_theta, cos_theta),
{
    let s: u128 = if sin_theta >= 0 {
        sin_theta as u128
    } else {
        (-(sin_theta as i128)) as u128
    };
    let c: u128 = if cos_theta >= 0 {
        cos_theta as u128
    } else {
        (-(cos_theta as i128)) as u128
    };
    let one: u128 = 1_000_000_000_000_000_000;
    proof {
        assert(s * s == sin_theta * sin_theta && c * c == cos_theta * cos_theta && 0 <= s * s
            <= 0x8000_0000_0000_0000 * 0x8000_0000_0000_0000 && 0 <= c * c
            <= 0x8000_0000_0000_0000 * 0x8000_0000_0000_0000) by (nonlinear_arith)
            requires
                s == (if sin_theta >= 0 { sin_theta as int } else { -(sin_theta as int) }),
                c == (if cos_theta >= 0 { cos_theta as int } else { -(cos_theta as int) }),
                s <= 0x8000_0000_0000_0000,
                c <= 0x8000_0000_0000_0000,
        ;
        assert(ONE * ONE == 1_000_000_000_000_000_000) by (nonlinear_arith);
    }
    let squares: u128 = s * s + c * c;
    if squares >= one {
        squares - one
    } else {
        one - squares
    }
}

/// The sine and the cosine of an angle in radians.
pub fn sin_cos(radians: Scalar) -> (r: (Scalar, Scalar))
    ensures
        r == sin_cos_spec(radians),
        MINUS_ONE <= r.0 <= ONE,
        MINUS_ONE <= r.1 <= ONE,
        turn_defect_spec(r.0, r.1) <= 2 * ONE,
{
    let m: Scalar = turn(radians);
    let a: Scalar = if m > PI {
        fx_sub(m, TWO_PI)
    } else {
        m
    };
    let (s, c): (Scalar, Scalar) = if a > HALF_PI {
        let f: Scalar = fx_sub(PI, a);
        (sin_series(f), fx_neg(cos_series(f)))
    } else if a < -HALF_PI {
        let f: Scalar = fx_sub(fx_neg(PI), a);
        (sin_series(f), fx_neg(cos_series(f)))
    } else {
        (sin_series(a), cos_series(a))
    };
    let (s, c): (Scalar, Scalar) = on_circle(s, c);
    proof {
        assert(neg_spec(s) * neg_spec(s) == s * s) by (nonlinear_arith)
            requires
                neg_spec(s) == -s,
        ;
    }
    if radians < 0 {
        (fx_neg(s), c)
    } else {
        (s, c)
    }
}

/// The tangent of an angle in radians.
pub fn tan(radians: Scalar) -> (r: Scalar)
    ensures
        r == tan_spec(radians),
{
    let (s, c): (Scalar, Scalar) = sin_cos(radians);
    fx_div(s, c)
}

/// The tangent of half the angle whose tangent is `x`.
pub open spec fn half_angle_spec(x: Scalar) -> Scalar {
    div_spec(x, add_spec(ONE, sqrt_spec(add_spec(ONE, mul_spec(x, x)))))
}

/// The angle of a small tangent: the series `x - x^3/3 + x^5/5 - ...` up to
/// the power 13.
pub open spec fn atan_series_spec(x: Scalar) -> Scalar {
    let x2 = mul_spec(x, x);
    let a6 = down_spec(90_909_091, x2, 76_923_077);
    let a5 = down_spec(111_111_111, x2, a6);
    let a4 = down_spec(142_857_143, x2, a5);
    let a3 = down_spec(200_000_000, x2, a4);
    let a2 = down_spec(333_333_333, x2, a3);
    let a1 = down_spec(ONE, x2, a2);
    mul_spec(x, a1)
}

/// The angle whose tangent is `x`, for `x` from minus one to one: four times
/// the angle of the tangent of the quarter angle.
pub open spec fn atan_unit_spec(x: Scalar) -> Scalar {
    mul_spec(4_000_000_000, atan_series_spec(half_angle_spec(half_angle_spec(x))))
}

/// The angle of the point `(x, y)` from the first axis, between minus half
/// a turn and half a turn. That of the origin is zero.
pub open spec fn atan2_spec(y: Scalar, x: Scalar) -> Scalar {
    if x == 0 && y == 0 {
        0
    } else if abs_spec(y) <= abs_spec(x) {
        let base = atan_unit_spec(div_spec(y, x));
        if x > 0 {
            base
        } else if y >= 0 {
            add_spec(base, PI)
        } else {
            sub_spec(base, PI)
        }
    } else {
        let base = atan_unit_spec(div_spec(x, y));
        if y > 0 {
            sub_spec(HALF_PI, base)
        } else {
            sub_spec(neg_spec(HALF_PI), base)
        }
    }
}

/// The angle whose cosine is `x`, between zero and half a turn.
pub open spec fn acos_spec(x: Scalar) -> Scalar {
    atan2_spec(sqrt_spec(sub_spec(ONE, mul_spec(x, x))), x)
}

fn half_angle(x: Scalar) -> (r: Scalar)
    ensures
        r == half_angle_spec(x),
{
    fx_div(x, fx_add(ONE, fx_sqrt(fx_add(ONE, fx_mul(x, x)))))
}

fn atan_series(x: Scalar) -> (r: Scalar)
    ensures
        r == atan_series_spec(x),
{
    let x2: Scalar = fx_mul(x, x);
    let a6: Scalar = down(90_909_091, x2, 76_923_077);
    let a5: Scalar = down(111_111_111, x2, a6);
    let a4: Scalar = down(142_857_143, x2, a5);
    let a3: Scalar = down(200_000_000, x2, a4);
    let a2: Scalar = down(333_333_333, x2, a3);
    let a1: Scalar = down(ONE, x2, a2);
    fx_mul(x, a1)
}

fn atan_unit(x: Scalar) -> (r: Scalar)
    ensures
        r == atan_unit_spec(x),
{
    fx_mul(4_000_000_000, atan_series(half_angle(half_angle(x))))
}

/// The angle of the point `(x, y)` from the first axis.
pub fn atan2(y: Scalar, x: Scalar) -> (r: Scalar)
    ensures
        r == atan2_spec(y, x),
{
    if x == 0 && y == 0 {
        0
    } else if fx_abs(y) <= fx_abs(x) {
        let base: Scalar = atan_unit(fx_div(y, x));
        if x > 0 {
            base
        } else if y >= 0 {
            fx_add(base, PI)
        } else {
            fx_sub(base, PI)
        }
    } else {
        let base: Scalar = atan_unit(fx_div(x, y));
        if y > 0 {
            fx_sub(HALF_PI, base)
        } else {
            fx_sub(fx_neg(HALF_PI), base)
        }
    }
}

/// The angle whose cosine is `x`.
pub fn acos(x: Scalar) -> (r: Scalar)
    ensures
        r == acos_spec(x),
{
    atan2(fx_sqrt(fx_sub(ONE, fx_mul(x, x))), x)
}

/// `m` doubled until it is three quarters at least, and `k` lowered by one
/// for each doubling.
pub open spec fn raise_spec(m: Scalar, k: Scalar) -> (Scalar, Scalar)
    decreases LN_HIGH - m,
{
    if 0 < m < LN_LOW {
        raise_spec((2 * m) as Scalar, (k - 1) as Scalar)
    } else {
        (m, k)
    }
}

/// `m` halved until it is below one and a half, and `k` raised by one for
/// each halving.
pub open spec fn lower_spec(m: Scalar, k: Scalar) -> (Scalar, Scalar)
    decreases m,
{
    if m >= LN_HIGH {
        lower_spec((m / 2) as Scalar, (k + 1) as Scalar)
    } else {
        (m, k)
    }
}

/// The logarithm of a number from three quarters up to one and a half: with
/// `s` for
/// `(m - 1) / (m + 1)`, the series `2 (s + s^3/3 + s^5/5 + ...)` up to the
/// power 15.
pub open spec fn ln_series_spec(m: Scalar) -> Scalar {
    let s = div_spec(sub_spec(m, ONE), add_spec(m, ONE));
    let s2 = mul_spec(s, s);
    let a7 = up_spec(76_923_077, s2, 66_666_667);
    let a6 = up_spec(90_909_091, s2, a7);
    let a5 = up_spec(111_111_111, s2, a6);
    let a4 = up_spec(142_857_143, s2, a5);
    let a3 = up_spec(200_000_000, s2, a4);
    let a2 = up_spec(333_333_333, s2, a3);
    let a1 = up_spec(ONE, s2, a2);
    mul_spec(TWO, mul_spec(s, a1))
}

/// The natural logarithm. That of zero and of a negative number is negative
/// infinity. Where the rounding of the series would give a number below one
/// a positive logarithm, or a number from one on a negative one, the
/// logarithm is zero.
pub open spec fn ln_spec(x: Scalar) -> Scalar {
    if x <= 0 {
        NEG_INFINITY
    } else if x >= INFINITY {
        INFINITY
    } else {
        let (m, k) = if x >= LN_HIGH {
            lower_spec(x, 0)
        } else {
            raise_spec(x, 0)
        };
        let series = add_spec(ln_series_spec(m), mul_spec(LN_2, (k * ONE) as Scalar));
        if x < ONE {
            min_spec(series, 0)
        } else {
            max_spec(series, 0)
        }
    }
}

/// The logarithm of a number below one is not positive, and that of a
/// number from one on is not negative.
pub proof fn lemma_ln_sign(x: Scalar)
    ensures
        x < ONE ==> ln_spec(x) <= 0,
        x >= ONE ==> ln_spec(x) >= 0,
{
}

fn ln_series(m: Scalar) -> (r: Scalar)
    ensures
        r == ln_series_spec(m),
{
    let s: Scalar = fx_div(fx_sub(m, ONE), fx_add(m, ONE));
    let s2: Scalar = fx_mul(s, s);
    let a7: Scalar = up(76_923_077, s2, 66_666_667);
    let a6: Scalar = up(90_909_091, s2, a7);
    let a5: Scalar = up(111_111_111, s2, a6);
    let a4: Scalar = up(142_857_143, s2, a5);
    let a3: Scalar = up(200_000_000, s2, a4);
    let a2: Scalar = up(333_333_333, s2, a3);
    let a1: Scalar = up(ONE, s2, a2);
    fx_mul(TWO, fx_mul(s, a1))
}

/// The natural logarithm.
pub fn ln(x: Scalar) -> (r: Scalar)
    ensures
        r == ln_spec(x),
        x < ONE ==> r <= 0,
        x >= ONE ==> r >= 0,
{
    if x <= 0 {
        return NEG_INFINITY;
    }
    if x >= INFINITY {
        return INFINITY;
    }
    let mut m: Scalar = x;
    let mut k: Scalar = 0;
    if x >= LN_HIGH {
        while m >= LN_HIGH
            invariant
                0 < m <= x < INFINITY,
                0 <= k <= 64,
                m >= LN_HIGH ==> k < 64,
                m * pow2_bound(k as int) <= x,
                lower_spec(m, k) == lower_spec(x, 0),
            decreases m,
        {
            proof {
                lemma_pow2_bound(k as int, m as int, x as int);
            }
            m = m / 2;
            k = k + 1;
        }
    } else {
        while m < LN_LOW
            invariant
                0 < m < LN_HIGH,
                -64 <= k <= 0,
                m < LN_LOW ==> k > -64,
                m >= pow2_bound(-(k as int)),
                raise_spec(m, k) == raise_spec(x, 0),
            decreases LN_HIGH - m,
        {
            proof {
                lemma_pow2_raise(-(k as int), m as int);
            }
            m = 2 * m;
            k = k - 1;
        }
    }
    let series: Scalar = fx_add(ln_series(m), fx_mul(LN_2, k * ONE));
    if x < ONE {
        fx_min(series, 0)
    } else {
        fx_max(series, 0)
    }
}

/// Two to the power `k`, and one for a negative `k`.
pub open spec fn pow2_bound(k: int) -> int
    decreases k,
{
    if k <= 0 {
        1
    } else {
        2 * pow2_bound(k - 1)
    }
}

proof fn lemma_pow2_values()
    ensures
        pow2_bound(29) == 0x2000_0000,
        pow2_bound(30) == 0x4000_0000,
        pow2_bound(34) == 0x4_0000_0000,
{
    reveal_with_fuel(pow2_bound, 35);
}

/// After `k` halvings that left `m` at one and a half or more, fewer than 34 have
/// been made.
proof fn lemma_pow2_bound(k: int, m: int, x: int)
    requires
        0 <= k,
        m >= LN_HIGH,
        m * pow2_bound(k) <= x,
        x < INFINITY,
    ensures
        k < 34,
        (m / 2) * pow2_bound(k + 1) <= x,
{
    lemma_pow2_values();
    lemma_pow2_monotone(0, k);
    if k >= 34 {
        lemma_pow2_monotone(34, k);
        assert(m * pow2_bound(k) >= ONE * pow2_bound(34)) by (nonlinear_arith)
            requires
                m >= ONE,
                ONE > 0,
                pow2_bound(k) >= pow2_bound(34),
                pow2_bound(34) > 0,
        ;
    }
    assert((m / 2) * (2 * pow2_bound(k)) <= m * pow2_bound(k)) by (nonlinear_arith)
        requires
            m >= 0,
            pow2_bound(k) >= 1,
    ;
}

proof fn lemma_pow2_monotone(a: int, b: int)
    requires
        0 <= a <= b,
    ensures
        1 <= pow2_bound(a) <= pow2_bound(b),
    decreases b,
{
    if a < b {
        lemma_pow2_monotone(a, b - 1);
    } else if a > 0 {
        lemma_pow2_monotone(a - 1, a - 1);
    }
}

/// After `k` doublings that left `m` below three quarters, fewer than 30
/// have been made.
proof fn lemma_pow2_raise(k: int, m: int)
    requires
        0 <= k,
        m < LN_LOW,
        m >= pow2_bound(k),
    ensures
        k < 30,
        2 * m >= pow2_bound(k + 1),
{
    lemma_pow2_values();
    if k >= 30 {
        lemma_pow2_monotone(30, k);
    }
}

/// The whole part of a number: the greatest integer that is not above it.
/// That of an infinity is the whole part of the greatest or least finite
/// number.
pub open spec fn whole_spec(x: Scalar) -> int {
    x as int / ONE as int
}

/// The greatest whole number that is not above `x`. An infinity is its own
/// floor.
pub open spec fn floor_spec(x: Scalar) -> Scalar {
    if is_finite(x) {
        saturate(whole_spec(x) * ONE)
    } else {
        x
    }
}

/// The whole part of a number.
pub fn whole(x: Scalar) -> (q: i64)
    ensures
        q == whole_spec(x),
        q * ONE <= x < q * ONE + ONE,
{
    if x >= 0 {
        x / ONE
    } else {
        let n: i64 = -(x + 1);
        -(n / ONE) - 1
    }
}

/// The greatest whole number that is not above `x`.
pub fn floor(x: Scalar) -> (r: Scalar)
    ensures
        r == floor_spec(x),
{
    if x >= INFINITY || x <= NEG_INFINITY {
        x
    } else {
        let q: i64 = whole(x);
        if q < -9_223_372_036 {
            NEG_INFINITY
        } else {
            q * ONE
        }
    }
}

/// `x` to the power `n`.
pub open spec fn powi_spec(x: Scalar, n: nat) -> Scalar
    decreases n,
{
    if n == 0 {
        ONE
    } else {
        mul_spec(powi_spec(x, (n - 1) as nat), x)
    }
}

/// `x` to the power `n`, by `n` multiplications.
pub fn powi(x: Scalar, n: u32) -> (r: Scalar)
    ensures
        r == powi_spec(x, n as nat),
{
    let mut r: Scalar = ONE;
    let mut i: u32 = 0;
    while i < n
        invariant
            i <= n,
            r == powi_spec(x, i as nat),
        decreases n - i,
    {
        r = fx_mul(r, x);
        i = i + 1;
    }
    r
}

} // verus!
