//! Fixed-point real numbers.
//!
//! A [`Scalar`] counts billionths: the integer `n` stands for the real number
//! `n / ONE`. The two ends of the range stand for the infinities (the least
//! integer of all counts as negative infinity too), and every operation is
//! total: a result that leaves the range becomes an infinity, and a division
//! by zero gives the infinity of the dividend's sign. Products and quotients
//! are rounded towards zero.

use vstd::prelude::*;

verus! {

/// A real number in billionths, or one of the two infinities.
pub type Scalar = i64;

/// The number one.
pub const ONE: i64 = 1_000_000_000;

/// The number two.
pub const TWO: i64 = 2_000_000_000;

/// The number minus one.
pub const MINUS_ONE: i64 = -1_000_000_000;

/// Positive infinity: the largest scalar.
pub const INFINITY: i64 = 0x7fff_ffff_ffff_ffff;

/// Negative infinity.
pub const NEG_INFINITY: i64 = -0x7fff_ffff_ffff_ffff;

/// Whether `a` stands for positive infinity.
pub open spec fn is_pos_inf(a: Scalar) -> bool {
    a >= INFINITY
}

/// Whether `a` stands for negative infinity.
pub open spec fn is_neg_inf(a: Scalar) -> bool {
    a <= NEG_INFINITY
}

/// Whether `a` stands for a number.
pub open spec fn is_finite(a: Scalar) -> bool {
    NEG_INFINITY < a < INFINITY
}

/// The scalar nearest to the integer `x`.
pub open spec fn saturate(x: int) -> Scalar {
    if x >= INFINITY {
        INFINITY
    } else if x <= NEG_INFINITY {
        NEG_INFINITY
    } else {
        x as Scalar
    }
}

/// The infinity whose sign is that of `a * b`, for `a` and `b` other than zero.
pub open spec fn signed_infinity(a: Scalar, b: Scalar) -> Scalar {
    if (a > 0) == (b > 0) {
        INFINITY
    } else {
        NEG_INFINITY
    }
}

/// The quotient of `n` by `d` rounded towards zero, for `d` other than zero.
pub open spec fn trunc_div(n: int, d: int) -> int {
    if n >= 0 {
        if d > 0 {
            n / d
        } else {
            -(n / (-d))
        }
    } else {
        if d > 0 {
            -((-n) / d)
        } else {
            (-n) / (-d)
        }
    }
}

/// The opposite. That of the least integer is positive infinity.
pub open spec fn neg_spec(a: Scalar) -> Scalar {
    saturate(-a)
}

/// The sum. An infinity absorbs every finite number, and the two infinities
/// add up to zero.
pub open spec fn add_spec(a: Scalar, b: Scalar) -> Scalar {
    if is_pos_inf(a) {
        if is_neg_inf(b) {
            0
        } else {
            INFINITY
        }
    } else if is_neg_inf(a) {
        if is_pos_inf(b) {
            0
        } else {
            NEG_INFINITY
        }
    } else if is_pos_inf(b) {
        INFINITY
    } else if is_neg_inf(b) {
        NEG_INFINITY
    } else {
        saturate(a + b)
    }
}

/// The difference: the sum with the opposite.
pub open spec fn sub_spec(a: Scalar, b: Scalar) -> Scalar {
    add_spec(a, neg_spec(b))
}

/// The product, rounded towards zero. Zero times anything is zero, and an
/// infinity times anything else is an infinity.
pub open spec fn mul_spec(a: Scalar, b: Scalar) -> Scalar {
    if a == 0 || b == 0 {
        0
    } else if !is_finite(a) || !is_finite(b) {
        signed_infinity(a, b)
    } else {
        saturate(trunc_div(a * b, ONE as int))
    }
}

/// The quotient, rounded towards zero. A number other than zero divided by
/// zero is an infinity, a finite number divided by an infinity is zero, and so
/// are zero by zero and an infinity by an infinity.
pub open spec fn div_spec(a: Scalar, b: Scalar) -> Scalar {
    if b == 0 {
        if a > 0 {
            INFINITY
        } else if a < 0 {
            NEG_INFINITY
        } else {
            0
        }
    } else if !is_finite(b) {
        0
    } else if !is_finite(a) {
        signed_infinity(a, b)
    } else {
        saturate(trunc_div(a * ONE, b as int))
    }
}

/// The size of a number.
pub open spec fn abs_spec(a: Scalar) -> Scalar {
    if a < 0 {
        neg_spec(a)
    } else {
        saturate(a as int)
    }
}

/// The lesser of two numbers.
pub open spec fn min_spec(a: Scalar, b: Scalar) -> Scalar {
    if a <= b {
        a
    } else {
        b
    }
}

/// The greater of two numbers.
pub open spec fn max_spec(a: Scalar, b: Scalar) -> Scalar {
    if a >= b {
        a
    } else {
        b
    }
}

/// `r` is the integer square root of `n`.
pub open spec fn is_int_sqrt(n: int, r: int) -> bool {
    r >= 0 && r * r <= n && n < (r + 1) * (r + 1)
}

/// The integer square root of `n`, for `n` not negative.
pub open spec fn int_sqrt(n: int) -> int {
    choose|r: int| is_int_sqrt(n, r)
}

/// The square root, rounded down. That of a negative number is zero.
pub open spec fn sqrt_spec(a: Scalar) -> Scalar {
    if a <= 0 {
        0
    } else if is_pos_inf(a) {
        INFINITY
    } else {
        int_sqrt(a * ONE) as Scalar
    }
}

/// No two numbers are the integer square root of one number.
pub proof fn lemma_int_sqrt_unique(n: int, r1: int, r2: int)
    requires
        is_int_sqrt(n, r1),
        is_int_sqrt(n, r2),
    ensures
        r1 == r2,
{
    if r1 < r2 {
        assert((r1 + 1) * (r1 + 1) <= r2 * r2) by (nonlinear_arith)
            requires
                0 <= r1,
                r1 + 1 <= r2,
        ;
    } else if r2 < r1 {
        assert((r2 + 1) * (r2 + 1) <= r1 * r1) by (nonlinear_arith)
            requires
                0 <= r2,
                r2 + 1 <= r1,
        ;
    }
}

/// Rounding towards zero keeps the order of the dividends.
pub proof fn lemma_trunc_div_monotone(n1: int, n2: int, d: int)
    requires
        n1 <= n2,
        d > 0,
    ensures
        trunc_div(n1, d) <= trunc_div(n2, d),
{
    if n1 >= 0 {
        vstd::arithmetic::div_mod::lemma_div_is_ordered(n1, n2, d);
    } else if n2 >= 0 {
        vstd::arithmetic::div_mod::lemma_div_pos_is_pos(-n1, d);
        vstd::arithmetic::div_mod::lemma_div_pos_is_pos(n2, d);
    } else {
        vstd::arithmetic::div_mod::lemma_div_is_ordered(-n2, -n1, d);
    }
}

/// A product grows with its first factor where the second is not negative,
/// and falls where the second is not positive.
pub proof fn lemma_mul_monotone(a1: Scalar, a2: Scalar, k: Scalar)
    requires
        a1 <= a2,
    ensures
        k >= 0 ==> mul_spec(a1, k) <= mul_spec(a2, k),
        k <= 0 ==> mul_spec(a1, k) >= mul_spec(a2, k),
{
    if k != 0 && is_finite(k) {
        if k > 0 {
            assert(a1 * k <= a2 * k) by (nonlinear_arith)
                requires
                    a1 <= a2,
                    k > 0,
            ;
            lemma_trunc_div_monotone(a1 * k, a2 * k, ONE as int);
            if a1 < 0 {
                assert(a1 * k < 0) by (nonlinear_arith)
                    requires
                        a1 < 0,
                        k > 0,
                ;
            }
            if a2 > 0 {
                assert(a2 * k > 0) by (nonlinear_arith)
                    requires
                        a2 > 0,
                        k > 0,
                ;
            }
        } else {
            assert(a1 * k >= a2 * k) by (nonlinear_arith)
                requires
                    a1 <= a2,
                    k < 0,
            ;
            lemma_trunc_div_monotone(a2 * k, a1 * k, ONE as int);
            if a1 < 0 {
                assert(a1 * k > 0) by (nonlinear_arith)
                    requires
                        a1 < 0,
                        k < 0,
                ;
            }
            if a2 > 0 {
                assert(a2 * k < 0) by (nonlinear_arith)
                    requires
                        a2 > 0,
                        k < 0,
                ;
            }
        }
    }
}

/// Every number that is not negative has an integer square root, and the
/// chosen one is it.
pub proof fn lemma_int_sqrt_exists(n: int)
    requires
        n >= 0,
    ensures
        is_int_sqrt(n, int_sqrt(n)),
    decreases n,
{
    if n == 0 {
        assert(is_int_sqrt(0, 0));
    } else {
        lemma_int_sqrt_exists(n - 1);
        let r = int_sqrt(n - 1);
        if n < (r + 1) * (r + 1) {
            assert(is_int_sqrt(n, r));
        } else {
            assert(n < (r + 2) * (r + 2)) by (nonlinear_arith)
                requires
                    (r + 1) * (r + 1) <= n,
                    n - 1 < (r + 1) * (r + 1),
                    r >= 0,
            ;
            assert(is_int_sqrt(n, r + 1));
        }
    }
}

/// A square root is not negative.
pub proof fn lemma_sqrt_non_negative(a: Scalar)
    ensures
        sqrt_spec(a) >= 0,
{
    if 0 < a < INFINITY {
        let n = a * ONE;
        assert(0 <= n < 0x1_0000_0000_0000_0000_0000_0000) by (nonlinear_arith)
            requires
                n == a * ONE,
                0 < a < 0x8000_0000_0000_0000,
                ONE == 1_000_000_000,
        ;
        lemma_int_sqrt_exists(n);
        let r = int_sqrt(n);
        assert(r < 0x1_0000_0000_0000) by (nonlinear_arith)
            requires
                r >= 0,
                r * r <= n,
                n < 0x1_0000_0000_0000_0000_0000_0000,
        ;
    }
}

/// A quotient grows with its dividend where the divisor is not negative.
pub proof fn lemma_div_monotone(a1: Scalar, a2: Scalar, k: Scalar)
    requires
        a1 <= a2,
        k >= 0,
    ensures
        div_spec(a1, k) <= div_spec(a2, k),
{
    if k != 0 && is_finite(k) {
        assert(a1 * ONE <= a2 * ONE) by (nonlinear_arith)
            requires
                a1 <= a2,
        ;
        lemma_trunc_div_monotone(a1 * ONE, a2 * ONE, k as int);
    }
}

/// A square is not negative.
pub proof fn lemma_square_non_negative(a: Scalar)
    ensures
        mul_spec(a, a) >= 0,
{
    if a != 0 && is_finite(a) {
        assert(a * a >= 0) by (nonlinear_arith);
        vstd::arithmetic::div_mod::lemma_div_pos_is_pos(a * a, ONE as int);
    }
}

/// One times a number is that number.
pub proof fn lemma_mul_one(k: Scalar)
    requires
        k >= NEG_INFINITY,
    ensures
        mul_spec(ONE, k) == k,
        mul_spec(k, ONE) == k,
{
    assert(
        (ONE * k) / (ONE as int) == k
            && (-(ONE * k)) / (ONE as int) == -k
            && k * ONE == ONE * k
    ) by (nonlinear_arith);
}

/// The greatest size of two factors whose product cannot leave the range:
/// ninety-six thousand.
pub const FACTOR_LIMIT: Scalar = 96_000_000_000_000;

/// The product of two numbers within `s` of zero, for `s` within the factor
/// limit, does not leave the range: it is the exact product over one,
/// rounded towards zero, and within the square of `s` of zero.
pub proof fn lemma_mul_exact(a: Scalar, b: Scalar, s: Scalar)
    requires
        0 <= s <= FACTOR_LIMIT,
        -s <= a <= s,
        -s <= b <= s,
    ensures
        mul_spec(a, b) == trunc_div(a * b, ONE as int),
        is_finite(mul_spec(a, b)),
        -((s * s) / (ONE as int)) <= mul_spec(a, b) <= (s * s) / (ONE as int),
        (s * s) / (ONE as int) <= 9_216_000_000_000_000_000,
{
    assert(-(s * s) <= a * b <= s * s && 0 <= s * s <= 96_000_000_000_000 * 96_000_000_000_000)
        by (nonlinear_arith)
        requires
            0 <= s <= 96_000_000_000_000,
            -s <= a <= s,
            -s <= b <= s,
    ;
    lemma_trunc_div_monotone(a * b, s * s, ONE as int);
    lemma_trunc_div_monotone(-(s * s), a * b, ONE as int);
    lemma_trunc_div_monotone(s * s, 96_000_000_000_000int * 96_000_000_000_000int, ONE as int);
    assert((96_000_000_000_000int * 96_000_000_000_000int) / 1_000_000_000int
        == 9_216_000_000_000_000_000int) by (nonlinear_arith);
    assert(trunc_div(-(s * s), ONE as int) == -((s * s) / (ONE as int)));
    assert(0 * b == 0 && a * 0 == 0) by (nonlinear_arith);
}

/// Minus one times a number is its opposite.
pub proof fn lemma_mul_minus_one(k: Scalar)
    requires
        k >= NEG_INFINITY,
    ensures
        mul_spec(MINUS_ONE, k) == neg_spec(k),
        mul_spec(k, MINUS_ONE) == neg_spec(k),
{
    assert((ONE * k) / (ONE as int) == k && (-(ONE * k)) / (ONE as int) == -k && MINUS_ONE * k
        == -(ONE * k) && k * MINUS_ONE == -(ONE * k)) by (nonlinear_arith)
        requires
            ONE == 1_000_000_000,
            MINUS_ONE == -1_000_000_000,
    ;
}

/// A product of two numbers that are not negative is not negative.
pub proof fn lemma_mul_non_negative(a: Scalar, b: Scalar)
    requires
        a >= 0,
        b >= 0,
    ensures
        mul_spec(a, b) >= 0,
{
    assert(a * b >= 0) by (nonlinear_arith)
        requires
            a >= 0,
            b >= 0,
    ;
    vstd::arithmetic::div_mod::lemma_div_pos_is_pos(a * b, ONE as int);
}

/// Draws a number from `lo` up to, and not including, `hi`.
///
/// Calls `rand::random_range` on the half-open range. By its documentation
/// the value lies in the range, and the call panics only on an empty range,
/// which the precondition leaves out. Which value is drawn is left open.
#[verifier::external_body]
pub(crate) fn uniform(lo: Scalar, hi: Scalar) -> (r: Scalar)
    requires
        lo < hi,
    ensures
        lo <= r < hi,
{
    rand::random_range(lo..hi)
}

/// The opposite.
pub fn fx_neg(a: Scalar) -> (r: Scalar)
    ensures
        r == neg_spec(a),
{
    if a <= NEG_INFINITY {
        INFINITY
    } else {
        -a
    }
}

/// The sum.
pub fn fx_add(a: Scalar, b: Scalar) -> (r: Scalar)
    ensures
        r == add_spec(a, b),
{
    if a >= INFINITY {
        if b <= NEG_INFINITY {
            0
        } else {
            INFINITY
        }
    } else if a <= NEG_INFINITY {
        if b >= INFINITY {
            0
        } else {
            NEG_INFINITY
        }
    } else if b >= INFINITY {
        INFINITY
    } else if b <= NEG_INFINITY {
        NEG_INFINITY
    } else {
        let s: i128 = a as i128 + b as i128;
        if s >= INFINITY as i128 {
            INFINITY
        } else if s <= NEG_INFINITY as i128 {
            NEG_INFINITY
        } else {
            s as i64
        }
    }
}

/// The difference.
pub fn fx_sub(a: Scalar, b: Scalar) -> (r: Scalar)
    ensures
        r == sub_spec(a, b),
{
    fx_add(a, fx_neg(b))
}

/// The size.
pub fn fx_abs(a: Scalar) -> (r: Scalar)
    ensures
        r == abs_spec(a),
{
    if a < 0 {
        fx_neg(a)
    } else if a >= INFINITY {
        INFINITY
    } else {
        a
    }
}

/// The lesser of two numbers.
pub fn fx_min(a: Scalar, b: Scalar) -> (r: Scalar)
    ensures
        r == min_spec(a, b),
{
    if a <= b {
        a
    } else {
        b
    }
}

/// The greater of two numbers.
pub fn fx_max(a: Scalar, b: Scalar) -> (r: Scalar)
    ensures
        r == max_spec(a, b),
{
    if a >= b {
        a
    } else {
        b
    }
}

/// The size of a finite scalar.
fn magnitude(a: Scalar) -> (m: u128)
    requires
        is_finite(a),
    ensures
        m == (if a >= 0 { a as int } else { -(a as int) }),
        m < INFINITY,
{
    if a >= 0 {
        a as u128
    } else {
        (-a) as u128
    }
}

/// The scalar of size `q` and of the sign of `a * b`, within the range.
fn with_sign(q: u128, same_sign: bool) -> (r: Scalar)
    ensures
        r == saturate(if same_sign { q as int } else { -(q as int) }),
{
    if q >= INFINITY as u128 {
        if same_sign {
            INFINITY
        } else {
            NEG_INFINITY
        }
    } else {
        let v: i64 = q as i64;
        if same_sign {
            v
        } else {
            -v
        }
    }
}

/// The product, rounded towards zero.
pub fn fx_mul(a: Scalar, b: Scalar) -> (r: Scalar)
    ensures
        r == mul_spec(a, b),
{
    if a == 0 || b == 0 {
        return 0;
    }
    let same_sign: bool = (a > 0) == (b > 0);
    if a >= INFINITY || a <= NEG_INFINITY || b >= INFINITY || b <= NEG_INFINITY {
        return if same_sign { INFINITY } else { NEG_INFINITY };
    }
    let ma: u128 = magnitude(a);
    let mb: u128 = magnitude(b);
    assert(ma * mb < 0x4000_0000_0000_0000_0000_0000_0000_0000) by (nonlinear_arith)
        requires
            ma < 0x8000_0000_0000_0000,
            mb < 0x8000_0000_0000_0000,
    ;
    let p: u128 = ma * mb;
    let q: u128 = p / (ONE as u128);
    proof {
        let ai = a as int;
        let bi = b as int;
        assert(ai * bi == if same_sign { p as int } else { -(p as int) }) by (nonlinear_arith)
            requires
                ma == (if ai >= 0 { ai } else { -ai }),
                mb == (if bi >= 0 { bi } else { -bi }),
                p == ma * mb,
                same_sign == ((ai > 0) == (bi > 0)),
                ai != 0,
                bi != 0,
        ;
    }
    with_sign(q, same_sign)
}

/// The quotient, rounded towards zero.
pub fn fx_div(a: Scalar, b: Scalar) -> (r: Scalar)
    ensures
        r == div_spec(a, b),
{
    if b == 0 {
        return if a > 0 { INFINITY } else if a < 0 { NEG_INFINITY } else { 0 };
    }
    if b >= INFINITY || b <= NEG_INFINITY {
        return 0;
    }
    let same_sign: bool = (a > 0) == (b > 0);
    if a >= INFINITY || a <= NEG_INFINITY {
        return if same_sign { INFINITY } else { NEG_INFINITY };
    }
    let ma: u128 = magnitude(a);
    let mb: u128 = magnitude(b);
    let p: u128 = ma * (ONE as u128);
    let q: u128 = p / mb;
    proof {
        let ai = a as int;
        assert(ai * ONE == if ai >= 0 { p as int } else { -(p as int) }) by (nonlinear_arith)
            requires
                ma == (if ai >= 0 { ai } else { -ai }),
                p == ma * ONE,
        ;
    }
    if a == 0 {
        return 0;
    }
    with_sign(q, same_sign)
}

/// The integer square root of `n`, found by bisection.
pub fn isqrt(n: u128) -> (r: u128)
    ensures
        is_int_sqrt(n as int, r as int),
        r == int_sqrt(n as int),
        r < 0x1_0000_0000_0000_0000,
{
    let mut lo: u128 = 0;
    let mut hi: u128 = 0x1_0000_0000_0000_0000;
    assert(n < hi * hi) by (nonlinear_arith)
        requires
            n < 0x1_0000_0000_0000_0000_0000_0000_0000_0000,
            hi == 0x1_0000_0000_0000_0000,
    ;
    while hi - lo > 1
        invariant
            lo < hi <= 0x1_0000_0000_0000_0000,
            lo * lo <= n,
            n < hi * hi,
        decreases hi - lo,
    {
        let mid: u128 = lo + (hi - lo) / 2;
        assert(mid * mid <= 0xffff_ffff_ffff_ffff * 0xffff_ffff_ffff_ffff) by (nonlinear_arith)
            requires
                mid <= 0xffff_ffff_ffff_ffff,
        ;
        if mid * mid <= n {
            lo = mid;
        } else {
            hi = mid;
        }
    }
    proof {
        assert(is_int_sqrt(n as int, lo as int));
        lemma_int_sqrt_unique(n as int, lo as int, int_sqrt(n as int));
    }
    lo
}

/// The quotient of two wide integers as a scalar, rounded towards zero.
/// A number other than zero over zero is an infinity, and zero over zero is
/// zero.
pub open spec fn wide_ratio_spec(n: int, d: int) -> Scalar {
    if d == 0 {
        if n > 0 {
            INFINITY
        } else if n < 0 {
            NEG_INFINITY
        } else {
            0
        }
    } else {
        saturate(trunc_div(n, d))
    }
}

/// The size of a wide integer.
fn wide_size(n: i128) -> (m: u128)
    ensures
        m == (if n >= 0 { n as int } else { -(n as int) }),
{
    if n >= 0 {
        n as u128
    } else if n == i128::MIN {
        0x8000_0000_0000_0000_0000_0000_0000_0000
    } else {
        (-n) as u128
    }
}

/// The quotient of two wide integers as a scalar, rounded towards zero.
pub fn wide_ratio(n: i128, d: i128) -> (r: Scalar)
    ensures
        r == wide_ratio_spec(n as int, d as int),
{
    if d == 0 {
        return if n > 0 {
            INFINITY
        } else if n < 0 {
            NEG_INFINITY
        } else {
            0
        };
    }
    let q: u128 = wide_size(n) / wide_size(d);
    if (n < 0) == (d < 0) {
        if q >= INFINITY as u128 {
            INFINITY
        } else {
            q as i64
        }
    } else {
        if q >= INFINITY as u128 {
            NEG_INFINITY
        } else {
            -(q as i64)
        }
    }
}

/// The square root, rounded down.
pub fn fx_sqrt(a: Scalar) -> (r: Scalar)
    ensures
        r == sqrt_spec(a),
{
    if a <= 0 {
        0
    } else if a >= INFINITY {
        INFINITY
    } else {
        assert((a as u128) * (ONE as u128) < 0x1_0000_0000_0000_0000_0000_0000) by (nonlinear_arith)
            requires
                0 < a < 0x8000_0000_0000_0000,
                ONE == 1_000_000_000,
        ;
        let n: u128 = (a as u128) * (ONE as u128);
        let root: u128 = isqrt(n);
        proof {
            assert(root < 0x1_0000_0000_0000) by (nonlinear_arith)
                requires
                    root * root <= n,
                    n < 0x1_0000_0000_0000_0000_0000_0000,
            ;
        }
        root as i64
    }
}

/// The product with a number within one of zero is no further from zero
/// than the other factor.
pub proof fn lemma_mul_within_one(a: Scalar, k: Scalar)
    requires
        MINUS_ONE <= a <= ONE,
        k >= NEG_INFINITY,
    ensures
        k >= 0 ==> -k <= mul_spec(a, k) <= k,
        k <= 0 ==> k <= mul_spec(a, k) <= -k,
        mul_spec(k, a) == mul_spec(a, k),
{
    lemma_mul_monotone(MINUS_ONE, a, k);
    lemma_mul_monotone(a, ONE, k);
    lemma_mul_one(k);
    lemma_mul_minus_one(k);
    assert(a * k == k * a) by (nonlinear_arith);
}

/// Half of one factor gives a product between nothing and the whole
/// product, whichever factor comes first.
pub proof fn lemma_half_share(a: Scalar, b: Scalar)
    requires
        is_finite(a),
        is_finite(b),
    ensures
        mul_spec(a, b) >= 0 ==> 0 <= mul_spec(div_spec(a, TWO), b) <= mul_spec(a, b),
        mul_spec(a, b) <= 0 ==> mul_spec(a, b) <= mul_spec(div_spec(a, TWO), b) <= 0,
        mul_spec(b, div_spec(a, TWO)) == mul_spec(div_spec(a, TWO), b),
        mul_spec(b, a) == mul_spec(a, b),
        is_finite(div_spec(a, TWO)),
{
    let h = div_spec(a, TWO);
    let m: int = if a >= 0 { a as int } else { -(a as int) };
    assert(m * ONE >= 0 && m * ONE == (if a >= 0 { a * ONE } else { -(a * ONE) })) by (nonlinear_arith)
        requires
            m == (if a >= 0 { a as int } else { -(a as int) }),
    ;
    vstd::arithmetic::div_mod::lemma_div_pos_is_pos(m * ONE, TWO as int);
    vstd::arithmetic::div_mod::lemma_div_is_ordered_by_denominator(m * ONE, ONE as int, TWO as int);
    vstd::arithmetic::div_mod::lemma_div_multiples_vanish(m, ONE as int);
    assert((m * ONE) / (ONE as int) == m) by (nonlinear_arith)
        requires
            (ONE * m) / (ONE as int) == m,
    ;
    assert(a >= 0 ==> 0 <= h <= a);
    assert(a <= 0 ==> a <= h <= 0);
    if a >= 0 {
        lemma_mul_monotone(0, h, b);
        lemma_mul_monotone(h, a, b);
    } else {
        lemma_mul_monotone(a, h, b);
        lemma_mul_monotone(h, 0, b);
    }
    assert(a * b == b * a && h * b == b * h) by (nonlinear_arith);
    if a >= 0 && b >= 0 || a <= 0 && b <= 0 {
        assert(a * b >= 0) by (nonlinear_arith)
            requires
                a >= 0 && b >= 0 || a <= 0 && b <= 0,
        ;
        vstd::arithmetic::div_mod::lemma_div_pos_is_pos(a * b, ONE as int);
    } else {
        assert(-(a * b) >= 0) by (nonlinear_arith)
            requires
                a >= 0 && b <= 0 || a <= 0 && b >= 0,
        ;
        vstd::arithmetic::div_mod::lemma_div_pos_is_pos(-(a * b), ONE as int);
    }
}

/// The share of a part in a whole that it does not exceed lies between
/// nothing and one.
pub proof fn lemma_share_in_unit(x: Scalar, n: Scalar)
    requires
        0 <= x <= n,
        n >= 1,
        is_finite(n),
    ensures
        0 <= div_spec(x, n) <= ONE,
{
    assert(0 <= x * ONE <= n * ONE) by (nonlinear_arith)
        requires
            0 <= x <= n,
    ;
    vstd::arithmetic::div_mod::lemma_div_pos_is_pos(x * ONE, n as int);
    vstd::arithmetic::div_mod::lemma_div_is_ordered(x * ONE, n * ONE, n as int);
    vstd::arithmetic::div_mod::lemma_div_multiples_vanish(ONE as int, n as int);
    assert((n * ONE) / (n as int) == ONE) by (nonlinear_arith)
        requires
            (n * ONE) / (n as int) == ONE || (ONE * n) / (n as int) == ONE,
    ;
}

/// What the rounding of a quotient by one leaves out is less than one.
pub proof fn lemma_trunc_remainder(y: int)
    ensures
        -ONE < y - ONE * trunc_div(y, ONE as int) < ONE,
        y >= 0 ==> y - ONE * trunc_div(y, ONE as int) >= 0,
        y <= 0 ==> y - ONE * trunc_div(y, ONE as int) <= 0,
{
    if y >= 0 {
        vstd::arithmetic::div_mod::lemma_fundamental_div_mod(y, ONE as int);
        vstd::arithmetic::div_mod::lemma_mod_bound(y, ONE as int);
    } else {
        vstd::arithmetic::div_mod::lemma_fundamental_div_mod(-y, ONE as int);
        vstd::arithmetic::div_mod::lemma_mod_bound(-y, ONE as int);
    }
}

/// The product with a number within one of zero is the exact product over
/// one, rounded towards zero.
pub proof fn lemma_mul_within_one_exact(a: Scalar, k: Scalar)
    requires
        MINUS_ONE <= a <= ONE,
        is_finite(k),
    ensures
        mul_spec(a, k) == trunc_div(a * k, ONE as int),
        is_finite(mul_spec(a, k)),
{
    lemma_mul_within_one(a, k);
    if a == 0 || k == 0 {
        assert(a * k == 0) by (nonlinear_arith)
            requires
                a == 0 || k == 0,
        ;
    }
}

/// Turning two coordinates there and back, in exact numbers: where each
/// of the three sums of products over one was rounded by less than two,
/// the first coordinate comes back changed by its share of how far the
/// squares of the sine and the cosine are from adding up to one, and by
/// six more at most.
pub proof fn lemma_round_trip_core(
    x: int,
    z: int,
    s: int,
    c: int,
    x1: int,
    z1: int,
    x2: int,
    r1: int,
    r2: int,
    r3: int,
)
    requires
        ONE * x1 == c * x - s * z - r1,
        ONE * z1 == s * x + c * z - r2,
        ONE * x2 == c * x1 + s * z1 - r3,
        -2 * ONE < r1 < 2 * ONE,
        -2 * ONE < r2 < 2 * ONE,
        -2 * ONE < r3 < 2 * ONE,
        -ONE <= s <= ONE,
        -ONE <= c <= ONE,
    ensures
        -6 * (ONE * ONE) <= ONE * ONE * (x2 - x) - (c * c + s * s - ONE * ONE) * x <= 6 * (ONE
            * ONE),
{
    assert(ONE * ONE * x2 == c * (ONE * x1) + s * (ONE * z1) - ONE * r3) by (nonlinear_arith)
        requires
            ONE * x2 == c * x1 + s * z1 - r3,
    ;
    assert(c * (ONE * x1) == c * c * x - c * s * z - c * r1) by (nonlinear_arith)
        requires
            ONE * x1 == c * x - s * z - r1,
    ;
    assert(s * (ONE * z1) == s * s * x + c * s * z - s * r2) by (nonlinear_arith)
        requires
            ONE * z1 == s * x + c * z - r2,
    ;
    assert(ONE * ONE * (x2 - x) - (c * c + s * s - ONE * ONE) * x == -(c * r1) - s * r2 - ONE
        * r3) by (nonlinear_arith)
        requires
            ONE * ONE * x2 == c * c * x - c * s * z - c * r1 + (s * s * x + c * s * z - s * r2)
                - ONE * r3,
    ;
    assert(-2 * (ONE * ONE) <= c * r1 <= 2 * (ONE * ONE) && -2 * (ONE * ONE) <= s * r2 <= 2 * (ONE
        * ONE) && -2 * (ONE * ONE) <= ONE * r3 <= 2 * (ONE * ONE)) by (nonlinear_arith)
        requires
            -2 * ONE < r1 < 2 * ONE,
            -2 * ONE < r2 < 2 * ONE,
            -2 * ONE < r3 < 2 * ONE,
            -ONE <= s <= ONE,
            -ONE <= c <= ONE,
    ;
}

/// The product with the opposite of a number within one of zero is the
/// opposite of the product.
pub proof fn lemma_mul_opposite(a: Scalar, k: Scalar)
    requires
        MINUS_ONE <= a <= ONE,
        is_finite(k),
    ensures
        mul_spec(neg_spec(a), k) == -mul_spec(a, k),
{
    lemma_mul_within_one_exact(a, k);
    lemma_mul_within_one_exact(neg_spec(a), k);
    assert(neg_spec(a) * k == -(a * k)) by (nonlinear_arith)
        requires
            neg_spec(a) == -a,
    ;
}

/// Half a number, rounded towards zero, doubled, is within one of the
/// number.
pub proof fn lemma_half_close(x: Scalar)
    requires
        is_finite(x),
    ensures
        -1 <= x - 2 * div_spec(x, TWO) <= 1,
        is_finite(div_spec(x, TWO)),
        x >= 0 ==> 0 <= div_spec(x, TWO) <= x,
        x <= 0 ==> x <= div_spec(x, TWO) <= 0,
{
    let m: int = if x >= 0 { x as int } else { -(x as int) };
    assert(m * ONE >= 0 && m * ONE == (if x >= 0 { x * ONE } else { -(x * ONE) })) by (nonlinear_arith)
        requires
            m == (if x >= 0 { x as int } else { -(x as int) }),
    ;
    vstd::arithmetic::div_mod::lemma_fundamental_div_mod(m * ONE, TWO as int);
    vstd::arithmetic::div_mod::lemma_mod_bound(m * ONE, TWO as int);
    let h = (m * ONE) / (TWO as int);
    let r = (m * ONE) % (TWO as int);
    assert(0 <= m - 2 * h <= 1) by (nonlinear_arith)
        requires
            m * ONE == TWO * h + r,
            0 <= r < TWO,
            TWO == 2 * ONE,
            ONE == 1_000_000_000,
    ;
}

/// What the rounding of a quotient leaves out is less than the divisor,
/// and has the sign of the number that was divided.
pub proof fn lemma_trunc_remainder_by(y: int, d: int)
    requires
        d > 0,
    ensures
        -d < y - d * trunc_div(y, d) < d,
        y >= 0 ==> y - d * trunc_div(y, d) >= 0,
        y <= 0 ==> y - d * trunc_div(y, d) <= 0,
{
    if y >= 0 {
        vstd::arithmetic::div_mod::lemma_fundamental_div_mod(y, d);
        vstd::arithmetic::div_mod::lemma_mod_bound(y, d);
    } else {
        vstd::arithmetic::div_mod::lemma_fundamental_div_mod(-y, d);
        vstd::arithmetic::div_mod::lemma_mod_bound(-y, d);
        assert(d * (-((-y) / d)) == -(d * ((-y) / d))) by (nonlinear_arith);
    }
}

/// One component's part in the inner product of a vector with the vector
/// over its length: the component times its share of the length, for the
/// length `l` and a component `e` within it. Times the length, it is the
/// square of the component times one, less what the rounding left out,
/// which is no more than the length times the size of the component.
pub proof fn lemma_unit_part(e: int, l: int)
    requires
        l >= 1,
        -l <= e <= l,
    ensures
        ONE * (e * e) - l * l <= l * (trunc_div(e * ONE, l) * e) <= ONE * (e * e),
{
    let q = trunc_div(e * ONE, l);
    lemma_trunc_remainder_by(e * ONE, l);
    let mu = e * ONE - l * q;
    assert(e >= 0 ==> e * ONE >= 0) by (nonlinear_arith);
    assert(e <= 0 ==> e * ONE <= 0) by (nonlinear_arith);
    assert(l * (q * e) == ONE * (e * e) - mu * e) by (nonlinear_arith)
        requires
            mu == e * ONE - l * q,
    ;
    assert(0 <= mu * e <= l * l) by (nonlinear_arith)
        requires
            (e >= 0 && 0 <= mu < l) || (e <= 0 && -l < mu <= 0),
            -l <= e <= l,
            l >= 1,
    ;
}

/// A component of the vector product of a place `p` with the edge `v`,
/// where `p` lies off the middle of the edges `u` and `v` by `delta`
/// times a vector `k` over one: doubled, it is the component of the
/// vector product of the edges, and twice `delta` times that of `k` with
/// `v` over the square of one, within a few billionths of the size of `v`.
/// This is so for products rounded one by one.
pub proof fn lemma_cross_off_middle(
    pj: int,
    pk: int,
    uj: int,
    uk: int,
    vj: int,
    vk: int,
    kj: int,
    kk: int,
    delta: int,
    x: int,
    n: int,
    size: int,
)
    requires
        -6 * ONE <= ONE * (uj + vj) + 2 * (delta * kj) - 2 * (ONE * pj) <= 6 * ONE,
        -6 * ONE <= ONE * (uk + vk) + 2 * (delta * kk) - 2 * (ONE * pk) <= 6 * ONE,
        -size <= vj <= size,
        -size <= vk <= size,
        x == trunc_div(pj * vk, ONE as int) - trunc_div(pk * vj, ONE as int),
        n == trunc_div(uj * vk, ONE as int) - trunc_div(uk * vj, ONE as int),
    ensures
        -(ONE * (12 * size + 6 * ONE)) <= ONE * ONE * (2 * x - n) - 2 * (delta * (kj * vk - kk
            * vj)) <= ONE * (12 * size + 6 * ONE),
{
    lemma_trunc_remainder(pj * vk);
    lemma_trunc_remainder(pk * vj);
    lemma_trunc_remainder(uj * vk);
    lemma_trunc_remainder(uk * vj);
    let ej = ONE * (uj + vj) + 2 * (delta * kj) - 2 * (ONE * pj);
    let ek = ONE * (uk + vk) + 2 * (delta * kk) - 2 * (ONE * pk);
    let t1 = pj * vk - ONE * trunc_div(pj * vk, ONE as int);
    let t2 = pk * vj - ONE * trunc_div(pk * vj, ONE as int);
    let t3 = uj * vk - ONE * trunc_div(uj * vk, ONE as int);
    let t4 = uk * vj - ONE * trunc_div(uk * vj, ONE as int);
    assert(ONE * x == pj * vk - pk * vj - t1 + t2);
    assert(ONE * n == uj * vk - uk * vj - t3 + t4);
    assert(2 * (ONE * (pj * vk)) == ONE * (uj * vk) + ONE * (vj * vk) + 2 * (delta * (kj * vk))
        - ej * vk) by (nonlinear_arith)
        requires
            2 * (ONE * pj) == ONE * (uj + vj) + 2 * (delta * kj) - ej,
    ;
    assert(2 * (ONE * (pk * vj)) == ONE * (uk * vj) + ONE * (vj * vk) + 2 * (delta * (kk * vj))
        - ek * vj) by (nonlinear_arith)
        requires
            2 * (ONE * pk) == ONE * (uk + vk) + 2 * (delta * kk) - ek,
    ;
    assert(ONE * ONE * (2 * x - n) == 2 * (ONE * (pj * vk)) - 2 * (ONE * (pk * vj)) - ONE * (uj
        * vk) + ONE * (uk * vj) - 2 * (ONE * t1) + 2 * (ONE * t2) + ONE * t3 - ONE * t4)
        by (nonlinear_arith)
        requires
            ONE * x == pj * vk - pk * vj - t1 + t2,
            ONE * n == uj * vk - uk * vj - t3 + t4,
    ;
    assert(delta * (kj * vk - kk * vj) == delta * (kj * vk) - delta * (kk * vj)) by (nonlinear_arith);
    assert(-(6 * ONE * size) <= ej * vk <= 6 * ONE * size && -(6 * ONE * size) <= ek * vj <= 6 * ONE
        * size) by (nonlinear_arith)
        requires
            -6 * ONE <= ej <= 6 * ONE,
            -6 * ONE <= ek <= 6 * ONE,
            -size <= vj <= size,
            -size <= vk <= size,
    ;
    assert(-(ONE * ONE) < ONE * t1 < ONE * ONE && -(ONE * ONE) < ONE * t2 < ONE * ONE && -(ONE * ONE)
        < ONE * t3 < ONE * ONE && -(ONE * ONE) < ONE * t4 < ONE * ONE) by (nonlinear_arith)
        requires
            -ONE < t1 < ONE,
            -ONE < t2 < ONE,
            -ONE < t3 < ONE,
            -ONE < t4 < ONE,
    ;
    assert(ONE * (12 * size + 6 * ONE) == 12 * (ONE * size) + 6 * (ONE * ONE) && 6 * ONE * size == 6
        * (ONE * size)) by (nonlinear_arith);
}

} // verus!
