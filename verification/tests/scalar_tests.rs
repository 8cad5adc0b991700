use raytracer::scalar::{
    fx_abs, fx_add, fx_div, fx_max, fx_min, fx_mul, fx_neg, fx_sqrt, fx_sub, isqrt, wide_ratio,
    INFINITY,
    NEG_INFINITY, ONE,
};

#[test]
fn mul_rounds_towards_zero() {
    assert_eq!(fx_mul(3, 500_000_000), 1);
    assert_eq!(fx_mul(-3, 500_000_000), -1);
    assert_eq!(fx_mul(2 * ONE, 3 * ONE), 6 * ONE);
    assert_eq!(fx_mul(-2 * ONE, 3 * ONE), -6 * ONE);
    assert_eq!(fx_mul(1, 1), 0);
}

#[test]
fn div_rounds_towards_zero() {
    assert_eq!(fx_div(ONE, 3 * ONE), 333_333_333);
    assert_eq!(fx_div(-ONE, 3 * ONE), -333_333_333);
    assert_eq!(fx_div(7 * ONE, 2 * ONE), 3_500_000_000);
    assert_eq!(fx_div(ONE, -4 * ONE), -250_000_000);
}

#[test]
fn division_by_zero_is_an_infinity() {
    assert_eq!(fx_div(ONE, 0), INFINITY);
    assert_eq!(fx_div(-ONE, 0), NEG_INFINITY);
    assert_eq!(fx_div(0, 0), 0);
    assert_eq!(fx_div(ONE, INFINITY), 0);
    assert_eq!(fx_div(INFINITY, -2 * ONE), NEG_INFINITY);
    assert_eq!(fx_div(INFINITY, INFINITY), 0);
}

#[test]
fn sums_saturate() {
    assert_eq!(fx_add(INFINITY - 1, 5), INFINITY);
    assert_eq!(fx_add(NEG_INFINITY + 1, -5), NEG_INFINITY);
    assert_eq!(fx_add(INFINITY, NEG_INFINITY), 0);
    assert_eq!(fx_add(INFINITY, -5), INFINITY);
    assert_eq!(fx_add(-5, INFINITY), INFINITY);
    assert_eq!(fx_add(5, NEG_INFINITY), NEG_INFINITY);
    assert_eq!(fx_sub(ONE, 3 * ONE), -2 * ONE);
    assert_eq!(fx_sub(NEG_INFINITY, INFINITY), NEG_INFINITY);
}

#[test]
fn an_infinity_times_a_number_is_an_infinity() {
    assert_eq!(fx_mul(INFINITY, 1), INFINITY);
    assert_eq!(fx_mul(INFINITY, -1), NEG_INFINITY);
    assert_eq!(fx_mul(NEG_INFINITY, -ONE), INFINITY);
    assert_eq!(fx_mul(INFINITY, 0), 0);
    assert_eq!(fx_mul(4_000_000_000 * ONE, 4_000_000_000 * ONE), INFINITY);
}

#[test]
fn the_least_integer_counts_as_negative_infinity() {
    assert_eq!(fx_neg(i64::MIN), INFINITY);
    assert_eq!(fx_abs(i64::MIN), INFINITY);
    assert_eq!(fx_add(i64::MIN, ONE), NEG_INFINITY);
    assert_eq!(fx_mul(i64::MIN, ONE), NEG_INFINITY);
}

#[test]
fn sqrt_of_four_is_two() {
    assert_eq!(fx_sqrt(4 * ONE), 2 * ONE);
    assert_eq!(fx_sqrt(2 * ONE), 1_414_213_562);
    assert_eq!(fx_sqrt(250_000_000), 500_000_000);
    assert_eq!(fx_sqrt(-ONE), 0);
    assert_eq!(fx_sqrt(0), 0);
    assert_eq!(fx_sqrt(INFINITY), INFINITY);
}

#[test]
fn integer_square_root_is_the_floor() {
    assert_eq!(isqrt(0), 0);
    assert_eq!(isqrt(1), 1);
    assert_eq!(isqrt(15), 3);
    assert_eq!(isqrt(16), 4);
    assert_eq!(isqrt(17), 4);
    assert_eq!(isqrt(1_000_000_000_000_000_000), 1_000_000_000);
    let n: u128 = 0xffff_ffff_ffff_ffff_ffff_ffff;
    let r = isqrt(n);
    assert!(r * r <= n && n < (r + 1) * (r + 1));
}

#[test]
fn abs_min_and_max() {
    assert_eq!(fx_abs(-5), 5);
    assert_eq!(fx_abs(5), 5);
    assert_eq!(fx_min(3, -4), -4);
    assert_eq!(fx_max(3, -4), 3);
    assert_eq!(fx_neg(7), -7);
}

#[test]
fn integer_square_roots_of_the_widest_numbers() {
    assert_eq!(isqrt(u128::MAX), u64::MAX as u128);
    assert_eq!(isqrt((u64::MAX as u128) * (u64::MAX as u128)), u64::MAX as u128);
    assert_eq!(isqrt((u64::MAX as u128) * (u64::MAX as u128) - 1), u64::MAX as u128 - 1);
    assert_eq!(isqrt(1 << 126), 1 << 63);
    assert_eq!(wide_ratio(7, 2), 3);
    assert_eq!(wide_ratio(-7, 2), -3);
    assert_eq!(wide_ratio(i128::MAX, 1), INFINITY);
    assert_eq!(wide_ratio(i128::MIN, 1), NEG_INFINITY);
    assert_eq!(wide_ratio(0, 5), 0);
    assert_eq!(wide_ratio(7, -2), -3);
    assert_eq!(wide_ratio(-7, -2), 3);
    assert_eq!(wide_ratio(7, 0), INFINITY);
    assert_eq!(wide_ratio(-7, 0), NEG_INFINITY);
    assert_eq!(wide_ratio(0, 0), 0);
    assert_eq!(wide_ratio(i128::MIN, -1), INFINITY);
    assert_eq!(wide_ratio(i128::MIN, i128::MIN), 1);
    assert_eq!(wide_ratio(i128::MAX, i128::MIN), 0);
    assert_eq!(wide_ratio(0, -9), 0);
}
