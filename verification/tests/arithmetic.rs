use rope_sim::fixed::{fx_div, fx_mul, isqrt, quotient, sat_add, sat_neg, sat_sub, saturate, SCALE};
use rope_sim::vec2::Vec2;

#[test]
fn scale_is_one_million() {
    assert_eq!(SCALE, 1_000_000);
}

#[test]
fn saturate_keeps_values_in_range() {
    assert_eq!(saturate(0), 0);
    assert_eq!(saturate(-42), -42);
    assert_eq!(saturate(i64::MAX as i128), i64::MAX);
    assert_eq!(saturate(i64::MIN as i128), i64::MIN);
}

#[test]
fn saturate_clamps_values_out_of_range() {
    assert_eq!(saturate(i64::MAX as i128 + 1), i64::MAX);
    assert_eq!(saturate(i64::MIN as i128 - 1), i64::MIN);
    assert_eq!(saturate(i128::MAX), i64::MAX);
    assert_eq!(saturate(i128::MIN), i64::MIN);
}

#[test]
fn sums_and_differences_saturate() {
    assert_eq!(sat_add(2, 3), 5);
    assert_eq!(sat_add(i64::MAX, 1), i64::MAX);
    assert_eq!(sat_add(i64::MIN, -1), i64::MIN);
    assert_eq!(sat_sub(2, 3), -1);
    assert_eq!(sat_sub(i64::MIN, 1), i64::MIN);
    assert_eq!(sat_sub(i64::MAX, -1), i64::MAX);
}

#[test]
fn negation_of_least_value_is_greatest() {
    assert_eq!(sat_neg(5), -5);
    assert_eq!(sat_neg(-5), 5);
    assert_eq!(sat_neg(0), 0);
    assert_eq!(sat_neg(i64::MIN), i64::MAX);
    assert_eq!(sat_neg(i64::MAX), i64::MIN + 1);
}

#[test]
fn quotient_rounds_toward_zero() {
    assert_eq!(quotient(7, 2), 3);
    assert_eq!(quotient(-7, 2), -3);
    assert_eq!(quotient(7, -2), -3);
    assert_eq!(quotient(-7, -2), 3);
    assert_eq!(quotient(0, 5), 0);
    assert_eq!(quotient(1, 5), 0);
    assert_eq!(quotient(-1, 5), 0);
}

#[test]
fn quotient_of_the_least_value() {
    assert_eq!(quotient(i128::MIN, 1), i128::MIN);
    assert_eq!(quotient(i128::MIN, 2), -(1i128 << 126));
    assert_eq!(quotient(i128::MIN, i128::MIN), 1);
    assert_eq!(quotient(5, i128::MIN), 0);
    assert_eq!(quotient(i128::MAX, -1), i128::MIN + 1);
}

#[test]
fn product_of_fixed_point_values() {
    assert_eq!(fx_mul(1_500_000, 2_000_000), 3_000_000);
    assert_eq!(fx_mul(-1_500_001, SCALE), -1_500_001);
    assert_eq!(fx_mul(123, 0), 0);
}

#[test]
fn product_rounds_toward_zero() {
    assert_eq!(fx_mul(3, 500_000), 1);
    assert_eq!(fx_mul(-3, 500_000), -1);
    assert_eq!(fx_mul(-1, 1), 0);
}

#[test]
fn product_saturates() {
    assert_eq!(fx_mul(i64::MAX, 2 * SCALE), i64::MAX);
    assert_eq!(fx_mul(i64::MIN, 2 * SCALE), i64::MIN);
    assert_eq!(fx_mul(i64::MIN, -2 * SCALE), i64::MAX);
    assert_eq!(fx_mul(i64::MIN, i64::MIN), i64::MAX);
}

#[test]
fn quotient_of_fixed_point_values() {
    assert_eq!(fx_div(SCALE, 3 * SCALE), 333_333);
    assert_eq!(fx_div(-SCALE, 3 * SCALE), -333_333);
    assert_eq!(fx_div(7 * SCALE, 2 * SCALE), 3_500_000);
    assert_eq!(fx_div(-7 * SCALE, 2 * SCALE), -3_500_000);
    assert_eq!(fx_div(1, -2), -500_000);
    assert_eq!(fx_div(0, 9), 0);
}

#[test]
fn quotient_saturates() {
    assert_eq!(fx_div(i64::MAX, 1), i64::MAX);
    assert_eq!(fx_div(i64::MIN, 1), i64::MIN);
    assert_eq!(fx_div(i64::MIN, -1), i64::MAX);
}

#[test]
fn square_root_rounds_down() {
    assert_eq!(isqrt(0), 0);
    assert_eq!(isqrt(1), 1);
    assert_eq!(isqrt(2), 1);
    assert_eq!(isqrt(3), 1);
    assert_eq!(isqrt(4), 2);
    assert_eq!(isqrt(15), 3);
    assert_eq!(isqrt(16), 4);
    assert_eq!(isqrt(1_000_000_000_000), 1_000_000);
    assert_eq!(isqrt(999_999_999_999), 999_999);
}

#[test]
fn square_root_of_largest_values() {
    assert_eq!(isqrt(u128::MAX), u64::MAX);
    let m = u64::MAX as u128;
    assert_eq!(isqrt(m * m), u64::MAX);
    assert_eq!(isqrt(m * m - 1), u64::MAX - 1);
}

#[test]
fn vector_constructors() {
    assert_eq!(Vec2::new(3, -4), Vec2 { x: 3, y: -4 });
    assert_eq!(Vec2::zero(), Vec2 { x: 0, y: 0 });
}

#[test]
fn vector_sum_difference_negation() {
    let a = Vec2::new(10, -20);
    let b = Vec2::new(3, 4);
    assert_eq!(a.plus(b), Vec2::new(13, -16));
    assert_eq!(a.minus(b), Vec2::new(7, -24));
    assert_eq!(a.negated(), Vec2::new(-10, 20));
}

#[test]
fn vector_operations_saturate_by_component() {
    let a = Vec2::new(i64::MAX, i64::MIN);
    assert_eq!(a.plus(Vec2::new(1, -1)), Vec2::new(i64::MAX, i64::MIN));
    assert_eq!(a.minus(Vec2::new(-1, 1)), Vec2::new(i64::MAX, i64::MIN));
    assert_eq!(a.negated(), Vec2::new(i64::MIN + 1, i64::MAX));
}

#[test]
fn vector_scaling_and_division() {
    let a = Vec2::new(3_000_000, -4_000_000);
    assert_eq!(a.scaled(500_000), Vec2::new(1_500_000, -2_000_000));
    assert_eq!(a.scaled(-2_000_000), Vec2::new(-6_000_000, 8_000_000));
    assert_eq!(a.divided(2_000_000), Vec2::new(1_500_000, -2_000_000));
    assert_eq!(a.divided(3_000_000), Vec2::new(1_000_000, -1_333_333));
}

#[test]
fn vector_length() {
    assert_eq!(Vec2::new(3_000_000, 4_000_000).length(), 5_000_000);
    assert_eq!(Vec2::new(-3_000_000, -4_000_000).length(), 5_000_000);
    assert_eq!(Vec2::new(1, 1).length(), 1);
    assert_eq!(Vec2::new(-5, 0).length(), 5);
    assert_eq!(Vec2::zero().length(), 0);
}

#[test]
fn vector_length_saturates() {
    assert_eq!(Vec2::new(i64::MIN, i64::MIN).length(), i64::MAX);
    assert_eq!(Vec2::new(i64::MAX, 0).length(), i64::MAX);
    assert_eq!(Vec2::new(i64::MIN, 0).length(), i64::MAX);
}

#[test]
fn vector_normalization() {
    assert_eq!(Vec2::new(3_000_000, 4_000_000).normalize_or_zero(), Vec2::new(600_000, 800_000));
    assert_eq!(Vec2::new(0, -7).normalize_or_zero(), Vec2::new(0, -1_000_000));
    assert_eq!(Vec2::new(1, 1).normalize_or_zero(), Vec2::new(1_000_000, 1_000_000));
}

#[test]
fn zero_vector_normalizes_to_zero() {
    assert_eq!(Vec2::zero().normalize_or_zero(), Vec2::zero());
}
