use moving_sofa::scalar::{
    difference, half, magnitude, negate, product, quotient, sqrt, sum, FRAC_PI_2, ONE, PI,
};

#[test]
fn constants_count_billionths() {
    assert_eq!(ONE, 1_000_000_000);
    assert_eq!(PI, 3_141_592_654);
    assert_eq!(FRAC_PI_2, 1_570_796_327);
}

#[test]
fn sum_and_difference_are_exact_in_range() {
    assert_eq!(sum(1_500_000_000, -250_000_000), 1_250_000_000);
    assert_eq!(difference(1_500_000_000, -250_000_000), 1_750_000_000);
    assert_eq!(difference(-3, 4), -7);
}

#[test]
fn sum_and_difference_saturate() {
    assert_eq!(sum(i64::MAX, 1), i64::MAX);
    assert_eq!(sum(i64::MIN, -1), i64::MIN);
    assert_eq!(difference(i64::MIN, 1), i64::MIN);
    assert_eq!(difference(i64::MAX, -1), i64::MAX);
    assert_eq!(sum(i64::MAX, i64::MIN), -1);
}

#[test]
fn negate_and_magnitude_saturate_at_the_lowest_value() {
    assert_eq!(negate(5), -5);
    assert_eq!(negate(-5), 5);
    assert_eq!(negate(i64::MIN), i64::MAX);
    assert_eq!(magnitude(-7), 7);
    assert_eq!(magnitude(7), 7);
    assert_eq!(magnitude(i64::MIN), i64::MAX);
}

#[test]
fn product_scales_by_one() {
    assert_eq!(product(1_500_000_000, 2_000_000_000), 3_000_000_000);
    assert_eq!(product(ONE, 123_456_789), 123_456_789);
    assert_eq!(product(-500_000_000, 500_000_000), -250_000_000);
    assert_eq!(product(0, i64::MAX), 0);
}

#[test]
fn product_rounds_toward_zero() {
    assert_eq!(product(1_999_999_999, 1), 1);
    assert_eq!(product(-1_999_999_999, 1), -1);
    assert_eq!(product(999_999_999, 1), 0);
    assert_eq!(product(-999_999_999, 1), 0);
    assert_eq!(product(-1, 3), 0);
}

#[test]
fn product_saturates() {
    assert_eq!(product(i64::MAX, i64::MAX), i64::MAX);
    assert_eq!(product(i64::MIN, i64::MIN), i64::MAX);
    assert_eq!(product(i64::MAX, i64::MIN), i64::MIN);
    assert_eq!(product(i64::MAX, -2_000_000_000), i64::MIN);
    assert_eq!(product(i64::MAX, ONE), i64::MAX);
    assert_eq!(product(i64::MIN, ONE), i64::MIN);
}

#[test]
fn quotient_scales_by_one() {
    assert_eq!(quotient(3_000_000_000, 2_000_000_000), 1_500_000_000);
    assert_eq!(quotient(ONE, 3_000_000_000), 333_333_333);
    assert_eq!(quotient(-ONE, 3_000_000_000), -333_333_333);
    assert_eq!(quotient(ONE, -3_000_000_000), -333_333_333);
    assert_eq!(quotient(-ONE, -3_000_000_000), 333_333_333);
    assert_eq!(quotient(0, 5), 0);
}

#[test]
fn quotient_by_zero_goes_to_the_bound_of_the_dividends_sign() {
    assert_eq!(quotient(5, 0), i64::MAX);
    assert_eq!(quotient(-5, 0), i64::MIN);
    assert_eq!(quotient(0, 0), 0);
}

#[test]
fn quotient_saturates() {
    assert_eq!(quotient(i64::MAX, 1), i64::MAX);
    assert_eq!(quotient(i64::MIN, 1), i64::MIN);
    assert_eq!(quotient(i64::MIN, -1), i64::MAX);
    assert_eq!(quotient(i64::MAX, ONE), i64::MAX);
    assert_eq!(quotient(i64::MIN, -ONE), i64::MAX);
}

#[test]
fn half_rounds_toward_zero() {
    assert_eq!(half(7), 3);
    assert_eq!(half(-7), -3);
    assert_eq!(half(8), 4);
    assert_eq!(half(0), 0);
    assert_eq!(half(i64::MIN), -4_611_686_018_427_387_904);
}

#[test]
fn sqrt_rounds_down() {
    assert_eq!(sqrt(4_000_000_000), 2_000_000_000);
    assert_eq!(sqrt(2_000_000_000), 1_414_213_562);
    assert_eq!(sqrt(ONE), ONE);
    assert_eq!(sqrt(1), 31_622);
    assert_eq!(sqrt(0), 0);
    assert_eq!(sqrt(i64::MAX), 96_038_388_349_944);
}

#[test]
fn sqrt_of_a_negative_scalar_is_zero() {
    assert_eq!(sqrt(-1), 0);
    assert_eq!(sqrt(-4_000_000_000), 0);
    assert_eq!(sqrt(i64::MIN), 0);
}
