use moving_sofa::curves::{Curve, Ellipse, Linear, Polynomial};
use moving_sofa::error::SofaError;
use moving_sofa::scalar::ONE;
use moving_sofa::sofa::Interval;

fn unit() -> Interval {
    Interval { lower: 0, upper: ONE }
}

#[test]
fn linear_evaluates_slope_and_intercept() {
    let line = Linear::new(-ONE, ONE / 2);
    assert_eq!((line.m, line.c), (-ONE, ONE / 2));
    assert_eq!(line.f(250_000_000), 250_000_000);
    assert_eq!(line.f(0), 500_000_000);
    assert_eq!(line.f(ONE), -500_000_000);
}

#[test]
fn linear_support_is_found_by_bisection() {
    let line = Linear::new(-ONE, ONE / 2);
    assert_eq!(line.nullstelle(unit(), 10), Ok(500_000_000));
}

#[test]
fn linear_with_a_slope_is_not_even() {
    let line = Linear::new(ONE, 0);
    assert_eq!(line.f(ONE), ONE);
    assert_eq!(line.f(-ONE), -ONE);
}

#[test]
fn level_line_is_even() {
    let line = Linear::new(0, 300_000_000);
    for x in [0i64, 1, ONE, 7 * ONE, i64::MAX] {
        assert_eq!(line.f(-x), line.f(x));
        assert_eq!(line.f(x), 300_000_000);
    }
}

#[test]
fn ellipse_evaluates_the_upper_half() {
    let circle = Ellipse::new(vec![ONE, ONE]);
    assert_eq!(circle.f(600_000_000), 800_000_000);
    assert_eq!(circle.f(0), ONE);
    assert_eq!(circle.f(ONE), 0);
    let wide = Ellipse::new(vec![2 * ONE, ONE]);
    assert_eq!(wide.f(ONE), 866_025_403);
    assert_eq!(wide.f(1_200_000_000), 800_000_000);
}

#[test]
fn ellipse_is_zero_outside_its_support() {
    let circle = Ellipse::new(vec![ONE, ONE]);
    assert_eq!(circle.f(2 * ONE), 0);
    assert_eq!(circle.f(-2 * ONE), 0);
}

#[test]
fn ellipse_is_even() {
    let wide = Ellipse::new(vec![2 * ONE, ONE]);
    for x in [0i64, 1, 123_456_789, ONE, 1_999_999_999, 2 * ONE, 5 * ONE] {
        assert_eq!(wide.f(-x), wide.f(x));
    }
}

#[test]
fn ellipse_support_ends_at_its_first_half_axis() {
    let wide = Ellipse::new(vec![2 * ONE, ONE]);
    assert_eq!(wide.nullstelle(unit(), 10), Ok(2 * ONE));
    let inverted = Interval { lower: 1, upper: 0 };
    assert_eq!(wide.nullstelle(inverted, 10), Ok(2 * ONE));
}

#[test]
fn polynomial_counts_its_coefficients() {
    let p = Polynomial::new(vec![ONE, -ONE, 5]);
    assert_eq!(p.degree, 3);
    assert_eq!(p.coefficients, vec![ONE, -ONE, 5]);
    assert_eq!(Polynomial::new(vec![]).degree, 0);
}

#[test]
fn polynomial_sums_even_powers() {
    let p = Polynomial::new(vec![ONE, -ONE]);
    assert_eq!(p.f(500_000_000), 750_000_000);
    assert_eq!(p.f(2 * ONE), -3 * ONE);
    let q = Polynomial::new(vec![ONE, -ONE / 2, 250_000_000]);
    assert_eq!(q.f(500_000_000), 890_625_000);
    assert_eq!(q.f(ONE), 750_000_000);
    assert_eq!(q.f(1_500_000_000), 1_140_625_000);
}

#[test]
fn polynomial_without_coefficients_is_zero() {
    let p = Polynomial::new(vec![]);
    assert_eq!(p.f(0), 0);
    assert_eq!(p.f(ONE), 0);
}

#[test]
fn polynomial_is_even() {
    let q = Polynomial::new(vec![ONE, -ONE / 2, 250_000_000]);
    for x in [0i64, 1, 123_456_789, ONE, 1_500_000_000, 40 * ONE] {
        assert_eq!(q.f(-x), q.f(x));
    }
}

#[test]
fn polynomial_support_is_found_by_bisection() {
    let p = Polynomial::new(vec![ONE, -ONE]);
    assert_eq!(p.nullstelle(unit(), 10), Ok(999_999_992));
    let quarter = Polynomial::new(vec![250_000_000, -ONE]);
    let root = quarter.nullstelle(unit(), 10).unwrap();
    assert!(root <= 500_000_000 && 500_000_000 <= root + 10);
}

#[test]
fn bisected_support_fails_on_an_inverted_interval() {
    let inverted = Interval { lower: 1, upper: 0 };
    assert_eq!(Linear::new(-ONE, ONE / 2).nullstelle(inverted, 10), Err(SofaError::RootNotFound));
    assert_eq!(
        Polynomial::new(vec![ONE, -ONE]).nullstelle(inverted, 10),
        Err(SofaError::RootNotFound)
    );
}
