use moving_sofa::error::SofaError;
use moving_sofa::rootfinder::solve;
use moving_sofa::scalar::ONE;
use moving_sofa::sofa::Interval;

fn unit() -> Interval {
    Interval { lower: 0, upper: ONE }
}

#[test]
fn falling_linear_probe_converges_to_its_root() {
    let root: i64 = 750_000_000;
    let found = solve(unit(), 10, &|x: i64| -3 * (x - root)).unwrap();
    assert_eq!(found, 750_000_000);
    assert!(found <= root && root <= found + 10);
}

#[test]
fn falling_linear_probe_converges_for_many_roots_and_slopes() {
    for k in [-1i64, -2, -17, -1_000] {
        for root in [0i64, 1, 123_456_789, 500_000_000, 999_999_999, ONE] {
            for tol in [1i64, 10, 1_000, 250_000_000] {
                let found = solve(unit(), tol, &|x: i64| k.saturating_mul(x - root)).unwrap();
                assert!(found <= root && root <= found + tol, "k={k} root={root} tol={tol}");
            }
        }
    }
}

#[test]
fn falling_probe_converges_on_a_negative_interval() {
    let interval = Interval { lower: -2 * ONE, upper: -ONE };
    let found = solve(interval, 1_000, &|x: i64| -7 * (x + 1_300_000_000)).unwrap();
    assert_eq!(found, -1_300_000_193);
}

#[test]
fn rising_probe_is_driven_to_the_lower_bound() {
    let root: i64 = 750_000_000;
    assert_eq!(solve(unit(), 10, &|x: i64| x - root), Ok(0));
}

#[test]
fn root_at_the_upper_bound_is_approached_from_below() {
    assert_eq!(solve(unit(), 10, &|x: i64| ONE - x), Ok(999_999_992));
}

#[test]
fn tolerance_of_one_unit_finds_the_root_itself() {
    let interval = Interval { lower: 0, upper: 1_000 };
    assert_eq!(solve(interval, 1, &|x: i64| 500 - x), Ok(500));
    assert_eq!(solve(interval, 1, &|x: i64| 499 - x), Ok(499));
}

#[test]
fn interval_within_tolerance_returns_its_lower_bound_unprobed() {
    let interval = Interval { lower: 40, upper: 50 };
    let found = solve(interval, 10, &|_x: i64| -> i64 { panic!("probed") });
    assert_eq!(found, Ok(40));
}

#[test]
fn inverted_interval_is_not_searched() {
    let interval = Interval { lower: 1, upper: 0 };
    assert_eq!(solve(interval, 10, &|_x: i64| 1), Err(SofaError::RootNotFound));
    assert_eq!(solve(interval, 10, &|_x: i64| -1), Err(SofaError::RootNotFound));
    assert_eq!(solve(interval, 10, &|x: i64| -x), Err(SofaError::RootNotFound));
}

#[test]
fn probe_that_is_negative_everywhere_ends_at_the_lower_bound() {
    let interval = Interval { lower: 100, upper: ONE };
    assert_eq!(solve(interval, 10, &|_x: i64| -1), Ok(100));
}

#[test]
fn probe_that_is_never_negative_ends_below_the_upper_bound() {
    let interval = Interval { lower: 100, upper: ONE };
    assert_eq!(solve(interval, 10, &|_x: i64| 1), Ok(999_999_992));
    assert_eq!(solve(unit(), 10, &|_x: i64| 0), Ok(999_999_992));
}

#[test]
fn degenerate_interval_is_its_own_result() {
    let interval = Interval { lower: 7, upper: 7 };
    assert_eq!(solve(interval, 1, &|_x: i64| -1), Ok(7));
}
