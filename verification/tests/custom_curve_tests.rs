use moving_sofa::curves::Curve;
use moving_sofa::error::SofaError;
use moving_sofa::scalar::ONE;
use moving_sofa::sofa::{Interval, Sofa, Trig};

fn to_scalar(v: f64) -> i64 {
    (v * 1e9) as i64
}

fn trig(theta: i64) -> Trig {
    let t = theta as f64 / 1e9;
    Trig { sin: to_scalar(t.sin()), cos: to_scalar(t.cos()), tan: to_scalar(t.tan()) }
}

/// Zero everywhere but at the offset zero.
#[derive(Clone)]
struct Spike;

impl Curve for Spike {
    fn valid(&self) -> bool {
        true
    }

    fn width(&self, x: i64) -> i64 {
        self.f(x)
    }

    fn support(&self, interval: Interval, toleranz: i64) -> Result<i64, SofaError> {
        self.nullstelle(interval, toleranz)
    }

    fn f(&self, x: i64) -> i64 {
        if x == 0 {
            ONE
        } else {
            0
        }
    }

    fn nullstelle(&self, interval: Interval, toleranz: i64) -> Result<i64, SofaError> {
        moving_sofa::rootfinder::solve(interval, toleranz, &|x: i64| self.f(x))
    }
}

/// A curve that cannot say where its support ends.
#[derive(Clone)]
struct Endless;

impl Curve for Endless {
    fn valid(&self) -> bool {
        true
    }

    fn width(&self, x: i64) -> i64 {
        self.f(x)
    }

    fn support(&self, interval: Interval, toleranz: i64) -> Result<i64, SofaError> {
        self.nullstelle(interval, toleranz)
    }

    fn f(&self, _x: i64) -> i64 {
        ONE
    }

    fn nullstelle(&self, _interval: Interval, _toleranz: i64) -> Result<i64, SofaError> {
        Err(SofaError::RootNotFound)
    }
}

#[test]
fn spike_at_zero_keeps_the_straight_strip() {
    let mut sofa = Sofa::new(Spike, 10_000_000, &trig).unwrap();
    assert_eq!(sofa.curve_interval.upper, 999_999_992);
    assert_eq!(sofa.cutout(10_000_000, &trig), Ok(()));
    let area = sofa.calculate_area();
    assert!((area - 1_990_621_778).abs() <= 2_000_000);
}

#[test]
fn new_sofa_fails_where_the_support_is_not_found() {
    assert!(matches!(Sofa::new(Endless, 10_000_000, &trig), Err(SofaError::RootNotFound)));
}
