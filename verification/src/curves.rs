//! Boundary curves: the width of the corridor's path at each offset.
use crate::error::SofaError;
use crate::rootfinder::{bisected, lemma_solve_bisected, solve};
use crate::scalar::{
    difference, difference_spec, product, product_spec, quotient, quotient_spec, sqrt, sqrt_spec,
    sum, sum_spec, ONE,
};
use crate::sofa::Interval;
use vstd::prelude::*;

verus! {

/// A boundary curve. It is meant to be even, and to fall from a width that
/// is not negative at zero to its root, where its support ends.
pub trait Curve: Clone {
    /// Whether the curve's data is fit for evaluation.
    spec fn valid(&self) -> bool;

    /// The width at the offset `x`.
    spec fn width(&self, x: i64) -> i64;

    /// Where the search of `interval` for the end of the support ends.
    spec fn support(&self, interval: Interval, toleranz: i64) -> Result<i64, SofaError>;

    /// The width at the offset `x`.
    fn f(&self, x: i64) -> (y: i64)
        requires
            self.valid(),
        ensures
            y == self.width(x),
    ;

    /// The end of the curve's support: the positive offset at which the
    /// width reaches zero, searched in `interval`.
    fn nullstelle(&self, interval: Interval, toleranz: i64) -> (r: Result<i64, SofaError>)
        requires
            self.valid(),
            toleranz >= 1,
        ensures
            r == self.support(interval, toleranz),
    ;
}

/// The straight line `m * x + c`.
#[derive(Clone)]
pub struct Linear {
    pub m: i64,
    pub c: i64,
}

impl Linear {
    pub fn new(m: i64, c: i64) -> (r: Self)
        ensures
            r.m == m,
            r.c == c,
    {
        Self { m, c }
    }
}

impl Curve for Linear {
    open spec fn valid(&self) -> bool {
        true
    }

    open spec fn width(&self, x: i64) -> i64 {
        sum_spec(product_spec(self.m as int, x as int), self.c as int) as i64
    }

    open spec fn support(&self, interval: Interval, toleranz: i64) -> Result<i64, SofaError> {
        bisected(|x: int| self.width(x as i64) as int, interval, toleranz as int)
    }

    fn f(&self, x: i64) -> (y: i64) {
        sum(product(self.m, x), self.c)
    }

    /// Bisects `interval` on the sign of the width.
    fn nullstelle(&self, interval: Interval, toleranz: i64) -> (r: Result<i64, SofaError>) {
        let probe = |x: i64| -> (y: i64)
            ensures
                y == self.width(x),
            { self.f(x) };
        let r = solve(interval, toleranz, &probe);
        proof {
            lemma_solve_bisected(
                &probe,
                |x: int| self.width(x as i64) as int,
                interval,
                toleranz as int,
                r,
            );
        }
        r
    }
}

/// The upper half of the ellipse with the half-axes `coefficients[0]`, along
/// the offsets, and `coefficients[1]`.
#[derive(Clone)]
pub struct Ellipse {
    pub coefficients: Vec<i64>,
}

impl Ellipse {
    pub fn new(coefficients: Vec<i64>) -> (r: Self)
        ensures
            r.coefficients == coefficients,
    {
        Self { coefficients }
    }
}

impl Curve for Ellipse {
    open spec fn valid(&self) -> bool {
        self.coefficients@.len() >= 2
    }

    open spec fn width(&self, x: i64) -> i64 {
        let a = self.coefficients@[0] as int;
        let b = self.coefficients@[1] as int;
        product_spec(
            quotient_spec(b, a),
            sqrt_spec(difference_spec(product_spec(a, a), product_spec(x as int, x as int))),
        ) as i64
    }

    open spec fn support(&self, interval: Interval, toleranz: i64) -> Result<i64, SofaError> {
        Ok(self.coefficients@[0])
    }

    fn f(&self, x: i64) -> (y: i64) {
        let a: i64 = self.coefficients[0];
        let b: i64 = self.coefficients[1];
        product(quotient(b, a), sqrt(difference(product(a, a), product(x, x))))
    }

    /// The support of an ellipse ends at its first half-axis: nothing is
    /// searched.
    fn nullstelle(&self, interval: Interval, toleranz: i64) -> (r: Result<i64, SofaError>) {
        Ok(self.coefficients[0])
    }
}

/// `x2` to the power `n`, where `x2` is the square of an offset.
pub open spec fn power_spec(x2: int, n: nat) -> int
    decreases n,
{
    if n == 0 {
        ONE as int
    } else {
        product_spec(power_spec(x2, (n - 1) as nat), x2)
    }
}

/// The sum of the first `n` terms of the even polynomial with the
/// coefficients `c`, at an offset whose square is `x2`.
pub open spec fn even_polynomial(c: Seq<i64>, x2: int, n: nat) -> int
    decreases n,
{
    if n == 0 {
        0
    } else {
        sum_spec(
            even_polynomial(c, x2, (n - 1) as nat),
            product_spec(c[n - 1] as int, power_spec(x2, (n - 1) as nat)),
        )
    }
}

/// The even polynomial whose term of the power `2 * i` has the coefficient
/// `coefficients[i]`, for each `i` below `degree`.
#[derive(Clone)]
pub struct Polynomial {
    pub coefficients: Vec<i64>,
    pub degree: u32,
}

impl Polynomial {
    /// The polynomial with the given coefficients, all of them counted as
    /// far as a `u32` can count.
    pub fn new(coefficients: Vec<i64>) -> (r: Self)
        ensures
            r.coefficients == coefficients,
            r.degree == coefficients@.len() % 0x1_0000_0000,
            r.valid(),
    {
        let degree: u32 = (coefficients.len() as u64 % 0x1_0000_0000) as u32;
        Self { coefficients, degree }
    }
}

impl Curve for Polynomial {
    open spec fn valid(&self) -> bool {
        self.degree <= self.coefficients@.len()
    }

    open spec fn width(&self, x: i64) -> i64 {
        even_polynomial(
            self.coefficients@,
            product_spec(x as int, x as int),
            self.degree as nat,
        ) as i64
    }

    open spec fn support(&self, interval: Interval, toleranz: i64) -> Result<i64, SofaError> {
        bisected(|x: int| self.width(x as i64) as int, interval, toleranz as int)
    }

    fn f(&self, x: i64) -> (y: i64) {
        let x2: i64 = product(x, x);
        let mut y: i64 = 0;
        let mut power: i64 = ONE;
        let mut i: usize = 0;
        while i < self.degree as usize
            invariant
                i <= self.degree <= self.coefficients@.len(),
                y == even_polynomial(self.coefficients@, x2 as int, i as nat),
                power == power_spec(x2 as int, i as nat),
            decreases self.degree - i,
        {
            y = sum(y, product(self.coefficients[i], power));
            power = product(power, x2);
            i += 1;
        }
        y
    }

    /// Bisects `interval` on the sign of the width.
    fn nullstelle(&self, interval: Interval, toleranz: i64) -> (r: Result<i64, SofaError>) {
        let probe = |x: i64| -> (y: i64)
            ensures
                y == self.width(x),
            { self.f(x) };
        let r = solve(interval, toleranz, &probe);
        proof {
            lemma_solve_bisected(
                &probe,
                |x: int| self.width(x as i64) as int,
                interval,
                toleranz as int,
                r,
            );
        }
        r
    }
}

/// A line without slope is even.
pub proof fn lemma_level_line_is_even(line: Linear, x: i64)
    requires
        line.m == 0,
        x > i64::MIN,
    ensures
        line.width((-x) as i64) == line.width(x),
{
    assert(0 * (-x) == 0 * x) by (nonlinear_arith);
}

/// An ellipse is even.
pub proof fn lemma_ellipse_is_even(ellipse: Ellipse, x: i64)
    requires
        x > i64::MIN,
    ensures
        ellipse.width((-x) as i64) == ellipse.width(x),
{
    assert((-x) * (-x) == x * x) by (nonlinear_arith);
}

/// A polynomial of even powers is even.
pub proof fn lemma_polynomial_is_even(polynomial: Polynomial, x: i64)
    requires
        x > i64::MIN,
    ensures
        polynomial.width((-x) as i64) == polynomial.width(x),
{
    assert((-x) * (-x) == x * x) by (nonlinear_arith);
}

} // verus!
