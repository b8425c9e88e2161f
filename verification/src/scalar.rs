//! Saturating fixed-point scalars.
//!
//! A scalar is an `i64` that counts billionths: the real number `v` is held
//! as `v * ONE`, rounded toward zero. Every operation is total. A result that
//! leaves the range of `i64` is replaced by the nearest bound, and a division
//! by zero gives the bound on the side of the dividend's sign.
use vstd::prelude::*;

verus! {

/// The scalar that stands for the real number one.
pub const ONE: i64 = 1_000_000_000;

/// The scalar nearest to the circle constant.
pub const PI: i64 = 3_141_592_654;

/// The scalar nearest to a quarter turn.
pub const FRAC_PI_2: i64 = 1_570_796_327;

/// The nearest value to `v` that an `i64` can hold.
pub open spec fn clamp(v: int) -> int {
    if v > i64::MAX {
        i64::MAX as int
    } else if v < i64::MIN {
        i64::MIN as int
    } else {
        v
    }
}

/// The quotient of `n` by `d`, rounded toward zero; `d` is not zero.
pub open spec fn trunc_div(n: int, d: int) -> int {
    if d > 0 {
        if n >= 0 { n / d } else { -((-n) / d) }
    } else {
        if n >= 0 { -(n / (-d)) } else { (-n) / (-d) }
    }
}

pub open spec fn sum_spec(a: int, b: int) -> int {
    clamp(a + b)
}

pub open spec fn difference_spec(a: int, b: int) -> int {
    clamp(a - b)
}

pub open spec fn negate_spec(a: int) -> int {
    clamp(-a)
}

pub open spec fn magnitude_spec(a: int) -> int {
    clamp(if a < 0 { -a } else { a })
}

pub open spec fn product_spec(a: int, b: int) -> int {
    clamp(trunc_div(a * b, ONE as int))
}

pub open spec fn quotient_spec(a: int, b: int) -> int {
    if b == 0 {
        if a > 0 {
            i64::MAX as int
        } else if a < 0 {
            i64::MIN as int
        } else {
            0
        }
    } else {
        clamp(trunc_div(a * ONE, b))
    }
}

pub open spec fn half_spec(a: int) -> int {
    trunc_div(a, 2)
}

/// `s` is the integer part of the square root of `n`.
pub open spec fn is_floor_sqrt(n: int, s: int) -> bool {
    0 <= s && s * s <= n < (s + 1) * (s + 1)
}

/// The radicand, in units of `ONE * ONE`, whose root `sqrt` takes: a
/// negative scalar counts as zero.
pub open spec fn radicand(a: int) -> int {
    if a < 0 { 0 } else { a * ONE }
}

/// The square root of a scalar, rounded down; zero for a negative scalar.
pub open spec fn sqrt_spec(a: int) -> int {
    choose|s: int| is_floor_sqrt(radicand(a), s)
}

/// A number has one integer square root.
pub proof fn lemma_floor_sqrt_unique(n: int, s: int, t: int)
    requires
        is_floor_sqrt(n, s),
        is_floor_sqrt(n, t),
    ensures
        s == t,
{
    if s < t {
        assert((s + 1) * (s + 1) <= t * t) by (nonlinear_arith)
            requires
                0 <= s,
                s + 1 <= t,
        ;
    } else if t < s {
        assert((t + 1) * (t + 1) <= s * s) by (nonlinear_arith)
            requires
                0 <= t,
                t + 1 <= s,
        ;
    }
}

fn saturate(v: i128) -> (r: i64)
    ensures
        r == clamp(v as int),
{
    if v > i64::MAX as i128 {
        i64::MAX
    } else if v < i64::MIN as i128 {
        i64::MIN
    } else {
        v as i64
    }
}

/// `a + b`, saturating.
pub fn sum(a: i64, b: i64) -> (r: i64)
    ensures
        r == sum_spec(a as int, b as int),
{
    saturate(a as i128 + b as i128)
}

/// `a - b`, saturating.
pub fn difference(a: i64, b: i64) -> (r: i64)
    ensures
        r == difference_spec(a as int, b as int),
{
    saturate(a as i128 - b as i128)
}

/// `-a`, saturating.
pub fn negate(a: i64) -> (r: i64)
    ensures
        r == negate_spec(a as int),
{
    saturate(0 - a as i128)
}

/// `|a|`, saturating.
pub fn magnitude(a: i64) -> (r: i64)
    ensures
        r == magnitude_spec(a as int),
{
    if a < 0 { negate(a) } else { a }
}

proof fn lemma_product_fits(a: int, b: int)
    requires
        i64::MIN <= a <= i64::MAX,
        i64::MIN <= b <= i64::MAX,
    ensures
        -0x4000_0000_0000_0000_0000_0000_0000_0000 <= a * b <= 0x4000_0000_0000_0000_0000_0000_0000_0000,
{
    assert(-0x4000_0000_0000_0000_0000_0000_0000_0000 <= a * b <= 0x4000_0000_0000_0000_0000_0000_0000_0000)
        by (nonlinear_arith)
        requires
            -0x8000_0000_0000_0000 <= a <= 0x8000_0000_0000_0000,
            -0x8000_0000_0000_0000 <= b <= 0x8000_0000_0000_0000,
    ;
}

/// The quotient of `n` by `d`, rounded toward zero, for a positive `d`.
fn divide_toward_zero(n: i128, d: i128) -> (q: i128)
    requires
        d > 0,
        n > i128::MIN,
    ensures
        q == trunc_div(n as int, d as int),
{
    if n >= 0 {
        n / d
    } else {
        let m: i128 = -n;
        let p: i128 = m / d;
        assert(0 <= p <= m) by (nonlinear_arith)
            requires
                p == m as int / d as int,
                m >= 0,
                d > 0,
        ;
        -p
    }
}

/// `a * b`, rounded toward zero and saturating.
pub fn product(a: i64, b: i64) -> (r: i64)
    ensures
        r == product_spec(a as int, b as int),
{
    proof {
        lemma_product_fits(a as int, b as int);
    }
    let p: i128 = (a as i128) * (b as i128);
    saturate(divide_toward_zero(p, ONE as i128))
}

/// `a / b`, rounded toward zero and saturating; a division by zero gives
/// the bound on the side of the sign of `a`, and zero for `a == 0`.
pub fn quotient(a: i64, b: i64) -> (r: i64)
    ensures
        r == quotient_spec(a as int, b as int),
{
    if b == 0 {
        if a > 0 {
            i64::MAX
        } else if a < 0 {
            i64::MIN
        } else {
            0
        }
    } else {
        proof {
            lemma_product_fits(a as int, ONE as int);
        }
        let n: i128 = (a as i128) * (ONE as i128);
        if b > 0 {
            saturate(divide_toward_zero(n, b as i128))
        } else {
            saturate(divide_toward_zero(-n, -(b as i128)))
        }
    }
}

/// `a / 2`, rounded toward zero.
pub fn half(a: i64) -> (r: i64)
    ensures
        r == half_spec(a as int),
{
    a / 2
}

/// The square root of `a`, rounded down to a whole number of units; zero
/// for a negative `a`.
pub fn sqrt(a: i64) -> (r: i64)
    ensures
        is_floor_sqrt(radicand(a as int), r as int),
        r == sqrt_spec(a as int),
{
    if a <= 0 {
        proof {
            assert(is_floor_sqrt(radicand(a as int), 0));
            lemma_floor_sqrt_unique(radicand(a as int), 0, sqrt_spec(a as int));
        }
        return 0;
    }
    proof {
        lemma_product_fits(a as int, ONE as int);
    }
    let n: i128 = (a as i128) * (ONE as i128);
    let mut lo: i128 = 0;
    let mut hi: i128 = 0x8000_0000_0000;
    assert(n < hi * hi) by (nonlinear_arith)
        requires
            n == a * 1_000_000_000,
            a <= 0x7fff_ffff_ffff_ffff,
            hi == 0x8000_0000_0000,
    ;
    while hi - lo > 1
        invariant
            0 <= lo < hi <= 0x8000_0000_0000,
            lo * lo <= n < hi * hi,
        decreases hi - lo,
    {
        let mid: i128 = lo + (hi - lo) / 2;
        assert(0 <= mid * mid <= 0x4000_0000_0000_0000_0000_0000) by (nonlinear_arith)
            requires
                0 <= mid <= 0x8000_0000_0000,
        ;
        if mid * mid <= n {
            lo = mid;
        } else {
            hi = mid;
        }
    }
    proof {
        assert(is_floor_sqrt(radicand(a as int), lo as int));
        lemma_floor_sqrt_unique(radicand(a as int), lo as int, sqrt_spec(a as int));
    }
    lo as i64
}

} // verus!
