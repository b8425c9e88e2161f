//! Bisection on scalars.
use crate::error::SofaError;
use crate::sofa::Interval;
use vstd::prelude::*;

verus! {

/// The point at which a bisection of `lo ..= hi` asks its probe.
pub open spec fn midpoint(lo: int, hi: int) -> int {
    lo + (hi - lo) / 2
}

/// The answers that `probe` may give: `y` at the point `m`.
pub open spec fn answers_of<F: Fn(i64) -> i64>(probe: &F) -> spec_fn(int, int) -> bool {
    |m: int, y: int|
        i64::MIN <= m <= i64::MAX && i64::MIN <= y <= i64::MAX && probe.ensures(
            (m as i64,),
            y as i64,
        )
}

/// The answers of a probe that computes `value`.
pub open spec fn answers_from(value: spec_fn(int) -> int) -> spec_fn(int, int) -> bool {
    |m: int, y: int| y == value(m)
}

/// A bisection of `lo ..= hi` may end at `x`. While the interval is wider
/// than `tol`, the probe is asked at the midpoint: a negative answer keeps
/// the lower half, any other the upper half. The lower bound of the first
/// interval that is no wider than `tol` is the result.
pub open spec fn bisects_to(
    answers: spec_fn(int, int) -> bool,
    lo: int,
    hi: int,
    tol: int,
    x: int,
) -> bool
    decreases hi - lo,
{
    if tol < 1 || hi - lo <= tol {
        x == lo
    } else {
        exists|y: int| #[trigger]
            answers(midpoint(lo, hi), y) && if y < 0 {
                bisects_to(answers, lo, midpoint(lo, hi), tol, x)
            } else {
                bisects_to(answers, midpoint(lo, hi), hi, tol, x)
            }
    }
}

/// Where the bisection of `lo ..= hi` ends for a probe that computes
/// `value`.
pub open spec fn bisect(value: spec_fn(int) -> int, lo: int, hi: int, tol: int) -> int
    decreases hi - lo,
{
    if tol < 1 || hi - lo <= tol {
        lo
    } else if value(midpoint(lo, hi)) < 0 {
        bisect(value, lo, midpoint(lo, hi), tol)
    } else {
        bisect(value, midpoint(lo, hi), hi, tol)
    }
}

/// A bisection whose probe computes `value` ends at `bisect`.
pub proof fn lemma_bisects_to_bisect(
    value: spec_fn(int) -> int,
    lo: int,
    hi: int,
    tol: int,
    x: int,
)
    requires
        bisects_to(answers_from(value), lo, hi, tol, x),
    ensures
        x == bisect(value, lo, hi, tol),
    decreases hi - lo,
{
    if tol < 1 || hi - lo <= tol {
    } else {
        let mid = midpoint(lo, hi);
        let y = choose|y: int| #[trigger]
            answers_from(value)(mid, y) && if y < 0 {
                bisects_to(answers_from(value), lo, mid, tol, x)
            } else {
                bisects_to(answers_from(value), mid, hi, tol, x)
            };
        if y < 0 {
            lemma_bisects_to_bisect(value, lo, mid, tol, x);
        } else {
            lemma_bisects_to_bisect(value, mid, hi, tol, x);
        }
    }
}

/// What `solve` returns for a probe that computes `value`.
pub open spec fn bisected(value: spec_fn(int) -> int, interval: Interval, tol: int) -> Result<
    i64,
    SofaError,
> {
    if interval.lower > interval.upper {
        Err(SofaError::RootNotFound)
    } else {
        Ok(bisect(value, interval.lower as int, interval.upper as int, tol) as i64)
    }
}

/// A bisection ends inside the interval that it searched.
pub proof fn lemma_bisects_within(
    answers: spec_fn(int, int) -> bool,
    lo: int,
    hi: int,
    tol: int,
    x: int,
)
    requires
        lo <= hi,
        bisects_to(answers, lo, hi, tol, x),
    ensures
        lo <= x <= hi,
    decreases hi - lo,
{
    if tol < 1 || hi - lo <= tol {
    } else {
        let mid = midpoint(lo, hi);
        let y = choose|y: int| #[trigger]
            answers(mid, y) && if y < 0 {
                bisects_to(answers, lo, mid, tol, x)
            } else {
                bisects_to(answers, mid, hi, tol, x)
            };
        if y < 0 {
            lemma_bisects_within(answers, lo, mid, tol, x);
        } else {
            lemma_bisects_within(answers, mid, hi, tol, x);
        }
    }
}

/// A bisection under a wider set of answers can end wherever one under a
/// narrower set can.
pub proof fn lemma_bisects_to_widens(
    narrow: spec_fn(int, int) -> bool,
    wide: spec_fn(int, int) -> bool,
    lo: int,
    hi: int,
    tol: int,
    x: int,
)
    requires
        forall|m: int, y: int| #[trigger] narrow(m, y) ==> wide(m, y),
        bisects_to(narrow, lo, hi, tol, x),
    ensures
        bisects_to(wide, lo, hi, tol, x),
    decreases hi - lo,
{
    if tol < 1 || hi - lo <= tol {
    } else {
        let mid = midpoint(lo, hi);
        let y = choose|y: int| #[trigger]
            narrow(mid, y) && if y < 0 {
                bisects_to(narrow, lo, mid, tol, x)
            } else {
                bisects_to(narrow, mid, hi, tol, x)
            };
        if y < 0 {
            lemma_bisects_to_widens(narrow, wide, lo, mid, tol, x);
        } else {
            lemma_bisects_to_widens(narrow, wide, mid, hi, tol, x);
        }
    }
}

/// A bisection closes in on the point at which its probe changes sign: where
/// the probe is negative exactly above `root`, and `root` lies in the
/// interval, the result is at most `root` and less than `tol` below it.
pub proof fn lemma_bisection_brackets_root(
    answers: spec_fn(int, int) -> bool,
    lo: int,
    hi: int,
    tol: int,
    root: int,
    x: int,
)
    requires
        tol >= 1,
        lo <= root <= hi,
        forall|m: int, y: int| lo <= m <= hi && #[trigger] answers(m, y) ==> (y < 0 <==> m > root),
        bisects_to(answers, lo, hi, tol, x),
    ensures
        x <= root <= x + tol,
    decreases hi - lo,
{
    if hi - lo <= tol {
    } else {
        let mid = midpoint(lo, hi);
        let y = choose|y: int| #[trigger]
            answers(mid, y) && if y < 0 {
                bisects_to(answers, lo, mid, tol, x)
            } else {
                bisects_to(answers, mid, hi, tol, x)
            };
        if y < 0 {
            lemma_bisection_brackets_root(answers, lo, mid, tol, root, x);
        } else {
            lemma_bisection_brackets_root(answers, mid, hi, tol, root, x);
        }
    }
}

/// For a probe with the sign of `k * (m - root)`, where `k` is negative and
/// `root` lies in the interval, the bisection ends within `tol` of `root`.
pub proof fn lemma_linear_probe_converges(
    answers: spec_fn(int, int) -> bool,
    k: int,
    root: int,
    lo: int,
    hi: int,
    tol: int,
    x: int,
)
    requires
        tol >= 1,
        k < 0,
        lo <= root <= hi,
        forall|m: int, y: int|
            lo <= m <= hi && #[trigger] answers(m, y) ==> (y < 0 <==> k * (m - root) < 0),
        bisects_to(answers, lo, hi, tol, x),
    ensures
        x <= root <= x + tol,
{
    assert forall|m: int, y: int| lo <= m <= hi && #[trigger] answers(m, y) implies (y < 0 <==> m
        > root) by {
        assert(k * (m - root) < 0 <==> m > root) by (nonlinear_arith)
            requires
                k < 0,
        ;
    }
    lemma_bisection_brackets_root(answers, lo, hi, tol, root, x);
}

/// A probe that is negative on the whole interval leaves the lower bound
/// where it is: the bisection ends there.
pub proof fn lemma_negative_probe_ends_at_lower(
    answers: spec_fn(int, int) -> bool,
    lo: int,
    hi: int,
    tol: int,
    x: int,
)
    requires
        lo <= hi,
        forall|m: int, y: int| lo <= m <= hi && #[trigger] answers(m, y) ==> y < 0,
        bisects_to(answers, lo, hi, tol, x),
    ensures
        x == lo,
    decreases hi - lo,
{
    if tol < 1 || hi - lo <= tol {
    } else {
        let mid = midpoint(lo, hi);
        let y = choose|y: int| #[trigger]
            answers(mid, y) && if y < 0 {
                bisects_to(answers, lo, mid, tol, x)
            } else {
                bisects_to(answers, mid, hi, tol, x)
            };
        lemma_negative_probe_ends_at_lower(answers, lo, mid, tol, x);
    }
}

/// A probe that is nowhere negative on the interval drives the lower bound
/// up: the bisection ends less than `tol` below the upper bound.
pub proof fn lemma_nonnegative_probe_ends_at_upper(
    answers: spec_fn(int, int) -> bool,
    lo: int,
    hi: int,
    tol: int,
    x: int,
)
    requires
        tol >= 1,
        lo <= hi,
        forall|m: int, y: int| lo <= m <= hi && #[trigger] answers(m, y) ==> y >= 0,
        bisects_to(answers, lo, hi, tol, x),
    ensures
        hi - tol <= x <= hi,
    decreases hi - lo,
{
    if hi - lo <= tol {
    } else {
        let mid = midpoint(lo, hi);
        let y = choose|y: int| #[trigger]
            answers(mid, y) && if y < 0 {
                bisects_to(answers, lo, mid, tol, x)
            } else {
                bisects_to(answers, mid, hi, tol, x)
            };
        lemma_nonnegative_probe_ends_at_upper(answers, mid, hi, tol, x);
    }
}

/// What `solve` promises of a probe that computes `value` is `bisected`.
pub proof fn lemma_solve_bisected<F: Fn(i64) -> i64>(
    probe: &F,
    value: spec_fn(int) -> int,
    interval: Interval,
    tol: int,
    r: Result<i64, SofaError>,
)
    requires
        forall|m: i64, y: i64| probe.ensures((m,), y) ==> y == value(m as int),
        match r {
            Ok(x) => interval.lower <= interval.upper && bisects_to(
                answers_of(probe),
                interval.lower as int,
                interval.upper as int,
                tol,
                x as int,
            ),
            Err(e) => e == SofaError::RootNotFound && interval.lower > interval.upper,
        },
    ensures
        r == bisected(value, interval, tol),
{
    if let Ok(x) = r {
        let (lo, hi) = (interval.lower as int, interval.upper as int);
        lemma_bisects_to_widens(answers_of(probe), answers_from(value), lo, hi, tol, x as int);
        lemma_bisects_to_bisect(value, lo, hi, tol, x as int);
    }
}

/// Searches `interval` for the point at which `probe` changes sign, by
/// bisection. A negative answer of the probe says that the point lies below
/// the midpoint. The search ends when the interval is no wider than
/// `tolerance`, with its lower bound. An interval whose lower bound lies
/// above its upper bound is not searched.
pub fn solve<F: Fn(i64) -> i64>(interval: Interval, tolerance: i64, probe: &F) -> (r: Result<
    i64,
    SofaError,
>)
    requires
        tolerance >= 1,
        forall|m: i64| interval.lower <= m <= interval.upper ==> probe.requires((m,)),
    ensures
        match r {
            Ok(x) => interval.lower <= interval.upper && bisects_to(
                answers_of(probe),
                interval.lower as int,
                interval.upper as int,
                tolerance as int,
                x as int,
            ),
            Err(e) => e == SofaError::RootNotFound && interval.lower > interval.upper,
        },
{
    if interval.lower > interval.upper {
        return Err(SofaError::RootNotFound);
    }
    let mut lo: i64 = interval.lower;
    let mut hi: i64 = interval.upper;
    while hi as i128 - lo as i128 > tolerance as i128
        invariant
            tolerance >= 1,
            interval.lower <= lo <= hi <= interval.upper,
            forall|m: i64| interval.lower <= m <= interval.upper ==> probe.requires((m,)),
            forall|x: int|
                bisects_to(answers_of(probe), lo as int, hi as int, tolerance as int, x)
                    ==> bisects_to(
                    answers_of(probe),
                    interval.lower as int,
                    interval.upper as int,
                    tolerance as int,
                    x,
                ),
        decreases hi - lo,
    {
        let mid: i64 = (lo as i128 + (hi as i128 - lo as i128) / 2) as i64;
        let y: i64 = probe(mid);
        let ghost (lo0, hi0) = (lo as int, hi as int);
        if y < 0 {
            hi = mid;
        } else {
            lo = mid;
        }
        proof {
            let answers = answers_of(probe);
            let tol = tolerance as int;
            assert(answers(midpoint(lo0, hi0), y as int));
            assert forall|x: int| bisects_to(answers, lo as int, hi as int, tol, x) implies bisects_to(
                answers,
                lo0,
                hi0,
                tol,
                x,
            ) by {
                assert(answers(midpoint(lo0, hi0), y as int) && if (y as int) < 0 {
                    bisects_to(answers, lo0, midpoint(lo0, hi0), tol, x)
                } else {
                    bisects_to(answers, midpoint(lo0, hi0), hi0, tol, x)
                });
            }
        }
    }
    assert(bisects_to(answers_of(probe), lo as int, hi as int, tolerance as int, lo as int));
    Ok(lo)
}

} // verus!
