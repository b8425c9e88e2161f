//! Hill climbing over the coefficients of an even polynomial, toward the
//! silhouette of the largest area.
use crate::curves::{Curve, Polynomial};
use crate::error::SofaError;
use crate::scalar::{difference, difference_spec, sum, sum_spec};
use crate::sofa::{unit_interval, Sofa, Trig, TOLERANCE};
use rand::rngs::StdRng;
use rand::Rng;
use vstd::prelude::*;

verus! {

/// The smallest step by which a coefficient is moved.
pub const SMALLEST_STEP: i64 = 100_000;

/// The bound below which every step lies.
pub const STEP_LIMIT: i64 = 10_000_000;

/// The standard generator of `rand`. Nothing is known of what it holds: it
/// is handed on to `draw`.
#[verifier::external_type_specification]
#[verifier::external_body]
pub struct ExStdRng(StdRng);

/// Draws a scalar with [`rand::Rng::gen_range`] on the range `low..high`.
/// The range is not empty, so the call does not panic, and what it returns
/// lies in the range: at least `low`, and below `high`. Which scalar of the
/// range comes is left open.
#[verifier::external_body]
fn draw(rng: &mut StdRng, low: i64, high: i64) -> (step: i64)
    requires
        low < high,
    ensures
        low <= step < high,
{
    rng.gen_range(low..high)
}

/// `p` is the polynomial with the coefficients `c`.
pub open spec fn holds(p: Polynomial, c: Seq<i64>) -> bool {
    p.coefficients@ == c && p.degree == c.len() % 0x1_0000_0000
}

/// `first` and `last` witness that a measurement of the polynomial with the
/// coefficients `c` may end with `r`: `first` is its first silhouette and
/// `last` what the sweep leaves of it. A measurement fails with the search
/// for the support, before there is a silhouette, or with the sweep.
pub open spec fn measured_by<T: Fn(i64) -> Trig>(
    c: Seq<i64>,
    p: Polynomial,
    first: Sofa<Polynomial>,
    last: Sofa<Polynomial>,
    dx: i64,
    r_dx: i64,
    trig: &T,
    r: Result<i64, SofaError>,
) -> bool {
    holds(p, c) && match r {
        Ok(area) => first.starts(p, dx, trig) && last.cut_from(first, r_dx as int, trig, Ok(()))
            && area == last.area(),
        Err(SofaError::RootNotFound) => p.support(unit_interval(), TOLERANCE) == Err::<
            i64,
            SofaError,
        >(SofaError::RootNotFound),
        Err(SofaError::SamplingMismatch) => first.starts(p, dx, trig) && last.cut_from(
            first,
            r_dx as int,
            trig,
            Err(SofaError::SamplingMismatch),
        ),
    }
}

/// A measurement of the polynomial with the coefficients `c` may end with
/// `r`.
pub open spec fn measures<T: Fn(i64) -> Trig>(
    c: Seq<i64>,
    dx: i64,
    r_dx: i64,
    trig: &T,
    r: Result<i64, SofaError>,
) -> bool {
    exists|p: Polynomial, first: Sofa<Polynomial>, last: Sofa<Polynomial>| #[trigger]
        measured_by(c, p, first, last, dx, r_dx, trig, r)
}

/// `c` with the coefficient `i` raised by `step`.
pub open spec fn raised(c: Seq<i64>, i: int, step: i64) -> Seq<i64> {
    c.update(i, sum_spec(c[i] as int, step as int) as i64)
}

/// `c` with the coefficient `i` lowered by twice `step`.
pub open spec fn lowered(c: Seq<i64>, i: int, step: i64) -> Seq<i64> {
    c.update(i, difference_spec(c[i] as int, sum_spec(step as int, step as int)) as i64)
}

/// `c` with the coefficient `i` raised by twice `step`.
pub open spec fn restored(c: Seq<i64>, i: int, step: i64) -> Seq<i64> {
    c.update(i, sum_spec(c[i] as int, sum_spec(step as int, step as int)) as i64)
}

/// An exploration of the coefficient `i` of `before` by `step` may end
/// with the coefficients `after` and the outcome `r`. The coefficient is
/// raised by `step` and the area measured, then lowered by twice `step` and
/// the area measured again. Where the first area is the larger one, the
/// coefficient is raised again by twice `step`. The area that belongs to
/// the coefficient that stays is the result. An exploration fails with the
/// first measurement that fails, and leaves the coefficients as they were
/// measured.
pub open spec fn explores<T: Fn(i64) -> Trig>(
    before: Seq<i64>,
    i: int,
    step: i64,
    dx: i64,
    r_dx: i64,
    trig: &T,
    after: Seq<i64>,
    r: Result<i64, SofaError>,
) -> bool {
    let plus = raised(before, i, step);
    let minus = lowered(plus, i, step);
    match r {
        Ok(area) => exists|plus_area: i64, minus_area: i64|
            {
                &&& #[trigger] measures(plus, dx, r_dx, trig, Ok(plus_area))
                &&& #[trigger] measures(minus, dx, r_dx, trig, Ok(minus_area))
                &&& if plus_area > minus_area {
                    after == restored(minus, i, step) && area == plus_area
                } else {
                    after == minus && area == minus_area
                }
            },
        Err(e) => {
            ||| measures(plus, dx, r_dx, trig, Err(e)) && after == plus
            ||| after == minus && measures(minus, dx, r_dx, trig, Err(e)) && exists|plus_area: i64|
                #[trigger] measures(plus, dx, r_dx, trig, Ok(plus_area))
        },
    }
}

/// A step that `climb` may draw.
pub open spec fn is_step(step: i64) -> bool {
    SMALLEST_STEP <= step < STEP_LIMIT
}

/// An exploration by `step` that succeeds may leave the coefficient `from`
/// at `to`: lowered by `step`, or raised by it.
pub open spec fn kept(from: i64, step: i64, to: i64) -> bool {
    let twice = sum_spec(step as int, step as int);
    let low = difference_spec(sum_spec(from as int, step as int), twice);
    to == low || to == sum_spec(low, twice)
}

/// An exploration by a step that `climb` may draw, and that succeeds, may
/// leave the coefficient `from` at `to`.
pub open spec fn settles(from: i64, to: i64) -> bool {
    exists|step: i64| is_step(step) && #[trigger] kept(from, step, to)
}

/// Measures the polynomial with the given coefficients: the area of the
/// silhouette at the resolution `dx`, after one sweep in steps of `r_dx`.
pub fn measure<T: Fn(i64) -> Trig>(coefficients: &Vec<i64>, dx: i64, r_dx: i64, trig: &T) -> (r:
    Result<i64, SofaError>)
    requires
        dx >= 1,
        r_dx >= 1,
        forall|a: i64| trig.requires((a,)),
    ensures
        measures(coefficients@, dx, r_dx, trig, r),
{
    let curve = Polynomial::new(coefficients.clone());
    let ghost p = curve;
    assert(holds(p, coefficients@)) by {
        assert(p.coefficients@ =~= coefficients@);
    }
    let mut sofa = match Sofa::new(curve, dx, trig) {
        Ok(sofa) => sofa,
        Err(e) => {
            assert(measured_by(coefficients@, p, arbitrary(), arbitrary(), dx, r_dx, trig, Err(e)));
            return Err(e);
        },
    };
    let ghost first = sofa;
    let swept = sofa.cutout(r_dx, trig);
    match swept {
        Ok(done) => {
            let area = sofa.calculate_area();
            assert(swept == Ok::<(), SofaError>(done));
            assert(measured_by(coefficients@, p, first, sofa, dx, r_dx, trig, Ok(area)));
            Ok(area)
        },
        Err(e) => {
            assert(measured_by(coefficients@, p, first, sofa, dx, r_dx, trig, Err(e)));
            Err(e)
        },
    }
}

/// Explores one coefficient: measures the area with the coefficient `i`
/// raised by `step`, and with it lowered by `step`, and keeps the
/// coefficient of the larger area; the lowered one where the areas are
/// equal. Returns the area that was kept.
pub fn explore<T: Fn(i64) -> Trig>(
    coefficients: &mut Vec<i64>,
    i: usize,
    step: i64,
    dx: i64,
    r_dx: i64,
    trig: &T,
) -> (r: Result<i64, SofaError>)
    requires
        i < old(coefficients)@.len(),
        dx >= 1,
        r_dx >= 1,
        forall|a: i64| trig.requires((a,)),
    ensures
        explores(old(coefficients)@, i as int, step, dx, r_dx, trig, final(coefficients)@, r),
        final(coefficients)@.len() == old(coefficients)@.len(),
        forall|j: int|
            0 <= j < old(coefficients)@.len() && j != i ==> final(coefficients)@[j] == old(
                coefficients,
            )@[j],
{
    let ghost plus = raised(coefficients@, i as int, step);
    let ghost minus = lowered(plus, i as int, step);
    let twice: i64 = sum(step, step);

    let raised_to: i64 = sum(coefficients[i], step);
    coefficients.set(i, raised_to);
    assert(coefficients@ == plus);
    let new_plus_area: i64 = match measure(coefficients, dx, r_dx, trig) {
        Ok(area) => area,
        Err(e) => { return Err(e); },
    };

    let lowered_to: i64 = difference(coefficients[i], twice);
    coefficients.set(i, lowered_to);
    assert(coefficients@ == minus);
    let new_minus_area: i64 = match measure(coefficients, dx, r_dx, trig) {
        Ok(area) => area,
        Err(e) => { return Err(e); },
    };

    if new_plus_area > new_minus_area {
        let restored_to: i64 = sum(coefficients[i], twice);
        coefficients.set(i, restored_to);
        assert(coefficients@ == restored(minus, i as int, step));
        Ok(new_plus_area)
    } else {
        Ok(new_minus_area)
    }
}

/// One round of hill climbing: explores every coefficient in turn, each by
/// a step that `rng` draws from `SMALLEST_STEP..STEP_LIMIT`. Returns the
/// area that the last exploration kept; zero where there is no coefficient.
/// The round ends with the first exploration that fails: the coefficients
/// before it have settled, those behind it are untouched.
pub fn climb<T: Fn(i64) -> Trig>(
    coefficients: &mut Vec<i64>,
    dx: i64,
    r_dx: i64,
    trig: &T,
    rng: &mut StdRng,
) -> (r: Result<i64, SofaError>)
    requires
        dx >= 1,
        r_dx >= 1,
        forall|a: i64| trig.requires((a,)),
    ensures
        final(coefficients)@.len() == old(coefficients)@.len(),
        old(coefficients)@.len() == 0 ==> r == Ok::<i64, SofaError>(0),
        old(coefficients)@.len() > 0 ==> exists|k: int, before: Seq<i64>, step: i64|
            {
                &&& 0 <= k < old(coefficients)@.len()
                &&& r is Ok ==> k == old(coefficients)@.len() - 1
                &&& is_step(step)
                &&& #[trigger] explores(before, k, step, dx, r_dx, trig, final(coefficients)@, r)
                &&& before.len() == old(coefficients)@.len()
                &&& forall|j: int| k <= j < before.len() ==> before[j] == old(coefficients)@[j]
                &&& forall|j: int|
                    0 <= j < k ==> settles(
                        old(coefficients)@[j],
                        #[trigger] final(coefficients)@[j],
                    )
            },
{
    let n: usize = coefficients.len();
    let mut area: i64 = 0;
    let mut i: usize = 0;
    let ghost mut before: Seq<i64> = coefficients@;
    let ghost mut step_taken: i64 = SMALLEST_STEP;
    while i < n
        invariant
            i <= n,
            n == coefficients@.len(),
            n == old(coefficients)@.len(),
            dx >= 1,
            r_dx >= 1,
            forall|a: i64| trig.requires((a,)),
            forall|j: int| i <= j < n ==> coefficients@[j] == old(coefficients)@[j],
            forall|j: int|
                0 <= j < i ==> settles(old(coefficients)@[j], #[trigger] coefficients@[j]),
            i == 0 ==> area == 0,
            i > 0 ==> {
                &&& is_step(step_taken)
                &&& explores(before, i - 1, step_taken, dx, r_dx, trig, coefficients@, Ok(area))
                &&& before.len() == n
                &&& forall|j: int| i - 1 <= j < n ==> before[j] == old(coefficients)@[j]
            },
        decreases n - i,
    {
        let random_step_size: i64 = draw(rng, SMALLEST_STEP, STEP_LIMIT);
        proof {
            before = coefficients@;
            step_taken = random_step_size;
        }
        area = match explore(coefficients, i, random_step_size, dx, r_dx, trig) {
            Ok(area) => area,
            Err(e) => { return Err(e); },
        };
        assert(kept(before[i as int], random_step_size, coefficients@[i as int]));
        i += 1;
    }
    Ok(area)
}

} // verus!
