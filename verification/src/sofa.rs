//! Corridors, and the silhouette that fits through all of them.
use crate::curves::{Curve, Linear};
use crate::error::SofaError;
use crate::line::Line;
use crate::rootfinder::{
    answers_of, bisects_to, lemma_bisection_brackets_root, lemma_bisects_to_widens,
    lemma_bisects_within, solve,
};
use crate::scalar::{
    difference, difference_spec, half, half_spec, magnitude, magnitude_spec, negate, negate_spec,
    product, product_spec, quotient, quotient_spec, sum, sum_spec, FRAC_PI_2, ONE, PI,
};
use vstd::prelude::*;

verus! {

/// The width within which a rotation angle is resolved.
pub const TOLERANCE: i64 = 10;

/// The scalars from `lower` to `upper`.
#[derive(Clone, Copy, Debug)]
pub struct Interval {
    pub lower: i64,
    pub upper: i64,
}

/// A point of the plane.
#[derive(Clone, Copy, Debug)]
pub struct Point {
    pub x: i64,
    pub y: i64,
}

/// The sine, cosine and tangent of one angle.
#[derive(Clone, Copy, Debug)]
pub struct Trig {
    pub sin: i64,
    pub cos: i64,
    pub tan: i64,
}

/// What a corridor takes from its rotation angle `theta`: the values at
/// `theta`, at `theta / 2`, the direction of the left walls, and at
/// `(theta + PI) / 2`, the direction of the right walls.
#[derive(Clone, Copy, Debug)]
pub struct Angles {
    pub theta: Trig,
    pub left: Trig,
    pub right: Trig,
}

/// One wall of a corridor: its left and its right boundary.
pub struct Envelope {
    pub left: Linear,
    pub right: Linear,
}

/// The corridor at one translation step: its outer and its inner wall, and
/// the four stretches of offsets on which its slices are taken.
pub struct Corridor {
    pub aussenwand: Envelope,
    pub innenwand: Envelope,
    pub intervals: [Interval; 4],
}

/// The hinge of the corridor at the offset `x`: the point of the boundary
/// curve about which it turns.
pub open spec fn hinge(x: int, angles: Angles) -> (int, int) {
    (x, product_spec(angles.theta.tan as int, x))
}

/// The line with the slope `tan` through the point `p`.
pub open spec fn wall_through(tan: int, p: (int, int)) -> Linear {
    Linear { m: tan as i64, c: sum_spec(product_spec(negate_spec(tan), p.0), p.1) as i64 }
}

/// The left outer wall: the left inner wall, moved by one along its normal.
pub open spec fn outer_left(t: Trig, p: (int, int)) -> Linear {
    Linear {
        m: t.tan,
        c: sum_spec(
            sum_spec(
                sum_spec(
                    product_spec(negate_spec(t.tan as int), p.0),
                    product_spec(t.tan as int, t.sin as int),
                ),
                p.1,
            ),
            t.cos as int,
        ) as i64,
    }
}

/// The right outer wall: the right inner wall, moved by one against its
/// normal.
pub open spec fn outer_right(t: Trig, p: (int, int)) -> Linear {
    Linear {
        m: t.tan,
        c: difference_spec(
            sum_spec(
                difference_spec(
                    product_spec(negate_spec(t.tan as int), p.0),
                    product_spec(t.tan as int, t.sin as int),
                ),
                p.1,
            ),
            t.cos as int,
        ) as i64,
    }
}

/// The offset at which `wall` crosses zero.
pub open spec fn zero_of(wall: Linear) -> int {
    quotient_spec(negate_spec(wall.c as int), wall.m as int)
}

/// The line that is zero everywhere.
pub open spec fn floor() -> Linear {
    Linear { m: 0, c: 0 }
}

/// The slices of one stretch of a corridor, between the walls `lower` and
/// `upper`: one at `x`, one at each further step of `dx`, as long as the
/// position lies below `end`.
pub open spec fn stretch(lower: Linear, upper: Linear, x: int, end: int, dx: int) -> Seq<Line>
    decreases
            if x < end {
                end - x
            } else {
                0
            },
{
    if dx >= 1 && x < end <= i64::MAX {
        seq![Line { min: lower.width(x as i64), max: upper.width(x as i64) }] + stretch(
            lower,
            upper,
            sum_spec(x, dx),
            end,
            dx,
        )
    } else {
        Seq::empty()
    }
}

/// The position at which the stretch from `x` to `end` hands over to the
/// next: the first sample that does not lie below `end`.
pub open spec fn stretch_end(x: int, end: int, dx: int) -> int
    decreases
            if x < end {
                end - x
            } else {
                0
            },
{
    if dx >= 1 && x < end <= i64::MAX {
        stretch_end(sum_spec(x, dx), end, dx)
    } else {
        x
    }
}

/// The answers of the probe that resolves a rotation angle: at the angle
/// `m`, the width of the curve less the height to which the tangent of `m`
/// rises over `reach`.
pub open spec fn slope_answers<T: Fn(i64) -> Trig>(width: int, reach: int, trig: &T) -> spec_fn(
    int,
    int,
) -> bool {
    |m: int, y: int|
        exists|t: Trig|
            i64::MIN <= m <= i64::MAX && #[trigger] trig.ensures((m as i64,), t) && y
                == difference_spec(width, product_spec(t.tan as int, reach))
}

/// `theta` may be the rotation angle of the corridor at the offset `x`: the
/// angle between zero and a quarter turn at which the tangent, over the
/// magnitude of `x`, rises to the width of the curve there, found by
/// bisection, and mirrored to `PI - theta` for a negative `x`.
pub open spec fn turns_by<E: Curve, T: Fn(i64) -> Trig>(
    curve: &E,
    x: int,
    toleranz: int,
    trig: &T,
    theta: int,
) -> bool {
    let reach = magnitude_spec(x);
    bisects_to(
        slope_answers(curve.width(reach as i64) as int, reach, trig),
        0,
        FRAC_PI_2 as int,
        toleranz,
        if x < 0 {
            PI - theta
        } else {
            theta
        },
    )
}

/// The rotation angle is the one at which the tangent meets the curve: where
/// the tangent that `trig` gives rises, over the magnitude of `x`, above
/// the width of the curve exactly at the angles above `root`, and `root`
/// lies between zero and a quarter turn, the angle found for an `x` that is
/// not negative is at most `root` and less than `toleranz` below it, and
/// the angle found for a negative `x` is its mirror image.
pub proof fn lemma_theta_meets_the_curve<E: Curve, T: Fn(i64) -> Trig>(
    curve: &E,
    x: int,
    toleranz: int,
    trig: &T,
    root: int,
    theta: int,
)
    requires
        toleranz >= 1,
        0 <= root <= FRAC_PI_2,
        forall|m: i64, t: Trig|
            0 <= m <= FRAC_PI_2 && #[trigger] trig.ensures((m,), t) ==> (curve.width(
                magnitude_spec(x) as i64,
            ) < product_spec(t.tan as int, magnitude_spec(x)) <==> m > root),
        turns_by(curve, x, toleranz, trig, theta),
    ensures
        x >= 0 ==> theta <= root <= theta + toleranz,
        x < 0 ==> PI - theta <= root <= PI - theta + toleranz,
{
    let reach = magnitude_spec(x);
    let width = curve.width(reach as i64) as int;
    let answers = slope_answers(width, reach, trig);
    assert forall|m: int, y: int| 0 <= m <= FRAC_PI_2 && #[trigger] answers(m, y) implies (y < 0
        <==> m > root) by {
        let t = choose|t: Trig|
            i64::MIN <= m <= i64::MAX && #[trigger] trig.ensures((m as i64,), t) && y
                == difference_spec(width, product_spec(t.tan as int, reach));
        assert(trig.ensures((m as i64,), t));
    }
    lemma_bisection_brackets_root(
        answers,
        0,
        FRAC_PI_2 as int,
        toleranz,
        root,
        if x < 0 {
            PI - theta
        } else {
            theta
        },
    );
}

/// `angles` may be what `trig` gives for the rotation angle `theta`.
pub open spec fn angles_at<T: Fn(i64) -> Trig>(trig: &T, theta: int, angles: Angles) -> bool {
    &&& trig.ensures((theta as i64,), angles.theta)
    &&& trig.ensures((half_spec(theta) as i64,), angles.left)
    &&& trig.ensures((half_spec(sum_spec(theta, PI as int)) as i64,), angles.right)
}

impl Corridor {
    /// This is the corridor at the offset `x` with the trigonometric values
    /// `angles`, for a curve whose support ends at `support`.
    ///
    /// The inner walls pass through the hinge. The outer walls run beside
    /// them at the distance one. The stretches are cut at the hinge, at the
    /// zero of the right inner wall, and at the hinge moved by one in the
    /// direction of `theta`; the last one ends at `1 + support`.
    pub open spec fn is_built(self, x: int, angles: Angles, support: int) -> bool {
        let m = hinge(x, angles);
        let inner_right = wall_through(angles.right.tan as int, m);
        let m_aussen = sum_spec(m.0, angles.theta.cos as int);
        &&& self.innenwand.left == wall_through(angles.left.tan as int, m)
        &&& self.innenwand.right == inner_right
        &&& self.aussenwand.left == outer_left(angles.left, m)
        &&& self.aussenwand.right == outer_right(angles.right, m)
        &&& self.intervals[0] == Interval { lower: 0, upper: m.0 as i64 }
        &&& self.intervals[1] == Interval { lower: m.0 as i64, upper: zero_of(inner_right) as i64 }
        &&& self.intervals[2] == Interval {
            lower: zero_of(inner_right) as i64,
            upper: m_aussen as i64,
        }
        &&& self.intervals[3] == Interval {
            lower: m_aussen as i64,
            upper: sum_spec(ONE as int, support) as i64,
        }
    }

    /// The corridor's slices at the resolution `dx`.
    ///
    /// The first stretch lies between the left walls. Where the moved hinge
    /// does not lie left of the zero of the right inner wall, the second
    /// lies between the right inner and the left outer wall, up to that
    /// zero, and the third between the floor and the left outer wall.
    /// Otherwise the second ends at the moved hinge, and the third lies
    /// between the right walls, up to the zero. The last stretch lies
    /// between the floor and the right outer wall.
    pub open spec fn lines(self, dx: int) -> Seq<Line> {
        let x_aussen = self.intervals[2].upper as int;
        let nullstelle = self.intervals[1].upper as int;
        let inner = self.innenwand;
        let outer = self.aussenwand;
        let x0 = self.intervals[0].lower as int;
        let end1 = self.intervals[0].upper as int;
        let x1 = stretch_end(x0, end1, dx);
        let end4 = self.intervals[3].upper as int;
        if x_aussen >= nullstelle {
            let x2 = stretch_end(x1, nullstelle, dx);
            let x3 = stretch_end(x2, x_aussen, dx);
            stretch(inner.left, outer.left, x0, end1, dx) + stretch(
                inner.right,
                outer.left,
                x1,
                nullstelle,
                dx,
            ) + stretch(floor(), outer.left, x2, x_aussen, dx) + stretch(
                floor(),
                outer.right,
                x3,
                end4,
                dx,
            )
        } else {
            let x2 = stretch_end(x1, x_aussen, dx);
            let x3 = stretch_end(x2, nullstelle, dx);
            stretch(inner.left, outer.left, x0, end1, dx) + stretch(
                inner.right,
                outer.left,
                x1,
                x_aussen,
                dx,
            ) + stretch(inner.right, outer.right, x2, nullstelle, dx) + stretch(
                floor(),
                outer.right,
                x3,
                end4,
                dx,
            )
        }
    }

    /// This may be the corridor at the offset `x` for `curve`, whose support
    /// ends at `support`, under the trigonometry of `trig`.
    pub open spec fn fits<E: Curve, T: Fn(i64) -> Trig>(
        self,
        curve: &E,
        x: int,
        support: int,
        trig: &T,
    ) -> bool {
        exists|theta: i64, angles: Angles|
            turns_by(curve, x, TOLERANCE as int, trig, theta as int) && #[trigger] angles_at(
                trig,
                theta as int,
                angles,
            ) && self.is_built(x, angles, support)
    }

    /// Builds the corridor at the offset `x` for `curve`, whose support is
    /// `curve_interval`. The rotation angle is resolved within `TOLERANCE`;
    /// `trig` gives the sine, cosine and tangent of an angle.
    pub fn new<E: Curve, T: Fn(i64) -> Trig>(
        curve: &E,
        x: i64,
        curve_interval: &Interval,
        trig: &T,
    ) -> (r: Result<Self, SofaError>)
        requires
            curve.valid(),
            forall|a: i64| trig.requires((a,)),
        ensures
            r matches Ok(c) && c.fits(curve, x as int, curve_interval.upper as int, trig),
    {
        let theta: i64 = match Self::calculate_theta(curve, x, TOLERANCE, trig) {
            Ok(theta) => theta,
            Err(e) => { return Err(e); },
        };
        let angles = Angles {
            theta: trig(theta),
            left: trig(half(theta)),
            right: trig(half(sum(theta, PI))),
        };
        assert(angles_at(trig, theta as int, angles));
        Ok(Self::from_angles(x, angles, curve_interval.upper))
    }

    /// Resolves the rotation angle of the corridor at the offset `x`, within
    /// `toleranz`: the angle whose tangent, over the magnitude of `x`, rises
    /// to the width of `curve` there. For a negative `x` the angle is
    /// mirrored about the quarter turn.
    pub fn calculate_theta<E: Curve, T: Fn(i64) -> Trig>(
        curve: &E,
        x: i64,
        toleranz: i64,
        trig: &T,
    ) -> (r: Result<i64, SofaError>)
        requires
            curve.valid(),
            toleranz >= 1,
            forall|a: i64| trig.requires((a,)),
        ensures
            r matches Ok(theta) && 0 <= theta <= PI && turns_by(
                curve,
                x as int,
                toleranz as int,
                trig,
                theta as int,
            ),
    {
        let reach: i64 = magnitude(x);
        let curve_y: i64 = curve.f(reach);
        let probe = |theta: i64| -> (y: i64)
            ensures
                exists|t: Trig| #[trigger]
                    trig.ensures((theta,), t) && y == difference_spec(
                        curve_y as int,
                        product_spec(t.tan as int, reach as int),
                    ),
            {
                let t = trig(theta);
                difference(curve_y, product(t.tan, reach))
            };
        match solve(Interval { lower: 0, upper: FRAC_PI_2 }, toleranz, &probe) {
            Ok(found) => {
                proof {
                    let wide = slope_answers(curve_y as int, reach as int, trig);
                    lemma_bisects_to_widens(
                        answers_of(&probe),
                        wide,
                        0,
                        FRAC_PI_2 as int,
                        toleranz as int,
                        found as int,
                    );
                    lemma_bisects_within(wide, 0, FRAC_PI_2 as int, toleranz as int, found as int);
                }
                Ok(
                    if x < 0 {
                        PI - found
                    } else {
                        found
                    },
                )
            },
            Err(e) => Err(e),
        }
    }

    /// Builds the corridor at the offset `x` from the trigonometric values
    /// of its rotation angle, for a curve whose support ends at `support`.
    pub fn from_angles(x: i64, angles: Angles, support: i64) -> (c: Self)
        ensures
            c.is_built(x as int, angles, support as int),
    {
        let m = Point { x, y: product(angles.theta.tan, x) };
        let tan_left: i64 = angles.left.tan;
        let tan_right: i64 = angles.right.tan;

        let wi_left = Linear::new(tan_left, sum(product(negate(tan_left), m.x), m.y));
        let wi_right = Linear::new(tan_right, sum(product(negate(tan_right), m.x), m.y));

        let wa_left = Linear::new(
            tan_left,
            sum(
                sum(
                    sum(product(negate(tan_left), m.x), product(tan_left, angles.left.sin)),
                    m.y,
                ),
                angles.left.cos,
            ),
        );
        let wa_right = Linear::new(
            tan_right,
            difference(
                sum(
                    difference(
                        product(negate(tan_right), m.x),
                        product(tan_right, angles.right.sin),
                    ),
                    m.y,
                ),
                angles.right.cos,
            ),
        );

        let nullstelle_innen: i64 = quotient(negate(wi_right.c), wi_right.m);
        let m_aussen = Point { x: sum(m.x, angles.theta.cos), y: sum(m.y, angles.theta.sin) };

        let i1 = Interval { lower: 0, upper: m.x };
        let i2 = Interval { lower: m.x, upper: nullstelle_innen };
        let i3 = Interval { lower: nullstelle_innen, upper: m_aussen.x };
        let i4 = Interval { lower: m_aussen.x, upper: sum(ONE, support) };

        Self {
            aussenwand: Envelope { left: wa_left, right: wa_right },
            innenwand: Envelope { left: wi_left, right: wi_right },
            intervals: [i1, i2, i3, i4],
        }
    }

    /// The corridor's slices at the resolution `dx`, from the offset zero
    /// to the end of the last stretch.
    pub fn get_lines(&self, dx: i64) -> (lines: Vec<Line>)
        requires
            dx >= 1,
        ensures
            lines@ == self.lines(dx as int),
    {
        let mut lines: Vec<Line> = Vec::new();
        let zero = Linear::new(0, 0);

        let x_aussen: i64 = self.intervals[2].upper;
        let nullstelle: i64 = self.intervals[1].upper;

        let mut x: i64 = self.intervals[0].lower;
        x = extend(
            &mut lines,
            &self.innenwand.left,
            &self.aussenwand.left,
            x,
            self.intervals[0].upper,
            dx,
        );
        if x_aussen >= nullstelle {
            x = extend(&mut lines, &self.innenwand.right, &self.aussenwand.left, x, nullstelle, dx);
            x = extend(&mut lines, &zero, &self.aussenwand.left, x, x_aussen, dx);
        } else {
            x = extend(&mut lines, &self.innenwand.right, &self.aussenwand.left, x, x_aussen, dx);
            x = extend(&mut lines, &self.innenwand.right, &self.aussenwand.right, x, nullstelle, dx);
        }
        x = extend(&mut lines, &zero, &self.aussenwand.right, x, self.intervals[3].upper, dx);
        lines
    }
}

/// Appends the slices of one stretch to `lines`, and returns the position at
/// which the next stretch begins.
fn extend(lines: &mut Vec<Line>, lower: &Linear, upper: &Linear, x: i64, end: i64, dx: i64) -> (next:
    i64)
    requires
        dx >= 1,
    ensures
        final(lines)@ == old(lines)@ + stretch(*lower, *upper, x as int, end as int, dx as int),
        next == stretch_end(x as int, end as int, dx as int),
{
    let mut at: i64 = x;
    while at < end
        invariant
            dx >= 1,
            old(lines)@ + stretch(*lower, *upper, x as int, end as int, dx as int) == lines@
                + stretch(*lower, *upper, at as int, end as int, dx as int),
            stretch_end(x as int, end as int, dx as int) == stretch_end(
                at as int,
                end as int,
                dx as int,
            ),
        decreases
                if at < end {
                    end - at
                } else {
                    0
                },
    {
        let ghost before = lines@;
        lines.push(Line { min: lower.f(at), max: upper.f(at) });
        proof {
            let rest = stretch(*lower, *upper, sum_spec(at as int, dx as int), end as int, dx as int);
            assert(before + (seq![lines@[before.len() as int]] + rest) =~= lines@ + rest);
        }
        at = sum(at, dx);
    }
    at
}

/// The interval in which the end of a curve's support is searched.
pub open spec fn unit_interval() -> Interval {
    Interval { lower: 0, upper: ONE }
}

/// `lines`, each narrowed to what it has in common with the slice of `by`
/// at the same index.
pub open spec fn cut(lines: Seq<Line>, by: Seq<Line>) -> Seq<Line> {
    Seq::new(lines.len(), |i: int| lines[i].shrink_spec(by[i]))
}

/// The offset of the step `k` of a sweep that starts at `start` and
/// advances by `r_dx`.
pub open spec fn position(start: int, r_dx: int, k: int) -> int
    decreases k,
{
    if k <= 0 {
        start
    } else {
        sum_spec(position(start, r_dx, k - 1), r_dx)
    }
}

/// `lines` after the slices of the first `n` corridors of `sweep` have been
/// cut out of them.
pub open spec fn swept(lines: Seq<Line>, sweep: Seq<Corridor>, dx: int, n: nat) -> Seq<Line>
    decreases n,
{
    if n == 0 {
        lines
    } else {
        cut(swept(lines, sweep, dx, (n - 1) as nat), sweep[n - 1].lines(dx))
    }
}

/// The sum of the areas between the first `n` pairs of neighbours among
/// `lines`, each slice clamped to a length that is not negative.
pub open spec fn area_sum(lines: Seq<Line>, dx: int, n: nat) -> int
    decreases n,
{
    if n == 0 {
        0
    } else {
        sum_spec(
            area_sum(lines, dx, (n - 1) as nat),
            lines[n - 1].clamped_spec().area_between_spec(lines[n as int].clamped_spec(), dx),
        )
    }
}

/// The area between two slices of lengths that are not negative is not
/// negative.
pub proof fn lemma_area_between_clamped(a: Line, b: Line, dx: int)
    requires
        dx >= 0,
    ensures
        a.clamped_spec().area_between_spec(b.clamped_spec(), dx) >= 0,
{
    let h = half_spec(
        sum_spec(magnitude_spec(a.clamped_spec().length_spec()), b.clamped_spec().length_spec()),
    );
    assert(h * dx >= 0) by (nonlinear_arith)
        requires
            h >= 0,
            dx >= 0,
    ;
}

/// The silhouette that fits through every corridor of a curve: one half of
/// it, in slices at the distance `dx` from the offset zero on.
pub struct Sofa<E: Curve> {
    pub curve: E,
    pub best_lines: Vec<Line>,
    pub curve_interval: Interval,
    pub dx: i64,
}

impl<E: Curve> Sofa<E> {
    /// The curve can be evaluated and the slices lie a positive distance
    /// apart.
    pub open spec fn wf(&self) -> bool {
        self.curve.valid() && self.dx >= 1
    }

    /// The area of the whole silhouette: twice the area under its slices.
    pub open spec fn area(&self) -> int {
        let pairs = if self.best_lines@.len() > 0 {
            (self.best_lines@.len() - 1) as nat
        } else {
            0
        };
        let half_area = area_sum(self.best_lines@, self.dx as int, pairs);
        sum_spec(half_area, half_area)
    }

    /// This is a first silhouette for `curve` at the resolution `dx`: the
    /// support reaches from the root that the curve finds in the unit
    /// interval, negated, to that root, and the slices are those of a
    /// corridor at the lower end of the support.
    pub open spec fn starts<T: Fn(i64) -> Trig>(&self, curve: E, dx: i64, trig: &T) -> bool {
        &&& curve.support(unit_interval(), TOLERANCE) matches Ok(root)
        &&& self.curve == curve
        &&& self.dx == dx
        &&& self.curve_interval == Interval { lower: negate_spec(root as int) as i64, upper: root }
        &&& exists|c: Corridor| #[trigger]
            c.fits(&curve, negate_spec(root as int), root as int, trig) && self.best_lines@
                == c.lines(dx as int)
    }

    /// `sweep` holds the corridors of a sweep over the support in steps of
    /// `r_dx` that turns the silhouette `before` into this one with the
    /// outcome `r`. Every corridor stands at its step's offset, which lies
    /// below the end of the support. A sweep that succeeds has a corridor
    /// for every such offset, each with as many slices as the silhouette,
    /// and all are cut out. One that fails ends with the first corridor
    /// whose number of slices differs; those before it are cut out.
    pub open spec fn swept_from<T: Fn(i64) -> Trig>(
        &self,
        before: Seq<Line>,
        sweep: Seq<Corridor>,
        r_dx: int,
        trig: &T,
        r: Result<(), SofaError>,
    ) -> bool {
        let lower = self.curve_interval.lower as int;
        let upper = self.curve_interval.upper as int;
        let dx = self.dx as int;
        let cuts = match r {
            Ok(_) => sweep.len(),
            Err(_) => (sweep.len() - 1) as nat,
        };
        &&& forall|k: int| 0 <= k < sweep.len() ==> #[trigger] position(lower, r_dx, k) < upper
        &&& forall|k: int|
            0 <= k < sweep.len() ==> (#[trigger] sweep[k]).fits(
                &self.curve,
                position(lower, r_dx, k),
                upper,
                trig,
            )
        &&& forall|k: int| 0 <= k < cuts ==> (#[trigger] sweep[k]).lines(dx).len() == before.len()
        &&& self.best_lines@ == swept(before, sweep, dx, cuts)
        &&& match r {
            Ok(_) => position(lower, r_dx, sweep.len() as int) >= upper,
            Err(e) => e == SofaError::SamplingMismatch && sweep.len() > 0 && sweep.last().lines(
                dx,
            ).len() != before.len(),
        }
    }

    /// This silhouette is what a sweep in steps of `r_dx` with the outcome
    /// `r` leaves of `before`: curve, support and resolution are the same,
    /// and the slices are cut by the corridors of some such sweep.
    pub open spec fn cut_from<T: Fn(i64) -> Trig>(
        &self,
        before: Self,
        r_dx: int,
        trig: &T,
        r: Result<(), SofaError>,
    ) -> bool {
        &&& self.curve == before.curve
        &&& self.curve_interval == before.curve_interval
        &&& self.dx == before.dx
        &&& exists|sweep: Seq<Corridor>| #[trigger]
            self.swept_from(before.best_lines@, sweep, r_dx, trig, r)
    }

    /// Finds the support of `curve` and takes the slices of the corridor at
    /// its lower end, at the resolution `dx`, as the first silhouette. The
    /// end of the support is searched in the unit interval, within
    /// `TOLERANCE`; the construction fails where that search does.
    pub fn new<T: Fn(i64) -> Trig>(curve: E, dx: i64, trig: &T) -> (r: Result<Self, SofaError>)
        requires
            curve.valid(),
            dx >= 1,
            forall|a: i64| trig.requires((a,)),
        ensures
            match r {
                Ok(sofa) => sofa.wf() && sofa.starts(curve, dx, trig),
                Err(e) => curve.support(unit_interval(), TOLERANCE) == Err::<i64, SofaError>(e),
            },
    {
        let nullstelle: i64 = match curve.nullstelle(Interval { lower: 0, upper: ONE }, TOLERANCE) {
            Ok(root) => root,
            Err(e) => { return Err(e); },
        };
        let curve_interval = Interval { lower: negate(nullstelle), upper: nullstelle };

        let corridor = match Corridor::new(&curve, curve_interval.lower, &curve_interval, trig) {
            Ok(corridor) => corridor,
            Err(e) => { return Err(e); },
        };
        let best_lines = corridor.get_lines(dx);

        Ok(Self { curve, best_lines, curve_interval, dx })
    }

    /// The area of the silhouette as it stands: the trapezoids between
    /// neighbouring slices, summed and doubled for the mirrored half. A
    /// degenerate slice counts with the length zero.
    pub fn calculate_area(&self) -> (area: i64)
        ensures
            area == self.area(),
            self.dx >= 0 ==> area >= 0,
    {
        let n: usize = self.best_lines.len();
        let mut total_area: i64 = 0;
        let mut i: usize = 0;
        while i + 1 < n
            invariant
                n == self.best_lines@.len(),
                i <= n,
                n > 0 ==> i < n,
                total_area == area_sum(self.best_lines@, self.dx as int, i as nat),
                self.dx >= 0 ==> total_area >= 0,
            decreases n - i,
        {
            let left = self.best_lines[i].clamped();
            let right = self.best_lines[i + 1].clamped();
            proof {
                if self.dx >= 0 {
                    lemma_area_between_clamped(
                        self.best_lines@[i as int],
                        self.best_lines@[i + 1],
                        self.dx as int,
                    );
                }
            }
            total_area = sum(total_area, left.area_between(&right, self.dx));
            i += 1;
        }
        sum(total_area, total_area)
    }

    /// Sweeps the corridor over the support of the curve, from its lower
    /// end while the offset lies below its upper end, in steps of `r_dx`,
    /// and cuts each corridor out of the silhouette. The sweep stops at the
    /// first corridor that has another number of slices than the
    /// silhouette.
    pub fn cutout<T: Fn(i64) -> Trig>(&mut self, r_dx: i64, trig: &T) -> (r: Result<(), SofaError>)
        requires
            old(self).wf(),
            r_dx >= 1,
            forall|a: i64| trig.requires((a,)),
        ensures
            final(self).wf(),
            final(self).cut_from(*old(self), r_dx as int, trig, r),
            final(self).best_lines@.len() == old(self).best_lines@.len(),
            forall|i: int|
                0 <= i < old(self).best_lines@.len() ==> old(self).best_lines@[i].min <= (
                #[trigger] final(self).best_lines@[i]).min && final(self).best_lines@[i].max <= old(
                    self,
                ).best_lines@[i].max,
    {
        let ghost before = self.best_lines@;
        let ghost curve = self.curve;
        let ghost lower = self.curve_interval.lower as int;
        let ghost upper = self.curve_interval.upper as int;
        let ghost dx = self.dx as int;
        let ghost mut sweep: Seq<Corridor> = Seq::empty();
        let mut x: i64 = self.curve_interval.lower;
        while x < self.curve_interval.upper
            invariant
                self.wf(),
                r_dx >= 1,
                forall|a: i64| trig.requires((a,)),
                self.curve == curve,
                self.curve_interval == old(self).curve_interval,
                self.dx == old(self).dx,
                curve == old(self).curve,
                lower == self.curve_interval.lower,
                upper == self.curve_interval.upper,
                dx == self.dx,
                before == old(self).best_lines@,
                self.best_lines@.len() == before.len(),
                forall|i: int|
                    0 <= i < before.len() ==> before[i].min <= (#[trigger] self.best_lines@[i]).min
                        && self.best_lines@[i].max <= before[i].max,
                x == position(lower, r_dx as int, sweep.len() as int),
                forall|k: int|
                    0 <= k < sweep.len() ==> #[trigger] position(lower, r_dx as int, k) < upper,
                forall|k: int|
                    0 <= k < sweep.len() ==> (#[trigger] sweep[k]).fits(
                        &curve,
                        position(lower, r_dx as int, k),
                        upper,
                        trig,
                    ),
                forall|k: int|
                    0 <= k < sweep.len() ==> (#[trigger] sweep[k]).lines(dx).len() == before.len(),
                self.best_lines@ == swept(before, sweep, dx, sweep.len()),
            decreases
                    if x < self.curve_interval.upper {
                        self.curve_interval.upper - x
                    } else {
                        0
                    },
        {
            let corridor = match Corridor::new(&self.curve, x, &self.curve_interval, trig) {
                Ok(corridor) => corridor,
                Err(e) => { return Err(e); },
            };
            let ghost earlier = sweep;
            let ghost lines_earlier = self.best_lines@;
            proof {
                sweep = earlier.push(corridor);
                assert(corridor.fits(&curve, x as int, upper, trig));
            }
            let step = self.cutout_corridor(&corridor);
            proof {
                lemma_swept_prefix(before, earlier, sweep, dx, earlier.len());
                assert(sweep.last() == corridor);
                assert forall|k: int| 0 <= k < sweep.len() implies (#[trigger] sweep[k]).fits(
                    &curve,
                    position(lower, r_dx as int, k),
                    upper,
                    trig,
                ) by {
                    if k < earlier.len() {
                        assert(sweep[k] == earlier[k]);
                    }
                }
                assert forall|k: int| 0 <= k < earlier.len() implies (#[trigger] sweep[k]).lines(
                    dx,
                ).len() == before.len() by {
                    assert(sweep[k] == earlier[k]);
                }
            }
            if let Err(e) = step {
                assert(self.swept_from(before, sweep, r_dx as int, trig, Err(e)));
                return Err(e);
            }
            x = sum(x, r_dx);
        }
        assert(self.swept_from(before, sweep, r_dx as int, trig, Ok(())));
        Ok(())
    }

    /// Cuts the slices of `corridor` out of the silhouette: each slice is
    /// narrowed to what it has in common with the corridor's slice at the
    /// same index. A corridor with another number of slices than the
    /// silhouette is refused, and the silhouette stays as it is.
    pub fn cutout_corridor(&mut self, corridor: &Corridor) -> (r: Result<(), SofaError>)
        requires
            old(self).dx >= 1,
        ensures
            final(self).curve == old(self).curve,
            final(self).curve_interval == old(self).curve_interval,
            final(self).dx == old(self).dx,
            match r {
                Ok(_) => corridor.lines(old(self).dx as int).len() == old(self).best_lines@.len()
                    && final(self).best_lines@ == cut(
                    old(self).best_lines@,
                    corridor.lines(old(self).dx as int),
                ),
                Err(e) => e == SofaError::SamplingMismatch && corridor.lines(
                    old(self).dx as int,
                ).len() != old(self).best_lines@.len() && final(self).best_lines@ == old(
                    self,
                ).best_lines@,
            },
    {
        let cutout = corridor.get_lines(self.dx);
        if cutout.len() != self.best_lines.len() {
            return Err(SofaError::SamplingMismatch);
        }
        let n: usize = self.best_lines.len();
        let mut i: usize = 0;
        while i < n
            invariant
                i <= n,
                n == cutout@.len(),
                n == self.best_lines@.len(),
                n == old(self).best_lines@.len(),
                self.curve == old(self).curve,
                self.curve_interval == old(self).curve_interval,
                self.dx == old(self).dx,
                forall|j: int|
                    0 <= j < i ==> #[trigger] self.best_lines@[j] == old(
                        self,
                    ).best_lines@[j].shrink_spec(cutout@[j]),
                forall|j: int|
                    i <= j < n ==> #[trigger] self.best_lines@[j] == old(self).best_lines@[j],
            decreases n - i,
        {
            let mut line = self.best_lines[i];
            line.shrink(&cutout[i]);
            self.best_lines.set(i, line);
            i += 1;
        }
        Ok(())
    }
}

/// What has been cut out after `n` corridors does not depend on the
/// corridors that follow them.
pub proof fn lemma_swept_prefix(
    lines: Seq<Line>,
    sweep: Seq<Corridor>,
    longer: Seq<Corridor>,
    dx: int,
    n: nat,
)
    requires
        n <= sweep.len() <= longer.len(),
        forall|k: int| 0 <= k < sweep.len() ==> sweep[k] == longer[k],
    ensures
        swept(lines, longer, dx, n) == swept(lines, sweep, dx, n),
    decreases n,
{
    if n > 0 {
        lemma_swept_prefix(lines, sweep, longer, dx, (n - 1) as nat);
    }
}

/// The area under slices that lie a distance apart that is not negative is
/// not negative.
pub proof fn lemma_area_sum_not_negative(lines: Seq<Line>, dx: int, n: nat)
    requires
        dx >= 0,
    ensures
        area_sum(lines, dx, n) >= 0,
    decreases n,
{
    if n > 0 {
        lemma_area_sum_not_negative(lines, dx, (n - 1) as nat);
        lemma_area_between_clamped(lines[n - 1], lines[n as int], dx);
    }
}

/// The area of a silhouette is not negative, whatever its slices are.
pub proof fn lemma_area_not_negative<E: Curve>(sofa: Sofa<E>)
    requires
        sofa.dx >= 0,
    ensures
        sofa.area() >= 0,
{
    let pairs = if sofa.best_lines@.len() > 0 {
        (sofa.best_lines@.len() - 1) as nat
    } else {
        0
    };
    lemma_area_sum_not_negative(sofa.best_lines@, sofa.dx as int, pairs);
}

/// The area of a silhouette depends on its slices and their distance alone:
/// measured again, an unchanged silhouette has the same area.
pub proof fn lemma_area_is_repeatable<E: Curve>(a: Sofa<E>, b: Sofa<E>)
    requires
        a.best_lines@ == b.best_lines@,
        a.dx == b.dx,
    ensures
        a.area() == b.area(),
{
}

} // verus!
