//! Points and vectors of the plane, in fixed-point decimal coordinates.

use vstd::prelude::*;
use vstd::string::*;
use crate::decimal::{exact_quotient, exact_sum, is_valid, lemma_pow10_positive, lemma_units_of_whole, minus, over, plus, pow10, spec_minus, spec_over, spec_plus, spec_times, times, Decimal, MAX_SCALE};
use crate::errors::{SierpinskiError, SierpinskiResult};

verus! {

/// A point of the plane.
#[derive(Debug, Clone, Copy, PartialEq)]
pub struct Point {
    pub x: Decimal,
    pub y: Decimal,
}

/// A vector of the plane.
#[derive(Debug, Clone, Copy, PartialEq)]
pub struct Vector2D {
    pub x: Decimal,
    pub y: Decimal,
}

/// The most rounds of Newton's method a square root takes.
pub const SQRT_ROUNDS: u32 = 50;

/// The decimal two.
pub open spec fn two() -> Decimal {
    Decimal::from_pair(2, 0)
}

/// The decimal three.
pub open spec fn three() -> Decimal {
    Decimal::from_pair(3, 0)
}

/// Below this, twice the area spanned by three points counts as zero: 10^-10.
pub open spec fn collinear_threshold() -> Decimal {
    Decimal::from_pair(1, 10)
}

/// Two successive square-root guesses closer than this end the iteration:
/// 10^-15.
pub open spec fn sqrt_precision() -> Decimal {
    Decimal::from_pair(1, 15)
}

/// The result of a decimal computation: its value, or an overflow error
/// where some step left the representable range.
pub open spec fn settled(value: Option<Decimal>) -> SierpinskiResult<Decimal> {
    match value {
        Some(v) => Ok(v),
        None => Err(SierpinskiError::ArithmeticOverflow),
    }
}

/// The point half way between `a` and `b`, each coordinate being the sum
/// divided by two.
pub open spec fn spec_midpoint(a: Point, b: Point) -> Option<Point> {
    match (
        spec_over(a.x.spec_add(b.x), Some(two())),
        spec_over(a.y.spec_add(b.y), Some(two())),
    ) {
        (Some(x), Some(y)) => Some(Point { x, y }),
        _ => None,
    }
}

/// The cross product of the vectors from `origin` to `p1` and to `p2`.
pub open spec fn spec_cross_product(origin: Point, p1: Point, p2: Point) -> Option<Decimal> {
    let v1x = p1.x.spec_sub(origin.x);
    let v1y = p1.y.spec_sub(origin.y);
    let v2x = p2.x.spec_sub(origin.x);
    let v2y = p2.y.spec_sub(origin.y);
    spec_minus(spec_times(v1x, v2y), spec_times(v1y, v2x))
}

/// Twice the signed area spanned by three points, by the shoelace formula.
pub open spec fn spec_doubled_area(p1: Point, p2: Point, p3: Point) -> Option<Decimal> {
    let first = spec_times(Some(p1.x), p2.y.spec_sub(p3.y));
    let second = spec_times(Some(p2.x), p3.y.spec_sub(p1.y));
    let third = spec_times(Some(p3.x), p1.y.spec_sub(p2.y));
    spec_plus(spec_plus(first, second), third)
}

/// Whether a doubled area is small enough for its points to count as lying
/// on one line.
pub open spec fn below_collinear_threshold(doubled_area: Decimal) -> bool {
    doubled_area.spec_abs().less_than(collinear_threshold())
}

/// Whether three points count as lying on one line; `None` where the area
/// cannot be computed.
pub open spec fn spec_are_collinear(p1: Point, p2: Point, p3: Point) -> Option<bool> {
    match spec_doubled_area(p1, p2, p3) {
        Some(area) => Some(below_collinear_threshold(area)),
        None => None,
    }
}

/// One round of Newton's method for the square root of `value`: the mean of
/// the guess and `value / guess`.
pub open spec fn newton_step(value: Decimal, guess: Decimal) -> Option<Decimal> {
    spec_over(spec_plus(Some(guess), value.spec_div(guess)), Some(two()))
}

/// Whether two successive guesses are close enough to stop; `None` where
/// their difference overflows.
pub open spec fn newton_settled(guess: Decimal, next: Decimal) -> Option<bool> {
    match next.spec_sub(guess) {
        Some(change) => Some(change.spec_abs().less_than(sqrt_precision())),
        None => None,
    }
}

/// Newton's method from `guess`, for at most `rounds` rounds: the first
/// guess that differs from its predecessor by less than the precision, or
/// the last one computed.
pub open spec fn newton_sqrt(value: Decimal, guess: Decimal, rounds: nat) -> Option<Decimal>
    decreases rounds,
{
    if rounds == 0 {
        Some(guess)
    } else {
        match newton_step(value, guess) {
            Some(next) => match newton_settled(guess, next) {
                Some(true) => Some(next),
                Some(false) => newton_sqrt(value, next, (rounds - 1) as nat),
                None => None,
            },
            None => None,
        }
    }
}

/// The square root of `value`: an error for a negative number, zero for
/// zero, and otherwise Newton's method started at half the value.
pub open spec fn spec_sqrt(value: Decimal) -> SierpinskiResult<Decimal> {
    if value.negative() {
        Err(SierpinskiError::ArithmeticOverflow)
    } else if value.spec_mantissa() == 0 {
        Ok(Decimal::from_pair(0, 0))
    } else {
        match value.spec_div(two()) {
            Some(start) => settled(newton_sqrt(value, start, SQRT_ROUNDS as nat)),
            None => Err(SierpinskiError::ArithmeticOverflow),
        }
    }
}

/// The square of the length of the vector `(dx, dy)`.
pub open spec fn spec_squared_length(dx: Option<Decimal>, dy: Option<Decimal>) -> Option<Decimal> {
    spec_plus(spec_times(dx, dx), spec_times(dy, dy))
}

/// The distance between two points.
pub open spec fn spec_distance(a: Point, b: Point) -> SierpinskiResult<Decimal> {
    match spec_squared_length(a.x.spec_sub(b.x), a.y.spec_sub(b.y)) {
        Some(squared) => spec_sqrt(squared),
        None => Err(SierpinskiError::ArithmeticOverflow),
    }
}

/// Turns the outcome of a decimal computation into a result.
pub fn settle(value: Option<Decimal>) -> (r: SierpinskiResult<Decimal>)
    ensures
        r == settled(value),
{
    match value {
        Some(v) => Ok(v),
        None => Err(SierpinskiError::ArithmeticOverflow),
    }
}

/// The square root of `value` by Newton's method.
///
/// Fails with `ArithmeticOverflow` for a negative number and where a step
/// of the iteration overflows.
pub fn sqrt(value: Decimal) -> (r: SierpinskiResult<Decimal>)
    ensures
        r == spec_sqrt(value),
{
    if value.is_negative() {
        return Err(SierpinskiError::ArithmeticOverflow);
    }
    if value.is_zero() {
        return Ok(Decimal::zero());
    }
    let half = Decimal::from_int(2);
    let precision = Decimal::new(1, 15);
    let start = match value.checked_div(half) {
        Some(s) => s,
        None => {
            return Err(SierpinskiError::ArithmeticOverflow);
        },
    };
    let mut guess = start;
    let mut round: u32 = 0;
    while round < SQRT_ROUNDS
        invariant
            round <= SQRT_ROUNDS,
            half == two(),
            !value.negative(),
            value.spec_mantissa() != 0,
            value.spec_div(two()) == Some(start),
            precision == sqrt_precision(),
            newton_sqrt(value, start, SQRT_ROUNDS as nat) == newton_sqrt(
                value,
                guess,
                (SQRT_ROUNDS - round) as nat,
            ),
        decreases SQRT_ROUNDS - round,
    {
        let next = match over(plus(Some(guess), value.checked_div(guess)), Some(half)) {
            Some(n) => n,
            None => {
                return Err(SierpinskiError::ArithmeticOverflow);
            },
        };
        let change = match next.checked_sub(guess) {
            Some(c) => c,
            None => {
                return Err(SierpinskiError::ArithmeticOverflow);
            },
        };
        if change.abs().lt(&precision) {
            return Ok(next);
        }
        guess = next;
        round = round + 1;
    }
    Ok(guess)
}

/// The text of a point: its coordinates in round brackets.
pub open spec fn point_text(p: Point) -> Seq<char> {
    "("@ + p.x.spec_text() + ", "@ + p.y.spec_text() + ")"@
}

impl Point {
    /// The text of the point: its coordinates in round brackets.
    pub fn to_text(&self) -> (r: String)
        ensures
            r@ == point_text(*self),
    {
        let x = self.x.to_text();
        let y = self.y.to_text();
        crate::text::join5("(", x.as_str(), ", ", y.as_str(), ")")
    }

    /// The point with the given coordinates.
    pub fn new(x: Decimal, y: Decimal) -> (p: Point)
        ensures
            p == (Point { x, y }),
    {
        Point { x, y }
    }

    /// The distance to `other`.
    ///
    /// Fails with `ArithmeticOverflow` where the squared distance or a step
    /// of the square root overflows.
    pub fn distance_to(&self, other: &Point) -> (r: SierpinskiResult<Decimal>)
        ensures
            r == spec_distance(*self, *other),
    {
        let dx = self.x.checked_sub(other.x);
        let dy = self.y.checked_sub(other.y);
        match plus(times(dx, dx), times(dy, dy)) {
            Some(squared) => sqrt(squared),
            None => Err(SierpinskiError::ArithmeticOverflow),
        }
    }

    /// The point half way to `other`.
    ///
    /// Fails with `ArithmeticOverflow` where a coordinate sum overflows.
    pub fn midpoint(&self, other: &Point) -> (r: SierpinskiResult<Point>)
        ensures
            match spec_midpoint(*self, *other) {
                Some(p) => r == Ok::<Point, SierpinskiError>(p),
                None => r == Err::<Point, SierpinskiError>(SierpinskiError::ArithmeticOverflow),
            },
    {
        let two = Decimal::from_int(2);
        let x = over(self.x.checked_add(other.x), Some(two));
        let y = over(self.y.checked_add(other.y), Some(two));
        match (x, y) {
            (Some(x), Some(y)) => Ok(Point { x, y }),
            _ => Err(SierpinskiError::ArithmeticOverflow),
        }
    }

    /// Whether the three points count as lying on one line: whether twice
    /// the area they span is below 10^-10 in absolute value.
    ///
    /// Fails with `ArithmeticOverflow` where the area overflows.
    pub fn are_collinear(p1: &Point, p2: &Point, p3: &Point) -> (r: SierpinskiResult<bool>)
        ensures
            match spec_are_collinear(*p1, *p2, *p3) {
                Some(b) => r == Ok::<bool, SierpinskiError>(b),
                None => r == Err::<bool, SierpinskiError>(SierpinskiError::ArithmeticOverflow),
            },
    {
        let first = times(Some(p1.x), p2.y.checked_sub(p3.y));
        let second = times(Some(p2.x), p3.y.checked_sub(p1.y));
        let third = times(Some(p3.x), p1.y.checked_sub(p2.y));
        match plus(plus(first, second), third) {
            Some(area) => Ok(Point::is_below_collinear_threshold(area)),
            None => Err(SierpinskiError::ArithmeticOverflow),
        }
    }

    /// Whether a doubled area is below the collinearity threshold of
    /// 10^-10 in absolute value.
    pub fn is_below_collinear_threshold(doubled_area: Decimal) -> (r: bool)
        ensures
            r == below_collinear_threshold(doubled_area),
    {
        let threshold = Decimal::new(1, 10);
        doubled_area.abs().lt(&threshold)
    }

    /// The cross product of the vectors from this point to `p1` and to `p2`.
    ///
    /// Fails with `ArithmeticOverflow` where a step overflows.
    pub fn cross_product(&self, p1: &Point, p2: &Point) -> (r: SierpinskiResult<Decimal>)
        ensures
            r == settled(spec_cross_product(*self, *p1, *p2)),
    {
        let v1x = p1.x.checked_sub(self.x);
        let v1y = p1.y.checked_sub(self.y);
        let v2x = p2.x.checked_sub(self.x);
        let v2y = p2.y.checked_sub(self.y);
        settle(minus(times(v1x, v2y), times(v1y, v2x)))
    }

    /// The square root of `value` by Newton's method; the point plays no
    /// part in it.
    pub fn decimal_sqrt(&self, value: Decimal) -> (r: SierpinskiResult<Decimal>)
        ensures
            r == spec_sqrt(value),
    {
        sqrt(value)
    }
}

impl Vector2D {
    /// The length of the vector.
    pub open spec fn spec_magnitude(self) -> SierpinskiResult<Decimal> {
        match spec_squared_length(Some(self.x), Some(self.y)) {
            Some(squared) => spec_sqrt(squared),
            None => Err(SierpinskiError::ArithmeticOverflow),
        }
    }

    /// The vector from `from` to `to`.
    pub open spec fn spec_from_points(from: Point, to: Point) -> Option<Vector2D> {
        match (to.x.spec_sub(from.x), to.y.spec_sub(from.y)) {
            (Some(x), Some(y)) => Some(Vector2D { x, y }),
            _ => None,
        }
    }

    /// The dot product.
    pub open spec fn spec_dot(self, other: Vector2D) -> Option<Decimal> {
        spec_plus(self.x.spec_mul(other.x), self.y.spec_mul(other.y))
    }

    /// The vector scaled to unit length.
    pub open spec fn spec_normalize(self) -> SierpinskiResult<Vector2D> {
        match self.spec_magnitude() {
            Ok(length) => if length.spec_mantissa() == 0 {
                Err(SierpinskiError::ArithmeticOverflow)
            } else {
                match (self.x.spec_div(length), self.y.spec_div(length)) {
                    (Some(x), Some(y)) => Ok(Vector2D { x, y }),
                    _ => Err(SierpinskiError::ArithmeticOverflow),
                }
            },
            Err(e) => Err(e),
        }
    }

    /// The vector with the given components.
    pub fn new(x: Decimal, y: Decimal) -> (v: Vector2D)
        ensures
            v == (Vector2D { x, y }),
    {
        Vector2D { x, y }
    }

    /// The vector from `from` to `to`.
    ///
    /// Fails with `ArithmeticOverflow` where a difference overflows.
    pub fn from_points(from: &Point, to: &Point) -> (r: SierpinskiResult<Vector2D>)
        ensures
            match Vector2D::spec_from_points(*from, *to) {
                Some(v) => r == Ok::<Vector2D, SierpinskiError>(v),
                None => r == Err::<Vector2D, SierpinskiError>(SierpinskiError::ArithmeticOverflow),
            },
    {
        match (to.x.checked_sub(from.x), to.y.checked_sub(from.y)) {
            (Some(x), Some(y)) => Ok(Vector2D { x, y }),
            _ => Err(SierpinskiError::ArithmeticOverflow),
        }
    }

    /// The length of the vector.
    pub fn magnitude(&self) -> (r: SierpinskiResult<Decimal>)
        ensures
            r == self.spec_magnitude(),
    {
        match plus(self.x.checked_mul(self.x), self.y.checked_mul(self.y)) {
            Some(squared) => sqrt(squared),
            None => Err(SierpinskiError::ArithmeticOverflow),
        }
    }

    /// The vector scaled to unit length.
    ///
    /// Fails with `ArithmeticOverflow` for a vector of length zero and where
    /// a step overflows.
    pub fn normalize(&self) -> (r: SierpinskiResult<Vector2D>)
        ensures
            r == self.spec_normalize(),
    {
        let length = self.magnitude()?;
        if length.is_zero() {
            return Err(SierpinskiError::ArithmeticOverflow);
        }
        match (self.x.checked_div(length), self.y.checked_div(length)) {
            (Some(x), Some(y)) => Ok(Vector2D { x, y }),
            _ => Err(SierpinskiError::ArithmeticOverflow),
        }
    }

    /// The dot product with `other`.
    pub fn dot(&self, other: &Vector2D) -> (r: SierpinskiResult<Decimal>)
        ensures
            r == settled(self.spec_dot(*other)),
    {
        settle(plus(self.x.checked_mul(other.x), self.y.checked_mul(other.y)))
    }
}

/// Whether the midpoint of `a` and `b` comes out without rounding: the
/// sums of the coordinates, and their halves.
pub open spec fn exact_midpoint(a: Point, b: Point) -> bool {
    &&& is_valid(a.x) && is_valid(a.y) && is_valid(b.x) && is_valid(b.y)
    &&& exact_sum(a.x, b.x)
    &&& exact_sum(a.y, b.y)
    &&& exact_quotient(a.x.spec_add(b.x)->0, two())
    &&& exact_quotient(a.y.spec_add(b.y)->0, two())
}

/// Where the midpoint comes out without rounding, twice each of its
/// coordinates is the sum of the coordinates of the two points.
pub proof fn lemma_exact_midpoint(a: Point, b: Point)
    requires
        exact_midpoint(a, b),
    ensures
        spec_midpoint(a, b) matches Some(m) && is_valid(m.x) && is_valid(m.y) && 2 * m.x.units() == a.x.units()
            + b.x.units() && 2 * m.y.units() == a.y.units() + b.y.units(),
{
    let unit = pow10(MAX_SCALE as nat);
    lemma_pow10_positive(MAX_SCALE as nat);
    lemma_units_of_whole(2);
    let sx = a.x.spec_add(b.x)->0;
    let sy = a.y.spec_add(b.y)->0;
    let mx = sx.spec_div(two())->0;
    let my = sy.spec_div(two())->0;
    assert(2 * mx.units() == sx.units()) by (nonlinear_arith)
        requires
            mx.units() * (2 * unit) == sx.units() * unit,
            unit > 0,
    ;
    assert(2 * my.units() == sy.units()) by (nonlinear_arith)
        requires
            my.units() * (2 * unit) == sy.units() * unit,
            unit > 0,
    ;
}

} // verus!
