//! Triangles of the plane.
//!
//! A [`Triangle`] is three points that passed the checks of
//! [`Triangle::new`]: they do not lie on one line, and the area they span is
//! positive. A triangle cannot be changed once made, so both hold for as
//! long as it lives.

use vstd::prelude::*;
use crate::decimal::{exact_difference, exact_product, exact_quotient, is_valid, lemma_abs_units, lemma_pow10_positive, lemma_units_of_whole, magnitude, minus, over, plus, pow10, spec_magnitude, spec_minus, spec_over, spec_plus, spec_times, times, Decimal, MAX_SCALE};
use crate::errors::{SierpinskiError, SierpinskiResult};
use crate::geometry::{point_text, settle, settled, spec_are_collinear, spec_cross_product, spec_distance, spec_midpoint, spec_sqrt, sqrt, three, two, Point};
use crate::hashing::{append_text, blake3_hex, digest_hex, is_digest_text, text_bytes};

verus! {

/// Side lengths closer than this count as equal: 0.1.
pub open spec fn side_tolerance() -> Decimal {
    Decimal::from_pair(1, 1)
}

/// The area spanned by three points: half the absolute value of the cross
/// product of the two edges leaving the first.
pub open spec fn spec_area_of(p1: Point, p2: Point, p3: Point) -> Option<Decimal> {
    spec_over(spec_magnitude(spec_cross_product(p1, p2, p3)), Some(two()))
}

/// Whether three points make a triangle: they are not collinear, and their
/// area is positive.
pub open spec fn makes_triangle(p1: Point, p2: Point, p3: Point) -> bool {
    &&& spec_are_collinear(p1, p2, p3) == Some(false)
    &&& spec_area_of(p1, p2, p3) matches Some(area) && area.positive()
}

/// What [`Triangle::new`] answers for three points, apart from the triangle
/// itself: `Ok` where they make a triangle, and otherwise the first check
/// that failed.
pub open spec fn construction_outcome(p1: Point, p2: Point, p3: Point) -> SierpinskiResult<()> {
    match spec_are_collinear(p1, p2, p3) {
        None => Err(SierpinskiError::ArithmeticOverflow),
        Some(true) => Err(SierpinskiError::CollinearPoints),
        Some(false) => match spec_area_of(p1, p2, p3) {
            None => Err(SierpinskiError::ArithmeticOverflow),
            Some(area) => if area.positive() {
                Ok(())
            } else {
                Err(SierpinskiError::InvalidArea)
            },
        },
    }
}

/// The sum of three lengths, an error in one of them coming first.
pub open spec fn spec_sum_of_sides(
    a: SierpinskiResult<Decimal>,
    b: SierpinskiResult<Decimal>,
    c: SierpinskiResult<Decimal>,
) -> SierpinskiResult<Decimal> {
    match (a, b, c) {
        (Ok(x), Ok(y), Ok(z)) => settled(spec_plus(x.spec_add(y), Some(z))),
        (Err(e), _, _) => Err(e),
        (_, Err(e), _) => Err(e),
        (_, _, Err(e)) => Err(e),
    }
}

/// Whether two lengths differ by less than the side tolerance.
pub open spec fn spec_nearly_equal(a: Decimal, b: Decimal) -> Option<bool> {
    match a.spec_sub(b) {
        Some(d) => Some(d.spec_abs().less_than(side_tolerance())),
        None => None,
    }
}

/// The first barycentric numerator of `point` in the triangle `p1 p2 p3`.
pub open spec fn spec_weight_a(p1: Point, p2: Point, p3: Point, point: Point) -> Option<Decimal> {
    spec_plus(
        spec_times(p2.y.spec_sub(p3.y), point.x.spec_sub(p3.x)),
        spec_times(p3.x.spec_sub(p2.x), point.y.spec_sub(p3.y)),
    )
}

/// The second barycentric numerator of `point` in the triangle `p1 p2 p3`.
pub open spec fn spec_weight_b(p1: Point, p2: Point, p3: Point, point: Point) -> Option<Decimal> {
    spec_plus(
        spec_times(p3.y.spec_sub(p1.y), point.x.spec_sub(p3.x)),
        spec_times(p1.x.spec_sub(p3.x), point.y.spec_sub(p3.y)),
    )
}

/// The denominator shared by the barycentric coordinates.
pub open spec fn spec_barycentric_denominator(p1: Point, p2: Point, p3: Point) -> Option<Decimal> {
    spec_plus(
        spec_times(p2.y.spec_sub(p3.y), p1.x.spec_sub(p3.x)),
        spec_times(p3.x.spec_sub(p2.x), p1.y.spec_sub(p3.y)),
    )
}

/// Whether `point` lies in the triangle `p1 p2 p3` or on its border: none of
/// its three barycentric coordinates is negative. A denominator of zero
/// answers no; `None` where a step overflows.
pub open spec fn spec_contains(p1: Point, p2: Point, p3: Point, point: Point) -> Option<bool> {
    match spec_barycentric_denominator(p1, p2, p3) {
        None => None,
        Some(denominator) => if denominator.spec_mantissa() == 0 {
            Some(false)
        } else {
            let a = spec_over(spec_weight_a(p1, p2, p3, point), Some(denominator));
            let b = spec_over(spec_weight_b(p1, p2, p3, point), Some(denominator));
            let c = spec_minus(spec_minus(Some(Decimal::from_pair(1, 0)), a), b);
            match (a, b, c) {
                (Some(a), Some(b), Some(c)) => Some(!a.negative() && !b.negative() && !c.negative()),
                _ => None,
            }
        },
    }
}

/// The bytes hashed for a point: the text of `x`, then the text of `y`.
pub open spec fn point_bytes(p: Point) -> Seq<u8> {
    text_bytes(p.x.spec_text()) + text_bytes(p.y.spec_text())
}

/// Lifts an optional truth value into a result.
pub open spec fn settled_flag(value: Option<bool>) -> SierpinskiResult<bool> {
    match value {
        Some(v) => Ok(v),
        None => Err(SierpinskiError::ArithmeticOverflow),
    }
}

/// A triangle given by its three vertices.
#[derive(Debug, Clone, Copy, PartialEq)]
pub struct Triangle {
    vertices: [Point; 3],
}

impl Triangle {
    /// The vertices make a triangle.
    #[verifier::type_invariant]
    pub closed spec fn well_formed(self) -> bool {
        makes_triangle(self.vertices@[0], self.vertices@[1], self.vertices@[2])
    }

    /// The first vertex.
    pub closed spec fn a(self) -> Point {
        self.vertices@[0]
    }

    /// The second vertex.
    pub closed spec fn b(self) -> Point {
        self.vertices@[1]
    }

    /// The third vertex.
    pub closed spec fn c(self) -> Point {
        self.vertices@[2]
    }

    /// The area.
    pub open spec fn spec_area(self) -> Option<Decimal> {
        spec_area_of(self.a(), self.b(), self.c())
    }

    /// The lengths of the sides `ab`, `bc` and `ca`.
    pub open spec fn spec_side(self, i: int) -> SierpinskiResult<Decimal> {
        if i == 0 {
            spec_distance(self.a(), self.b())
        } else if i == 1 {
            spec_distance(self.b(), self.c())
        } else {
            spec_distance(self.c(), self.a())
        }
    }

    /// The perimeter.
    pub open spec fn spec_perimeter(self) -> SierpinskiResult<Decimal> {
        spec_sum_of_sides(self.spec_side(0), self.spec_side(1), self.spec_side(2))
    }

    /// The centroid: the mean of the vertices.
    pub open spec fn spec_centroid(self) -> Option<Point> {
        match (
            spec_over(spec_plus(self.a().x.spec_add(self.b().x), Some(self.c().x)), Some(three())),
            spec_over(spec_plus(self.a().y.spec_add(self.b().y), Some(self.c().y)), Some(three())),
        ) {
            (Some(x), Some(y)) => Some(Point { x, y }),
            _ => None,
        }
    }

    /// Which pairs of sides are nearly equal: `ab` and `bc`, `bc` and `ca`,
    /// `ca` and `ab`. An error where a side or a difference cannot be
    /// computed.
    pub open spec fn spec_side_matches(self) -> SierpinskiResult<(bool, bool, bool)> {
        match (self.spec_side(0), self.spec_side(1), self.spec_side(2)) {
            (Ok(s0), Ok(s1), Ok(s2)) => match (
                spec_nearly_equal(s0, s1),
                spec_nearly_equal(s1, s2),
                spec_nearly_equal(s2, s0),
            ) {
                (Some(e1), Some(e2), Some(e3)) => Ok((e1, e2, e3)),
                _ => Err(SierpinskiError::ArithmeticOverflow),
            },
            (Err(e), _, _) => Err(e),
            (_, Err(e), _) => Err(e),
            (_, _, Err(e)) => Err(e),
        }
    }

    /// Whether all three sides are nearly equal.
    pub open spec fn spec_is_equilateral(self) -> SierpinskiResult<bool> {
        match self.spec_side_matches() {
            Ok((e1, e2, e3)) => Ok(e1 && e2 && e3),
            Err(e) => Err(e),
        }
    }

    /// Whether two sides are nearly equal.
    pub open spec fn spec_is_isosceles(self) -> SierpinskiResult<bool> {
        match self.spec_side_matches() {
            Ok((e1, e2, e3)) => Ok(e1 || e2 || e3),
            Err(e) => Err(e),
        }
    }

    /// The midpoints of the sides `ab`, `bc` and `ca`.
    pub open spec fn spec_side_midpoints(self) -> Option<(Point, Point, Point)> {
        match (
            spec_midpoint(self.a(), self.b()),
            spec_midpoint(self.b(), self.c()),
            spec_midpoint(self.c(), self.a()),
        ) {
            (Some(ab), Some(bc), Some(ca)) => Some((ab, bc, ca)),
            _ => None,
        }
    }

    /// Whether `point` lies in the triangle.
    pub open spec fn spec_contains_point(self, point: Point) -> Option<bool> {
        spec_contains(self.a(), self.b(), self.c(), point)
    }

    /// The square root of the ratio of this triangle's area to `other`'s.
    pub open spec fn spec_scale_factor(self, other: Triangle) -> SierpinskiResult<Decimal> {
        match (self.spec_area(), other.spec_area()) {
            (Some(mine), Some(theirs)) => if theirs.spec_mantissa() == 0 {
                Err(SierpinskiError::ArithmeticOverflow)
            } else {
                match mine.spec_div(theirs) {
                    Some(ratio) => spec_sqrt(ratio),
                    None => Err(SierpinskiError::ArithmeticOverflow),
                }
            },
            _ => Err(SierpinskiError::ArithmeticOverflow),
        }
    }

    /// The bytes that the fingerprint is the hash of: the coordinates of the
    /// three vertices as text, one after the other.
    pub open spec fn hash_input(self) -> Seq<u8> {
        point_bytes(self.a()) + point_bytes(self.b()) + point_bytes(self.c())
    }

    /// The fingerprint of the triangle.
    pub open spec fn spec_hash(self) -> Seq<char> {
        blake3_hex(self.hash_input())
    }

    /// The triangle with the given vertices.
    ///
    /// Fails with `CollinearPoints` where the points count as lying on one
    /// line, with `InvalidArea` where their area is not positive, and with
    /// `ArithmeticOverflow` where either cannot be computed.
    pub fn new(p1: Point, p2: Point, p3: Point) -> (r: SierpinskiResult<Triangle>)
        ensures
            r is Ok <==> makes_triangle(p1, p2, p3),
            r matches Ok(t) ==> t.a() == p1 && t.b() == p2 && t.c() == p3,
            r matches Err(e) ==> construction_outcome(p1, p2, p3) == Err::<(), SierpinskiError>(e),
    {
        if Point::are_collinear(&p1, &p2, &p3)? {
            return Err(SierpinskiError::CollinearPoints);
        }
        let area = area_of(&p1, &p2, &p3)?;
        if !area.is_positive() {
            return Err(SierpinskiError::InvalidArea);
        }
        Ok(Triangle { vertices: [p1, p2, p3] })
    }

    /// The three vertices.
    pub fn vertices(&self) -> (r: &[Point; 3])
        ensures
            r@[0] == self.a(),
            r@[1] == self.b(),
            r@[2] == self.c(),
            makes_triangle(self.a(), self.b(), self.c()),
    {
        proof {
            use_type_invariant(self);
        }
        &self.vertices
    }

    /// The area: half the absolute value of the cross product of two edges.
    /// It is positive, and computing it cannot fail.
    pub fn area(&self) -> (r: SierpinskiResult<Decimal>)
        ensures
            r matches Ok(area) && Some(area) == self.spec_area() && area.positive(),
    {
        proof {
            use_type_invariant(self);
        }
        area_of(&self.vertices[0], &self.vertices[1], &self.vertices[2])
    }

    /// The perimeter: the sum of the three side lengths.
    pub fn perimeter(&self) -> (r: SierpinskiResult<Decimal>)
        ensures
            r == self.spec_perimeter(),
    {
        let side1 = self.vertices[0].distance_to(&self.vertices[1])?;
        let side2 = self.vertices[1].distance_to(&self.vertices[2])?;
        let side3 = self.vertices[2].distance_to(&self.vertices[0])?;
        settle(plus(side1.checked_add(side2), Some(side3)))
    }

    /// The centroid: the arithmetic mean of the vertices.
    pub fn centroid(&self) -> (r: SierpinskiResult<Point>)
        ensures
            match self.spec_centroid() {
                Some(p) => r == Ok::<Point, SierpinskiError>(p),
                None => r == Err::<Point, SierpinskiError>(SierpinskiError::ArithmeticOverflow),
            },
    {
        let p1 = self.vertices[0];
        let p2 = self.vertices[1];
        let p3 = self.vertices[2];
        let three = Decimal::from_int(3);
        let x = over(plus(p1.x.checked_add(p2.x), Some(p3.x)), Some(three));
        let y = over(plus(p1.y.checked_add(p2.y), Some(p3.y)), Some(three));
        match (x, y) {
            (Some(x), Some(y)) => Ok(Point { x, y }),
            _ => Err(SierpinskiError::ArithmeticOverflow),
        }
    }

    /// The lengths of the sides `ab`, `bc` and `ca`.
    pub fn side_lengths(&self) -> (r: SierpinskiResult<[Decimal; 3]>)
        ensures
            match (self.spec_side(0), self.spec_side(1), self.spec_side(2)) {
                (Ok(s0), Ok(s1), Ok(s2)) => r matches Ok(sides) && sides@ == seq![s0, s1, s2],
                (Err(e), _, _) => r == Err::<[Decimal; 3], SierpinskiError>(e),
                (_, Err(e), _) => r == Err::<[Decimal; 3], SierpinskiError>(e),
                (_, _, Err(e)) => r == Err::<[Decimal; 3], SierpinskiError>(e),
            },
    {
        let side1 = self.vertices[0].distance_to(&self.vertices[1])?;
        let side2 = self.vertices[1].distance_to(&self.vertices[2])?;
        let side3 = self.vertices[2].distance_to(&self.vertices[0])?;
        let sides = [side1, side2, side3];
        assert(sides@ =~= seq![side1, side2, side3]);
        Ok(sides)
    }

    /// Whether all three sides are equal within the tolerance of 0.1.
    pub fn is_equilateral(&self) -> (r: SierpinskiResult<bool>)
        ensures
            r == self.spec_is_equilateral(),
    {
        let (e1, e2, e3) = self.side_matches()?;
        Ok(e1 && e2 && e3)
    }

    /// Whether two sides are equal within the tolerance of 0.1.
    pub fn is_isosceles(&self) -> (r: SierpinskiResult<bool>)
        ensures
            r == self.spec_is_isosceles(),
    {
        let (e1, e2, e3) = self.side_matches()?;
        Ok(e1 || e2 || e3)
    }

    fn side_matches(&self) -> (r: SierpinskiResult<(bool, bool, bool)>)
        ensures
            r == self.spec_side_matches(),
    {
        let sides = self.side_lengths()?;
        let e1 = nearly_equal(sides[0], sides[1]);
        let e2 = nearly_equal(sides[1], sides[2]);
        let e3 = nearly_equal(sides[2], sides[0]);
        match (e1, e2, e3) {
            (Some(e1), Some(e2), Some(e3)) => Ok((e1, e2, e3)),
            _ => Err(SierpinskiError::ArithmeticOverflow),
        }
    }

    /// The midpoints of the sides `ab`, `bc` and `ca`.
    pub fn side_midpoints(&self) -> (r: SierpinskiResult<[Point; 3]>)
        ensures
            match self.spec_side_midpoints() {
                Some((ab, bc, ca)) => r matches Ok(m) && m@ == seq![ab, bc, ca],
                None => r == Err::<[Point; 3], SierpinskiError>(SierpinskiError::ArithmeticOverflow),
            },
    {
        let ab = self.vertices[0].midpoint(&self.vertices[1]);
        let bc = self.vertices[1].midpoint(&self.vertices[2]);
        let ca = self.vertices[2].midpoint(&self.vertices[0]);
        match (ab, bc, ca) {
            (Ok(ab), Ok(bc), Ok(ca)) => {
                let midpoints = [ab, bc, ca];
                assert(midpoints@ =~= seq![ab, bc, ca]);
                Ok(midpoints)
            },
            _ => Err(SierpinskiError::ArithmeticOverflow),
        }
    }

    /// Whether `point` lies in the triangle or on its border, by barycentric
    /// coordinates. A degenerate denominator answers no.
    pub fn contains_point(&self, point: &Point) -> (r: SierpinskiResult<bool>)
        ensures
            r == settled_flag(self.spec_contains_point(*point)),
    {
        let p1 = self.vertices[0];
        let p2 = self.vertices[1];
        let p3 = self.vertices[2];
        let denominator = match plus(
            times(p2.y.checked_sub(p3.y), p1.x.checked_sub(p3.x)),
            times(p3.x.checked_sub(p2.x), p1.y.checked_sub(p3.y)),
        ) {
            Some(d) => d,
            None => {
                return Err(SierpinskiError::ArithmeticOverflow);
            },
        };
        if denominator.is_zero() {
            return Ok(false);
        }
        let weight_a = plus(
            times(p2.y.checked_sub(p3.y), point.x.checked_sub(p3.x)),
            times(p3.x.checked_sub(p2.x), point.y.checked_sub(p3.y)),
        );
        let weight_b = plus(
            times(p3.y.checked_sub(p1.y), point.x.checked_sub(p3.x)),
            times(p1.x.checked_sub(p3.x), point.y.checked_sub(p3.y)),
        );
        let a = over(weight_a, Some(denominator));
        let b = over(weight_b, Some(denominator));
        let c = minus(minus(Some(Decimal::one()), a), b);
        match (a, b, c) {
            (Some(a), Some(b), Some(c)) => Ok(!a.is_negative() && !b.is_negative() && !c.is_negative()),
            _ => Err(SierpinskiError::ArithmeticOverflow),
        }
    }

    /// The factor by which this triangle is larger than `other` in length:
    /// the square root of the ratio of the areas.
    pub fn scale_factor(&self, other: &Triangle) -> (r: SierpinskiResult<Decimal>)
        ensures
            r == self.spec_scale_factor(*other),
    {
        let mine = self.area()?;
        let theirs = other.area()?;
        if theirs.is_zero() {
            return Err(SierpinskiError::ArithmeticOverflow);
        }
        match mine.checked_div(theirs) {
            Some(ratio) => sqrt(ratio),
            None => Err(SierpinskiError::ArithmeticOverflow),
        }
    }

    /// The text of the triangle: its vertices in square brackets.
    pub open spec fn spec_text(self) -> Seq<char> {
        "Triangle["@ + point_text(self.a()) + ", "@ + point_text(self.b()) + ", "@ + point_text(self.c()) + "]"@
    }

    /// The text of the triangle: its vertices in square brackets.
    pub fn to_text(&self) -> (r: String)
        ensures
            r@ == self.spec_text(),
    {
        let a = self.vertices[0].to_text();
        let b = self.vertices[1].to_text();
        let c = self.vertices[2].to_text();
        let head = crate::text::join5("Triangle[", a.as_str(), ", ", b.as_str(), ", ");
        crate::text::join3(head.as_str(), c.as_str(), "]")
    }

    /// A fingerprint of the triangle: the hash of its vertex coordinates.
    pub fn hash(&self) -> (r: String)
        ensures
            r@ == self.spec_hash(),
            is_digest_text(r@),
    {
        let mut buffer: Vec<u8> = Vec::new();
        let mut i: usize = 0;
        while i < 3
            invariant
                i <= 3,
                buffer@ == if i == 0 {
                    Seq::<u8>::empty()
                } else if i == 1 {
                    point_bytes(self.a())
                } else if i == 2 {
                    point_bytes(self.a()) + point_bytes(self.b())
                } else {
                    self.hash_input()
                },
            decreases 3 - i,
        {
            let vertex = self.vertices[i];
            let ghost before = buffer@;
            let x = vertex.x.to_text();
            append_text(&mut buffer, x.as_str());
            let y = vertex.y.to_text();
            append_text(&mut buffer, y.as_str());
            assert(buffer@ =~= before + point_bytes(vertex));
            i = i + 1;
        }
        digest_hex(buffer.as_slice())
    }
}

/// Computes [`spec_area_of`].
pub fn area_of(p1: &Point, p2: &Point, p3: &Point) -> (r: SierpinskiResult<Decimal>)
    ensures
        r == settled(spec_area_of(*p1, *p2, *p3)),
{
    let cross = p1.cross_product(p2, p3)?;
    settle(cross.abs().checked_div(Decimal::from_int(2)))
}

/// Whether two lengths differ by less than the side tolerance of 0.1.
pub fn nearly_equal(a: Decimal, b: Decimal) -> (r: Option<bool>)
    ensures
        r == spec_nearly_equal(a, b),
{
    let tolerance = Decimal::new(1, 1);
    match a.checked_sub(b) {
        Some(d) => Some(d.abs().lt(&tolerance)),
        None => None,
    }
}

/// Whether the cross product of the vectors from `origin` to `p1` and to
/// `p2` comes out without rounding: the four differences, the two
/// products, and their difference.
pub open spec fn exact_cross(origin: Point, p1: Point, p2: Point) -> bool {
    &&& is_valid(origin.x) && is_valid(origin.y) && is_valid(p1.x) && is_valid(p1.y) && is_valid(p2.x)
        && is_valid(p2.y)
    &&& exact_difference(p1.x, origin.x)
    &&& exact_difference(p1.y, origin.y)
    &&& exact_difference(p2.x, origin.x)
    &&& exact_difference(p2.y, origin.y)
    &&& exact_product(p1.x.spec_sub(origin.x)->0, p2.y.spec_sub(origin.y)->0)
    &&& exact_product(p1.y.spec_sub(origin.y)->0, p2.x.spec_sub(origin.x)->0)
    &&& exact_difference(
        p1.x.spec_sub(origin.x)->0.spec_mul(p2.y.spec_sub(origin.y)->0)->0,
        p1.y.spec_sub(origin.y)->0.spec_mul(p2.x.spec_sub(origin.x)->0)->0,
    )
}

/// Whether the area spanned by three points comes out without rounding:
/// the cross product, and its half.
pub open spec fn exact_area(p1: Point, p2: Point, p3: Point) -> bool {
    &&& exact_cross(p1, p2, p3)
    &&& exact_quotient(spec_cross_product(p1, p2, p3)->0.spec_abs(), two())
}

/// Twice the signed area spanned by three points whose coordinates are the
/// given numbers.
pub open spec fn signed_double_area(x1: int, y1: int, x2: int, y2: int, x3: int, y3: int) -> int {
    (x2 - x1) * (y3 - y1) - (y2 - y1) * (x3 - x1)
}

/// Where the area comes out without rounding, twice the area is the
/// absolute value of the signed double area of the points.
pub proof fn lemma_exact_area(p1: Point, p2: Point, p3: Point)
    requires
        exact_area(p1, p2, p3),
    ensures
        spec_area_of(p1, p2, p3) matches Some(area) && is_valid(area) && {
            let signed = signed_double_area(
                p1.x.units(),
                p1.y.units(),
                p2.x.units(),
                p2.y.units(),
                p3.x.units(),
                p3.y.units(),
            );
            2 * area.units() * pow10(MAX_SCALE as nat) == if signed < 0 {
                -signed
            } else {
                signed
            }
        },
{
    let unit = pow10(MAX_SCALE as nat);
    lemma_pow10_positive(MAX_SCALE as nat);
    let v1x = p2.x.spec_sub(p1.x)->0;
    let v1y = p2.y.spec_sub(p1.y)->0;
    let v2x = p3.x.spec_sub(p1.x)->0;
    let v2y = p3.y.spec_sub(p1.y)->0;
    let first = v1x.spec_mul(v2y)->0;
    let second = v1y.spec_mul(v2x)->0;
    let cross = first.spec_sub(second)->0;
    assert(spec_cross_product(p1, p2, p3) == Some(cross));
    lemma_abs_units(cross);
    let size = cross.spec_abs();
    let area = size.spec_div(two())->0;
    lemma_units_of_whole(2);
    assert(two().units() == 2 * unit);
    let signed = signed_double_area(
        p1.x.units(),
        p1.y.units(),
        p2.x.units(),
        p2.y.units(),
        p3.x.units(),
        p3.y.units(),
    );
    assert(cross.units() * unit == signed) by (nonlinear_arith)
        requires
            cross.units() == first.units() - second.units(),
            first.units() * unit == v1x.units() * v2y.units(),
            second.units() * unit == v1y.units() * v2x.units(),
            v1x.units() == p2.x.units() - p1.x.units(),
            v1y.units() == p2.y.units() - p1.y.units(),
            v2x.units() == p3.x.units() - p1.x.units(),
            v2y.units() == p3.y.units() - p1.y.units(),
            signed == (p2.x.units() - p1.x.units()) * (p3.y.units() - p1.y.units()) - (p2.y.units() - p1.y.units())
                * (p3.x.units() - p1.x.units()),
    ;
    assert(2 * area.units() * unit == size.units() * unit) by (nonlinear_arith)
        requires
            area.units() * (2 * unit) == size.units() * unit,
    ;
    assert(size.units() * unit == if signed < 0 {
        -signed
    } else {
        signed
    }) by (nonlinear_arith)
        requires
            cross.units() * unit == signed,
            unit > 0,
            size.units() == if cross.units() < 0 {
                -cross.units()
            } else {
                cross.units()
            },
    ;
}

/// The area of a triangle does not depend on the order of its vertices,
/// where it comes out without rounding in both orders: it is half the
/// absolute value of the cross product, which changes at most its sign.
/// Decimal arithmetic rounds what does not fit into 28 digits, and areas
/// that were rounded on the way may differ in their last digit.
pub proof fn lemma_area_order_independent(p1: Point, p2: Point, p3: Point)
    requires
        exact_area(p1, p2, p3),
        exact_area(p2, p3, p1),
        exact_area(p1, p3, p2),
    ensures
        spec_area_of(p1, p2, p3)->0.units() == spec_area_of(p2, p3, p1)->0.units(),
        spec_area_of(p1, p2, p3)->0.units() == spec_area_of(p1, p3, p2)->0.units(),
{
    let unit = pow10(MAX_SCALE as nat);
    lemma_pow10_positive(MAX_SCALE as nat);
    lemma_exact_area(p1, p2, p3);
    lemma_exact_area(p2, p3, p1);
    lemma_exact_area(p1, p3, p2);
    let x1 = p1.x.units();
    let y1 = p1.y.units();
    let x2 = p2.x.units();
    let y2 = p2.y.units();
    let x3 = p3.x.units();
    let y3 = p3.y.units();
    assert(signed_double_area(x2, y2, x3, y3, x1, y1) == signed_double_area(x1, y1, x2, y2, x3, y3))
        by (nonlinear_arith);
    assert(signed_double_area(x1, y1, x3, y3, x2, y2) == -signed_double_area(x1, y1, x2, y2, x3, y3))
        by (nonlinear_arith);
    let a = spec_area_of(p1, p2, p3)->0.units();
    let b = spec_area_of(p2, p3, p1)->0.units();
    let c = spec_area_of(p1, p3, p2)->0.units();
    assert(a == b) by (nonlinear_arith)
        requires
            2 * a * unit == 2 * b * unit,
            unit > 0,
    ;
    assert(a == c) by (nonlinear_arith)
        requires
            2 * a * unit == 2 * c * unit,
            unit > 0,
    ;
}

} // verus!
