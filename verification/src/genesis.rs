//! The genesis triangle.
//!
//! The genesis triangle is equilateral up to the precision of its height:
//! the height of a triangle of side `s` is taken as `0.866 s`.

use vstd::prelude::*;
use crate::decimal::{minus, over, plus, spec_minus, spec_over, spec_plus, spec_times, times, Decimal};
use crate::errors::{SierpinskiError, SierpinskiResult};
use crate::fractal::{FractalTriangle, TriangleRecord};
use crate::geometry::{settled, spec_cross_product, three, two, Point};
use crate::state::TriangleState;
use crate::triangle::{construction_outcome, makes_triangle, Triangle};
use crate::MAX_SUBDIVISION_DEPTH;

verus! {

/// The ratio of the height of the genesis triangle to its side: 0.866, for
/// half the square root of three.
pub open spec fn height_ratio() -> Decimal {
    Decimal::from_pair(866, 3)
}

/// The height of a triangle of side `side`.
pub open spec fn spec_height(side: Decimal) -> Option<Decimal> {
    side.spec_mul(height_ratio())
}

/// The vertices of the genesis triangle of side `side` around `center`:
/// bottom left, bottom right, top. The base lies a third of the height
/// below the centre, the top two thirds above it.
pub open spec fn vertices_around(center: Point, side: Decimal) -> Option<(Point, Point, Point)> {
    let height = spec_height(side);
    let half_side = side.spec_div(two());
    let third_height = spec_over(height, Some(three()));
    let left = spec_minus(Some(center.x), half_side);
    let right = spec_plus(Some(center.x), half_side);
    let bottom = spec_minus(Some(center.y), third_height);
    let top = spec_plus(Some(center.y), spec_over(spec_times(height, Some(two())), Some(three())));
    match (left, right, bottom, top) {
        (Some(left), Some(right), Some(bottom), Some(top)) => Some(
            (Point { x: left, y: bottom }, Point { x: right, y: bottom }, Point { x: center.x, y: top }),
        ),
        _ => None,
    }
}

/// The vertices of the canonical genesis triangle: side one, centred at the
/// origin.
pub open spec fn canonical_vertices() -> Option<(Point, Point, Point)> {
    let side = Decimal::from_pair(1, 0);
    let height = spec_height(side);
    let half_side = side.spec_div(two());
    let third_height = spec_over(height, Some(three()));
    let top = spec_over(spec_times(height, Some(two())), Some(three()));
    match (half_side, third_height, top) {
        (Some(half_side), Some(third_height), Some(top)) => Some(
            (
                Point { x: half_side.spec_neg(), y: third_height.spec_neg() },
                Point { x: half_side, y: third_height.spec_neg() },
                Point { x: Decimal::from_pair(0, 0), y: top },
            ),
        ),
        _ => None,
    }
}

/// The side of the genesis triangle that is put into a box: nine tenths of
/// the width of the box, or of the longest side whose triangle fits into
/// its height, whichever is smaller. The top of a triangle lies two thirds
/// of its height above its centre, so a triangle around the centre of the
/// box fits where its height is at most three quarters of the height of the
/// box.
pub open spec fn side_within(
    min_x: Decimal,
    max_x: Decimal,
    min_y: Decimal,
    max_y: Decimal,
) -> Option<Decimal> {
    let width = max_x.spec_sub(min_x);
    let height = max_y.spec_sub(min_y);
    let by_height = spec_over(spec_times(height, Some(Decimal::from_pair(75, 2))), Some(height_ratio()));
    match (width, by_height) {
        (Some(w), Some(h)) => (if w.less_than(h) {
            w
        } else {
            h
        }).spec_mul(Decimal::from_pair(9, 1)),
        _ => None,
    }
}

/// The centre of a box.
pub open spec fn center_of(
    min_x: Decimal,
    max_x: Decimal,
    min_y: Decimal,
    max_y: Decimal,
) -> Option<Point> {
    match (spec_over(min_x.spec_add(max_x), Some(two())), spec_over(min_y.spec_add(max_y), Some(two()))) {
        (Some(x), Some(y)) => Some(Point { x, y }),
        _ => None,
    }
}

/// Whether `r` is what making a triangle of `vertices` gives: an overflow
/// error where the vertices could not be computed, the triangle where they
/// make one, and otherwise the reason why they make none.
pub open spec fn made_of(r: SierpinskiResult<Triangle>, vertices: Option<(Point, Point, Point)>) -> bool {
    match vertices {
        None => r == Err::<Triangle, SierpinskiError>(SierpinskiError::ArithmeticOverflow),
        Some((p1, p2, p3)) => {
            &&& r is Ok <==> makes_triangle(p1, p2, p3)
            &&& r matches Ok(t) ==> t.a() == p1 && t.b() == p2 && t.c() == p3
            &&& r matches Err(e) ==> construction_outcome(p1, p2, p3) == Err::<(), SierpinskiError>(e)
        },
    }
}

/// The smallest area a decimal can express: 10^-28.
pub open spec fn smallest_area() -> Decimal {
    Decimal::from_pair(1, 28)
}

/// The number of times `area` can be reduced to three quarters, from level
/// `depth` on, before it is no longer above the smallest area or the deepest
/// level is reached. `None` where a product overflows.
pub open spec fn depth_from(area: Decimal, depth: u8) -> Option<u8>
    decreases MAX_SUBDIVISION_DEPTH - depth,
{
    if depth < MAX_SUBDIVISION_DEPTH && smallest_area().less_than(area) {
        match crate::fractal::three_quarters() {
            Some(factor) => match area.spec_mul(factor) {
                Some(next) => depth_from(next, (depth + 1) as u8),
                None => None,
            },
            None => None,
        }
    } else {
        Some(depth)
    }
}

/// Whether a triangle is fit to be a genesis triangle: it is equilateral
/// and its vertices run counter-clockwise.
pub open spec fn spec_fit_for_genesis(triangle: Triangle) -> SierpinskiResult<bool> {
    match triangle.spec_is_equilateral() {
        Err(e) => Err(e),
        Ok(false) => Ok(false),
        Ok(true) => match spec_cross_product(triangle.a(), triangle.b(), triangle.c()) {
            Some(cross) => Ok(cross.positive()),
            None => Err(SierpinskiError::ArithmeticOverflow),
        },
    }
}

/// The canonical genesis triangle: side one, centred at the origin, one
/// vertex pointing up. Its area is a little under 0.4330.
pub fn genesis_triangle() -> (r: SierpinskiResult<Triangle>)
    ensures
        made_of(r, canonical_vertices()),
{
    let side = Decimal::one();
    let height = side.checked_mul(Decimal::new(866, 3));
    let half_side = side.checked_div(Decimal::from_int(2));
    let third_height = over(height, Some(Decimal::from_int(3)));
    let top = over(times(height, Some(Decimal::from_int(2))), Some(Decimal::from_int(3)));
    match (half_side, third_height, top) {
        (Some(half_side), Some(third_height), Some(top)) => Triangle::new(
            Point::new(half_side.neg(), third_height.neg()),
            Point::new(half_side, third_height.neg()),
            Point::new(Decimal::zero(), top),
        ),
        _ => Err(SierpinskiError::ArithmeticOverflow),
    }
}

/// The canonical genesis triangle as a triangle of the fractal.
pub fn genesis_fractal_triangle() -> (r: SierpinskiResult<FractalTriangle>)
    ensures
        match canonical_vertices() {
            Some((p1, p2, p3)) => (r is Ok <==> makes_triangle(p1, p2, p3)) && (r matches Err(e)
                ==> construction_outcome(p1, p2, p3) == Err::<(), SierpinskiError>(e)),
            None => r matches Err(SierpinskiError::ArithmeticOverflow),
        },
        r matches Ok(g) ==> g@ == TriangleRecord::fresh(
            g.id,
            g.created_at,
            g.triangle,
            TriangleState::Genesis,
            Seq::<u8>::empty(),
            0,
        ) && canonical_vertices() == Some((g.triangle.a(), g.triangle.b(), g.triangle.c())),
{
    let triangle = genesis_triangle()?;
    Ok(FractalTriangle::genesis(triangle))
}

/// A genesis triangle of side `side_length` around `center`.
pub fn genesis_triangle_with_size(center: Point, side_length: Decimal) -> (r: SierpinskiResult<Triangle>)
    ensures
        made_of(r, vertices_around(center, side_length)),
{
    let height = side_length.checked_mul(Decimal::new(866, 3));
    let half_side = side_length.checked_div(Decimal::from_int(2));
    let third_height = over(height, Some(Decimal::from_int(3)));
    let left = minus(Some(center.x), half_side);
    let right = plus(Some(center.x), half_side);
    let bottom = minus(Some(center.y), third_height);
    let top = plus(
        Some(center.y),
        over(times(height, Some(Decimal::from_int(2))), Some(Decimal::from_int(3))),
    );
    match (left, right, bottom, top) {
        (Some(left), Some(right), Some(bottom), Some(top)) => Triangle::new(
            Point::new(left, bottom),
            Point::new(right, bottom),
            Point::new(center.x, top),
        ),
        _ => Err(SierpinskiError::ArithmeticOverflow),
    }
}

/// A genesis triangle that fits into the box from `(min_x, min_y)` to
/// `(max_x, max_y)`, around the centre of the box, a tenth of the room left
/// as margin.
pub fn genesis_triangle_bounded(
    min_x: Decimal,
    max_x: Decimal,
    min_y: Decimal,
    max_y: Decimal,
) -> (r: SierpinskiResult<Triangle>)
    ensures
        match (side_within(min_x, max_x, min_y, max_y), center_of(min_x, max_x, min_y, max_y)) {
            (Some(side), Some(center)) => made_of(r, vertices_around(center, side)),
            _ => r == Err::<Triangle, SierpinskiError>(SierpinskiError::ArithmeticOverflow),
        },
{
    let width = max_x.checked_sub(min_x);
    let height = max_y.checked_sub(min_y);
    let by_height = over(times(height, Some(Decimal::new(75, 2))), Some(Decimal::new(866, 3)));
    let side = match (width, by_height) {
        (Some(w), Some(h)) => (if w.lt(&h) {
            w
        } else {
            h
        }).checked_mul(Decimal::new(9, 1)),
        _ => None,
    };
    let two = Decimal::from_int(2);
    let center = match (over(min_x.checked_add(max_x), Some(two)), over(min_y.checked_add(max_y), Some(two))) {
        (Some(x), Some(y)) => Some(Point::new(x, y)),
        _ => None,
    };
    match (side, center) {
        (Some(side), Some(center)) => genesis_triangle_with_size(center, side),
        _ => Err(SierpinskiError::ArithmeticOverflow),
    }
}

/// Whether `triangle` is fit to be a genesis triangle: whether it is
/// equilateral and its vertices run counter-clockwise.
pub fn validate_genesis_triangle(triangle: &Triangle) -> (r: SierpinskiResult<bool>)
    ensures
        r == spec_fit_for_genesis(*triangle),
{
    if !triangle.is_equilateral()? {
        return Ok(false);
    }
    let vertices = triangle.vertices();
    let cross = vertices[0].cross_product(&vertices[1], &vertices[2])?;
    Ok(cross.is_positive())
}

/// How deep `triangle` can be subdivided before the area of a part falls
/// to the smallest area a decimal can express, and at most the deepest
/// level.
pub fn max_theoretical_depth(triangle: &Triangle) -> (r: SierpinskiResult<u8>)
    ensures
        match triangle.spec_area() {
            Some(area) => match depth_from(area, 0) {
                Some(depth) => r == Ok::<u8, SierpinskiError>(depth),
                None => r == Err::<u8, SierpinskiError>(SierpinskiError::ArithmeticOverflow),
            },
            None => false,
        },
{
    let area = triangle.area()?;
    let smallest = Decimal::new(1, 28);
    let factor = match Decimal::from_int(3).checked_div(Decimal::from_int(4)) {
        Some(f) => f,
        None => {
            assert(smallest == smallest_area());
            if smallest.lt(&area) {
                return Err(SierpinskiError::ArithmeticOverflow);
            } else {
                return Ok(0);
            }
        },
    };
    let mut current = area;
    let mut depth: u8 = 0;
    while depth < MAX_SUBDIVISION_DEPTH && smallest.lt(&current)
        invariant
            depth <= MAX_SUBDIVISION_DEPTH,
            smallest == smallest_area(),
            crate::fractal::three_quarters() == Some(factor),
            triangle.spec_area() == Some(area),
            depth_from(area, 0) == depth_from(current, depth),
        decreases MAX_SUBDIVISION_DEPTH - depth,
    {
        current = match current.checked_mul(factor) {
            Some(next) => next,
            None => {
                return Err(SierpinskiError::ArithmeticOverflow);
            },
        };
        depth = depth + 1;
    }
    Ok(depth)
}

/// What can be said of a genesis triangle.
#[derive(Debug, Clone, Copy)]
pub struct GenesisProperties {
    /// The length of the side `ab`.
    pub side_length: Decimal,
    /// The area.
    pub area: Decimal,
    /// The perimeter.
    pub perimeter: Decimal,
    /// The centroid.
    pub centroid: Point,
    /// Whether the triangle is equilateral.
    pub is_equilateral: bool,
    /// How deep the triangle can be subdivided.
    pub max_depth: u8,
}

impl GenesisProperties {
    /// The properties of `triangle`.
    ///
    /// Fails with `ArithmeticOverflow` where one of them cannot be
    /// computed.
    pub fn calculate(triangle: &Triangle) -> (r: SierpinskiResult<GenesisProperties>)
        ensures
            r matches Ok(p) ==> {
                &&& triangle.spec_side(0) == Ok::<Decimal, SierpinskiError>(p.side_length)
                &&& triangle.spec_area() == Some(p.area)
                &&& triangle.spec_perimeter() == Ok::<Decimal, SierpinskiError>(p.perimeter)
                &&& triangle.spec_centroid() == Some(p.centroid)
                &&& triangle.spec_is_equilateral() == Ok::<bool, SierpinskiError>(p.is_equilateral)
                &&& depth_from(p.area, 0) == Some(p.max_depth)
            },
            r is Err ==> r == Err::<GenesisProperties, SierpinskiError>(SierpinskiError::ArithmeticOverflow),
            r is Err <==> (triangle.spec_side(0) is Err || triangle.spec_side(1) is Err || triangle.spec_side(2) is Err
                || triangle.spec_perimeter() is Err || triangle.spec_centroid() is None
                || triangle.spec_is_equilateral() is Err || (triangle.spec_area() matches Some(a) && depth_from(
                a,
                0,
            ) is None)),
    {
        let sides = match triangle.side_lengths() {
            Ok(s) => s,
            Err(_) => {
                return Err(SierpinskiError::ArithmeticOverflow);
            },
        };
        let area = triangle.area()?;
        let perimeter = match triangle.perimeter() {
            Ok(p) => p,
            Err(_) => {
                return Err(SierpinskiError::ArithmeticOverflow);
            },
        };
        let centroid = triangle.centroid()?;
        let is_equilateral = match triangle.is_equilateral() {
            Ok(e) => e,
            Err(_) => {
                return Err(SierpinskiError::ArithmeticOverflow);
            },
        };
        let max_depth = max_theoretical_depth(triangle)?;
        Ok(GenesisProperties { side_length: sides[0], area, perimeter, centroid, is_equilateral, max_depth })
    }
}

} // verus!
