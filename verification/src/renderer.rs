//! Layout of a fractal for drawing.
//!
//! What is drawn where is decided here, in decimal coordinates: the bounds
//! of the fractal, the scale that fits it on a canvas, the triangles in
//! their drawing order with their colours, and the labels. Turning the
//! layout into the text of a picture is left to the caller.

use vstd::prelude::*;
use vstd::string::*;
use crate::address::address_text;
use crate::decimal::{minus, over, plus, spec_minus, spec_over, spec_plus, spec_times, times, Decimal, MAX_MANTISSA};
use crate::errors::{SierpinskiError, SierpinskiResult};
use crate::fractal::{at_depth, kept, records_of_refs, FractalStructure, FractalTriangle, TriangleRecord};
use crate::geometry::Point;
use crate::state::TriangleState;

verus! {

/// The colours of a drawing.
#[derive(Debug, Clone)]
pub struct ColorScheme {
    pub genesis: String,
    pub active: String,
    pub subdivided: String,
    pub void_triangle: String,
    pub stroke: String,
    pub text: String,
    pub background: String,
}

impl Default for ColorScheme {
    /// Red for the genesis triangle, teal for active triangles, blue for
    /// subdivided ones, light grey for voids, dark lines and text on white.
    fn default() -> (r: ColorScheme)
        ensures
            r.genesis@ == "#FF6B6B"@,
            r.active@ == "#4ECDC4"@,
            r.subdivided@ == "#45B7D1"@,
            r.void_triangle@ == "#F9F9F9"@,
            r.stroke@ == "#2C3E50"@,
            r.text@ == "#2C3E50"@,
            r.background@ == "#FFFFFF"@,
    {
        ColorScheme {
            genesis: "#FF6B6B".to_owned(),
            active: "#4ECDC4".to_owned(),
            subdivided: "#45B7D1".to_owned(),
            void_triangle: "#F9F9F9".to_owned(),
            stroke: "#2C3E50".to_owned(),
            text: "#2C3E50".to_owned(),
            background: "#FFFFFF".to_owned(),
        }
    }
}

/// The box that holds a fractal, with its padding.
#[derive(Debug, Clone, Copy)]
pub struct Bounds {
    pub min_x: Decimal,
    pub max_x: Decimal,
    pub min_y: Decimal,
    pub max_y: Decimal,
}

/// How coordinates of the fractal become coordinates of the canvas.
#[derive(Debug, Clone, Copy)]
pub struct Scale {
    pub factor: Decimal,
    pub offset_x: Decimal,
    pub offset_y: Decimal,
    pub canvas_width: u32,
    pub canvas_height: u32,
}

/// A triangle as it is drawn: its corners on the canvas, measured from the
/// lower left, and its colour.
#[derive(Debug, Clone)]
pub struct DrawnTriangle {
    pub corners: [Point; 3],
    pub fill: String,
    pub is_void: bool,
}

/// A label as it is drawn: the text of an address at the centroid of its
/// triangle, measured from the lower left.
#[derive(Debug, Clone)]
pub struct DrawnLabel {
    pub position: Point,
    pub depth: u8,
    pub text: String,
}

/// The greatest decimal.
pub open spec fn greatest() -> Decimal {
    Decimal::from_pair(MAX_MANTISSA as int, 0)
}

/// The least decimal.
pub open spec fn least() -> Decimal {
    Decimal::from_pair(-MAX_MANTISSA, 0)
}

/// The records of the first `count` levels, from depth 0 on, level by
/// level.
pub open spec fn levels_up(records: Seq<TriangleRecord>, count: nat) -> Seq<TriangleRecord>
    decreases count,
{
    if count == 0 {
        Seq::<TriangleRecord>::empty()
    } else {
        levels_up(records, (count - 1) as nat) + at_depth(records, (count - 1) as u8)
    }
}

/// The records of the first `count` levels, the deepest of them first,
/// level by level.
pub open spec fn levels_down(records: Seq<TriangleRecord>, count: nat) -> Seq<TriangleRecord>
    decreases count,
{
    if count == 0 {
        Seq::<TriangleRecord>::empty()
    } else {
        at_depth(records, (count - 1) as u8) + levels_down(records, (count - 1) as nat)
    }
}

/// The bounds after the vertices of the records have been taken in, one
/// after the other: a coordinate below the least so far becomes the least,
/// one above the greatest so far becomes the greatest.
pub open spec fn grown(bounds: Bounds, records: Seq<TriangleRecord>) -> Bounds
    decreases records.len(),
{
    if records.len() == 0 {
        bounds
    } else {
        let t = records.last().triangle;
        taken_in(taken_in(taken_in(grown(bounds, records.drop_last()), t.a()), t.b()), t.c())
    }
}

/// The bounds after one point has been taken in.
pub open spec fn taken_in(bounds: Bounds, p: Point) -> Bounds {
    Bounds {
        min_x: if p.x.less_than(bounds.min_x) {
            p.x
        } else {
            bounds.min_x
        },
        max_x: if bounds.max_x.less_than(p.x) {
            p.x
        } else {
            bounds.max_x
        },
        min_y: if p.y.less_than(bounds.min_y) {
            p.y
        } else {
            bounds.min_y
        },
        max_y: if bounds.max_y.less_than(p.y) {
            p.y
        } else {
            bounds.max_y
        },
    }
}

/// The bounds with a tenth of their width added on every side. `None`
/// where a step overflows.
pub open spec fn padded(bounds: Bounds) -> Option<Bounds> {
    let padding = spec_times(bounds.max_x.spec_sub(bounds.min_x), Some(Decimal::from_pair(1, 1)));
    match (
        spec_minus(Some(bounds.min_x), padding),
        spec_plus(Some(bounds.max_x), padding),
        spec_minus(Some(bounds.min_y), padding),
        spec_plus(Some(bounds.max_y), padding),
    ) {
        (Some(min_x), Some(max_x), Some(min_y), Some(max_y)) => Some(Bounds { min_x, max_x, min_y, max_y }),
        _ => None,
    }
}

/// The bounds of the triangles of a structure, with padding.
pub open spec fn spec_bounds(records: Seq<TriangleRecord>, max_depth: u8) -> Option<Bounds> {
    padded(
        grown(
            Bounds { min_x: greatest(), max_x: least(), min_y: greatest(), max_y: least() },
            levels_up(records, (max_depth + 1) as nat),
        ),
    )
}

/// The scale that fits `bounds` on a canvas: the smaller of the width of
/// the canvas over that of the bounds and the height of the canvas over
/// that of the bounds, so that the proportions stay.
pub open spec fn spec_scale(bounds: Bounds, width: u32, height: u32) -> Option<Scale> {
    match (
        spec_over(Some(Decimal::from_pair(width as int, 0)), bounds.max_x.spec_sub(bounds.min_x)),
        spec_over(Some(Decimal::from_pair(height as int, 0)), bounds.max_y.spec_sub(bounds.min_y)),
    ) {
        (Some(by_width), Some(by_height)) => Some(
            Scale {
                factor: if by_width.less_than(by_height) {
                    by_width
                } else {
                    by_height
                },
                offset_x: bounds.min_x,
                offset_y: bounds.min_y,
                canvas_width: width,
                canvas_height: height,
            },
        ),
        _ => None,
    }
}

/// Where a point of the fractal lies on the canvas, measured from the
/// lower left.
pub open spec fn spec_transform(p: Point, scale: Scale) -> Option<Point> {
    match (
        spec_times(p.x.spec_sub(scale.offset_x), Some(scale.factor)),
        spec_times(p.y.spec_sub(scale.offset_y), Some(scale.factor)),
    ) {
        (Some(x), Some(y)) => Some(Point { x, y }),
        _ => None,
    }
}

/// The colour of a triangle in state `state`.
pub open spec fn fill_of(colors: ColorScheme, state: TriangleState) -> Seq<char> {
    match state {
        TriangleState::Genesis => colors.genesis@,
        TriangleState::Active => colors.active@,
        TriangleState::Subdivided => colors.subdivided@,
        TriangleState::Void => colors.void_triangle@,
        TriangleState::Inactive => colors.active@,
    }
}

/// Whether `drawn` is the triangle of `record` as it is drawn at `scale`.
pub open spec fn draws(drawn: DrawnTriangle, record: TriangleRecord, scale: Scale, colors: ColorScheme) -> bool {
    &&& spec_transform(record.triangle.a(), scale) == Some(drawn.corners@[0])
    &&& spec_transform(record.triangle.b(), scale) == Some(drawn.corners@[1])
    &&& spec_transform(record.triangle.c(), scale) == Some(drawn.corners@[2])
    &&& drawn.fill@ == fill_of(colors, record.state)
    &&& drawn.is_void == (record.state == TriangleState::Void)
}

/// Whether the corners of the triangle of `record` can be placed at
/// `scale` without overflow.
pub open spec fn can_draw(record: TriangleRecord, scale: Scale) -> bool {
    &&& spec_transform(record.triangle.a(), scale) is Some
    &&& spec_transform(record.triangle.b(), scale) is Some
    &&& spec_transform(record.triangle.c(), scale) is Some
}

/// Whether the label of the triangle of `record` can be placed at `scale`
/// without overflow.
pub open spec fn can_label(record: TriangleRecord, scale: Scale) -> bool {
    record.triangle.spec_centroid() matches Some(c) && spec_transform(c, scale) is Some
}

/// Whether the triangle of `record` is drawn: a void only where voids are
/// shown.
pub open spec fn is_drawn(record: TriangleRecord, show_voids: bool) -> bool {
    show_voids || record.state != TriangleState::Void
}

/// The records that are drawn, in their order.
pub open spec fn shown(records: Seq<TriangleRecord>, show_voids: bool) -> Seq<TriangleRecord> {
    kept(records, |r: TriangleRecord| is_drawn(r, show_voids))
}

/// The bounds of the triangles of `structure`, with a tenth of their width
/// as padding on every side.
///
/// Fails with `ArithmeticOverflow` where the padding overflows, as it does
/// for a structure without triangles.
pub fn calculate_bounds(structure: &FractalStructure) -> (r: SierpinskiResult<Bounds>)
    ensures
        match spec_bounds(structure.records(), structure.spec_max_depth()) {
            Some(bounds) => r == Ok::<Bounds, SierpinskiError>(bounds),
            None => r == Err::<Bounds, SierpinskiError>(SierpinskiError::ArithmeticOverflow),
        },
{
    let ghost records = structure.records();
    let top = match Decimal::from_parts(MAX_MANTISSA, 0) {
        Some(d) => d,
        None => Decimal::zero(),
    };
    let mut bounds = Bounds { min_x: top, max_x: top.neg(), min_y: top, max_y: top.neg() };
    let ghost start = bounds;
    let levels: u16 = structure.max_depth() as u16 + 1;
    let mut count: u16 = 0;
    while count < levels
        invariant
            records == structure.records(),
            levels == structure.spec_max_depth() + 1,
            start == (Bounds { min_x: greatest(), max_x: least(), min_y: greatest(), max_y: least() }),
            count <= levels,
            bounds == grown(start, levels_up(records, count as nat)),
        decreases levels - count,
    {
        let ghost before = levels_up(records, count as nat);
        let members = structure.triangles_at_depth(count as u8);
        let ghost level = records_of_refs(members@);
        let mut i: usize = 0;
        assert(before + level.subrange(0, 0) =~= before);
        while i < members.len()
            invariant
                level == records_of_refs(members@),
                i <= members.len(),
                bounds == grown(start, before + level.subrange(0, i as int)),
            decreases members.len() - i,
        {
            proof {
                let next = before + level.subrange(0, i + 1);
                assert(next.drop_last() =~= before + level.subrange(0, i as int));
                assert(next.last() == members@[i as int]@);
            }
            let vertices = members[i].triangle.vertices();
            bounds = take_in(bounds, &vertices[0]);
            bounds = take_in(bounds, &vertices[1]);
            bounds = take_in(bounds, &vertices[2]);
            i = i + 1;
        }
        assert(level.subrange(0, i as int) =~= level);
        count = count + 1;
    }
    let padding = times(bounds.max_x.checked_sub(bounds.min_x), Some(Decimal::new(1, 1)));
    match (
        minus(Some(bounds.min_x), padding),
        plus(Some(bounds.max_x), padding),
        minus(Some(bounds.min_y), padding),
        plus(Some(bounds.max_y), padding),
    ) {
        (Some(min_x), Some(max_x), Some(min_y), Some(max_y)) => Ok(Bounds { min_x, max_x, min_y, max_y }),
        _ => Err(SierpinskiError::ArithmeticOverflow),
    }
}

/// The bounds after `p` has been taken in.
pub fn take_in(bounds: Bounds, p: &Point) -> (r: Bounds)
    ensures
        r == taken_in(bounds, *p),
{
    Bounds {
        min_x: if p.x.lt(&bounds.min_x) {
            p.x
        } else {
            bounds.min_x
        },
        max_x: if bounds.max_x.lt(&p.x) {
            p.x
        } else {
            bounds.max_x
        },
        min_y: if p.y.lt(&bounds.min_y) {
            p.y
        } else {
            bounds.min_y
        },
        max_y: if bounds.max_y.lt(&p.y) {
            p.y
        } else {
            bounds.max_y
        },
    }
}

/// The scale that fits `bounds` on a canvas of `width` by `height`.
///
/// Fails with `ArithmeticOverflow` where the bounds have no width or no
/// height, or a step overflows.
pub fn calculate_scale(bounds: &Bounds, width: u32, height: u32) -> (r: SierpinskiResult<Scale>)
    ensures
        match spec_scale(*bounds, width, height) {
            Some(scale) => r == Ok::<Scale, SierpinskiError>(scale),
            None => r == Err::<Scale, SierpinskiError>(SierpinskiError::ArithmeticOverflow),
        },
{
    let by_width = over(Some(Decimal::from_unsigned(width as u64, 0)), bounds.max_x.checked_sub(bounds.min_x));
    let by_height = over(
        Some(Decimal::from_unsigned(height as u64, 0)),
        bounds.max_y.checked_sub(bounds.min_y),
    );
    match (by_width, by_height) {
        (Some(by_width), Some(by_height)) => Ok(
            Scale {
                factor: if by_width.lt(&by_height) {
                    by_width
                } else {
                    by_height
                },
                offset_x: bounds.min_x,
                offset_y: bounds.min_y,
                canvas_width: width,
                canvas_height: height,
            },
        ),
        _ => Err(SierpinskiError::ArithmeticOverflow),
    }
}

/// Where `point` lies on the canvas, measured from the lower left; `None`
/// where a step overflows.
pub fn transform_point(point: &Point, scale: &Scale) -> (r: Option<Point>)
    ensures
        r == spec_transform(*point, *scale),
{
    match (
        times(point.x.checked_sub(scale.offset_x), Some(scale.factor)),
        times(point.y.checked_sub(scale.offset_y), Some(scale.factor)),
    ) {
        (Some(x), Some(y)) => Some(Point { x, y }),
        _ => None,
    }
}

/// The colour of a triangle in state `state`.
pub fn fill_color(colors: &ColorScheme, state: TriangleState) -> (r: String)
    ensures
        r@ == fill_of(*colors, state),
{
    match state {
        TriangleState::Genesis => colors.genesis.clone(),
        TriangleState::Active => colors.active.clone(),
        TriangleState::Subdivided => colors.subdivided.clone(),
        TriangleState::Void => colors.void_triangle.clone(),
        TriangleState::Inactive => colors.active.clone(),
    }
}

/// The triangle of `triangle` as it is drawn at `scale`; `None` where a
/// step overflows.
pub fn draw_triangle(
    triangle: &FractalTriangle,
    scale: &Scale,
    colors: &ColorScheme,
) -> (r: Option<DrawnTriangle>)
    ensures
        r matches Some(d) ==> draws(d, triangle@, *scale, *colors),
        r is None <==> (spec_transform(triangle.triangle.a(), *scale) is None || spec_transform(
            triangle.triangle.b(),
            *scale,
        ) is None || spec_transform(triangle.triangle.c(), *scale) is None),
{
    let vertices = triangle.triangle.vertices();
    match (
        transform_point(&vertices[0], scale),
        transform_point(&vertices[1], scale),
        transform_point(&vertices[2], scale),
    ) {
        (Some(a), Some(b), Some(c)) => {
            let corners = [a, b, c];
            let is_void = match triangle.state {
                TriangleState::Void => true,
                _ => false,
            };
            Some(DrawnTriangle { corners, fill: fill_color(colors, triangle.state), is_void })
        },
        _ => None,
    }
}

/// The triangles of `structure` as they are drawn at `scale`, the deepest
/// level first, so that what is drawn later lies on top. Voids are left out
/// unless `show_voids` says otherwise.
///
/// Fails with `ArithmeticOverflow` where a corner overflows.
pub fn layout_triangles(
    structure: &FractalStructure,
    scale: &Scale,
    colors: &ColorScheme,
    show_voids: bool,
) -> (r: SierpinskiResult<Vec<DrawnTriangle>>)
    ensures
        r matches Ok(drawn) ==> {
            let wanted = shown(
                levels_down(structure.records(), (structure.spec_max_depth() + 1) as nat),
                show_voids,
            );
            &&& drawn@.len() == wanted.len()
            &&& forall|k: int| 0 <= k < drawn@.len() ==> draws(#[trigger] drawn@[k], wanted[k], *scale, *colors)
        },
        r matches Err(e) ==> e == SierpinskiError::ArithmeticOverflow,
        r is Err ==> exists|k: int|
            0 <= k < shown(
                levels_down(structure.records(), (structure.spec_max_depth() + 1) as nat),
                show_voids,
            ).len() && !can_draw(
                #[trigger] shown(
                    levels_down(structure.records(), (structure.spec_max_depth() + 1) as nat),
                    show_voids,
                )[k],
                *scale,
            ),
{
    let ghost records = structure.records();
    let ghost pick = |r: TriangleRecord| is_drawn(r, show_voids);
    let levels: u16 = structure.max_depth() as u16 + 1;
    let ghost all = kept(levels_down(records, levels as nat), pick);
    let mut drawn: Vec<DrawnTriangle> = Vec::new();
    let ghost mut laid: Seq<TriangleRecord> = Seq::empty();
    let mut remaining: u16 = levels;
    assert(laid + kept(levels_down(records, remaining as nat), pick) =~= all);
    while remaining > 0
        invariant
            records == structure.records(),
            pick == |r: TriangleRecord| is_drawn(r, show_voids),
            levels == structure.spec_max_depth() + 1,
            all == kept(levels_down(records, levels as nat), pick),
            remaining <= levels,
            laid + kept(levels_down(records, remaining as nat), pick) == all,
            drawn@.len() == laid.len(),
            forall|k: int| 0 <= k < drawn@.len() ==> draws(#[trigger] drawn@[k], laid[k], *scale, *colors),
        decreases remaining,
    {
        remaining = remaining - 1;
        let members = structure.triangles_at_depth(remaining as u8);
        let ghost level = records_of_refs(members@);
        let ghost rest = kept(levels_down(records, remaining as nat), pick);
        let ghost before = laid;
        proof {
            lemma_kept_concat(level, levels_down(records, remaining as nat), pick);
            assert(before + (kept(level, pick) + rest) =~= all);
            assert(before + kept(level.subrange(0, 0), pick) =~= before);
        }
        let mut i: usize = 0;
        while i < members.len()
            invariant
                level == records_of_refs(members@),
                pick == |r: TriangleRecord| is_drawn(r, show_voids),
                i <= members.len(),
                laid == before + kept(level.subrange(0, i as int), pick),
                before + (kept(level, pick) + rest) == all,
                all == kept(levels_down(structure.records(), (structure.spec_max_depth() + 1) as nat), pick),
                drawn@.len() == laid.len(),
                forall|k: int| 0 <= k < drawn@.len() ==> draws(#[trigger] drawn@[k], laid[k], *scale, *colors),
            decreases members.len() - i,
        {
            proof {
                let next = level.subrange(0, i + 1);
                assert(next.drop_last() =~= level.subrange(0, i as int));
                assert(next.last() == members@[i as int]@);
            }
            let is_void = match members[i].state {
                TriangleState::Void => true,
                _ => false,
            };
            if show_voids || !is_void {
                match draw_triangle(members[i], scale, colors) {
                    Some(d) => {
                        drawn.push(d);
                        proof {
                            laid = laid.push(members@[i as int]@);
                            assert(laid =~= before + kept(level.subrange(0, i + 1), pick));
                        }
                    },
                    None => {
                        proof {
                            let record = members@[i as int]@;
                            let head = level.subrange(0, i + 1);
                            let tail = level.subrange(i + 1, level.len() as int);
                            assert(head + tail =~= level);
                            lemma_kept_concat(head, tail, pick);
                            let seen = kept(level.subrange(0, i as int), pick);
                            assert(kept(head, pick) == seen.push(record));
                            let whole = before + (kept(level, pick) + rest);
                            assert(whole == all);
                            assert(kept(level, pick) == seen.push(record) + kept(tail, pick));
                            assert(whole[laid.len() as int] == record);
                            let wanted = shown(
                                levels_down(structure.records(), (structure.spec_max_depth() + 1) as nat),
                                show_voids,
                            );
                            assert(wanted == all);
                            assert(0 <= laid.len() < wanted.len());
                            assert(!can_draw(wanted[laid.len() as int], *scale));
                        }
                        return Err(SierpinskiError::ArithmeticOverflow);
                    },
                }
            }
            i = i + 1;
        }
        assert(level.subrange(0, i as int) =~= level);
        assert((before + kept(level, pick)) + rest =~= before + (kept(level, pick) + rest));
    }
    assert(laid + Seq::<TriangleRecord>::empty() =~= laid);
    Ok(drawn)
}

/// The labels of `structure` as they are drawn at `scale`: for every
/// triangle that is no void, level by level from the top, the text of its
/// address at its centroid.
///
/// Fails with `ArithmeticOverflow` where a centroid or its place overflows.
pub fn layout_labels(structure: &FractalStructure, scale: &Scale) -> (r: SierpinskiResult<Vec<DrawnLabel>>)
    ensures
        r matches Ok(labels) ==> {
            let wanted = shown(levels_up(structure.records(), (structure.spec_max_depth() + 1) as nat), false);
            &&& labels@.len() == wanted.len()
            &&& forall|k: int| 0 <= k < labels@.len() ==> labels_triangle(#[trigger] labels@[k], wanted[k], *scale)
        },
        r matches Err(e) ==> e == SierpinskiError::ArithmeticOverflow,
        r is Err ==> exists|k: int|
            0 <= k < shown(levels_up(structure.records(), (structure.spec_max_depth() + 1) as nat), false).len()
                && !can_label(
                #[trigger] shown(levels_up(structure.records(), (structure.spec_max_depth() + 1) as nat), false)[k],
                *scale,
            ),
{
    let ghost records = structure.records();
    let ghost pick = |r: TriangleRecord| is_drawn(r, false);
    let levels: u16 = structure.max_depth() as u16 + 1;
    let mut labels: Vec<DrawnLabel> = Vec::new();
    let ghost mut laid: Seq<TriangleRecord> = Seq::empty();
    let mut count: u16 = 0;
    assert(laid =~= kept(levels_up(records, 0), pick));
    while count < levels
        invariant
            records == structure.records(),
            pick == |r: TriangleRecord| is_drawn(r, false),
            levels == structure.spec_max_depth() + 1,
            count <= levels,
            laid == kept(levels_up(records, count as nat), pick),
            labels@.len() == laid.len(),
            forall|k: int| 0 <= k < labels@.len() ==> labels_triangle(#[trigger] labels@[k], laid[k], *scale),
        decreases levels - count,
    {
        let ghost above = levels_up(records, count as nat);
        let ghost before = laid;
        let members = structure.triangles_at_depth(count as u8);
        let ghost level = records_of_refs(members@);
        let mut i: usize = 0;
        assert(before + kept(level.subrange(0, 0), pick) =~= before);
        while i < members.len()
            invariant
                level == records_of_refs(members@),
                pick == |r: TriangleRecord| is_drawn(r, false),
                i <= members.len(),
                laid == before + kept(level.subrange(0, i as int), pick),
                records == structure.records(),
                levels == structure.spec_max_depth() + 1,
                count < levels,
                level == at_depth(records, count as u8),
                above == levels_up(records, count as nat),
                before == kept(above, pick),
                labels@.len() == laid.len(),
                forall|k: int| 0 <= k < labels@.len() ==> labels_triangle(#[trigger] labels@[k], laid[k], *scale),
            decreases members.len() - i,
        {
            proof {
                let next = level.subrange(0, i + 1);
                assert(next.drop_last() =~= level.subrange(0, i as int));
                assert(next.last() == members@[i as int]@);
            }
            let member = members[i];
            let is_void = match member.state {
                TriangleState::Void => true,
                _ => false,
            };
            if !is_void {
                proof {
                    let record = member@;
                    let head = level.subrange(0, i + 1);
                    let tail = level.subrange(i + 1, level.len() as int);
                    assert(head + tail =~= level);
                    lemma_kept_concat(head, tail, pick);
                    lemma_kept_concat(above, level, pick);
                    assert(above + level =~= levels_up(records, (count + 1) as nat));
                    lemma_levels_prefix(records, (count + 1) as nat, levels as nat, pick);
                    let seen = kept(level.subrange(0, i as int), pick);
                    assert(kept(head, pick) == seen.push(record));
                    let so_far = before + (seen.push(record) + kept(tail, pick));
                    assert(so_far == kept(levels_up(records, (count + 1) as nat), pick));
                    assert(so_far[laid.len() as int] == record);
                    let wanted = shown(levels_up(records, levels as nat), false);
                    assert(wanted == kept(levels_up(records, levels as nat), pick));
                    assert(wanted[laid.len() as int] == record);
                }
                let centroid = match member.triangle.centroid() {
                    Ok(c) => c,
                    Err(_) => {
                        proof {
                            let wanted = shown(
                                levels_up(structure.records(), (structure.spec_max_depth() + 1) as nat),
                                false,
                            );
                            assert(0 <= laid.len() < wanted.len());
                            assert(!can_label(wanted[laid.len() as int], *scale));
                        }
                        return Err(SierpinskiError::ArithmeticOverflow);
                    },
                };
                let position = match transform_point(&centroid, scale) {
                    Some(p) => p,
                    None => {
                        proof {
                            let wanted = shown(
                                levels_up(structure.records(), (structure.spec_max_depth() + 1) as nat),
                                false,
                            );
                            assert(0 <= laid.len() < wanted.len());
                            assert(!can_label(wanted[laid.len() as int], *scale));
                        }
                        return Err(SierpinskiError::ArithmeticOverflow);
                    },
                };
                labels.push(
                    DrawnLabel { position, depth: member.depth, text: member.address.to_string_representation() },
                );
                proof {
                    laid = laid.push(member@);
                    assert(laid =~= before + kept(level.subrange(0, i + 1), pick));
                }
            }
            i = i + 1;
        }
        assert(level.subrange(0, i as int) =~= level);
        proof {
            lemma_kept_concat(above, level, pick);
        }
        count = count + 1;
    }
    Ok(labels)
}

/// Whether `label` is the label of the triangle of `record` at `scale`.
pub open spec fn labels_triangle(label: DrawnLabel, record: TriangleRecord, scale: Scale) -> bool {
    &&& record.triangle.spec_centroid() matches Some(c) && spec_transform(c, scale) == Some(label.position)
    &&& label.depth == record.depth
    &&& label.text@ == address_text(record.address)
}

/// What is kept of the first levels is the beginning of what is kept of
/// more levels.
pub proof fn lemma_levels_prefix(
    records: Seq<TriangleRecord>,
    count: nat,
    levels: nat,
    wanted: spec_fn(TriangleRecord) -> bool,
)
    requires
        count <= levels,
    ensures
        kept(levels_up(records, count), wanted).len() <= kept(levels_up(records, levels), wanted).len(),
        kept(levels_up(records, levels), wanted).subrange(
            0,
            kept(levels_up(records, count), wanted).len() as int,
        ) == kept(levels_up(records, count), wanted),
    decreases levels,
{
    if count < levels {
        lemma_levels_prefix(records, count, (levels - 1) as nat, wanted);
        lemma_kept_concat(levels_up(records, (levels - 1) as nat), at_depth(records, (levels - 1) as u8), wanted);
        let shorter = kept(levels_up(records, (levels - 1) as nat), wanted);
        let longer = kept(levels_up(records, levels), wanted);
        let first = kept(levels_up(records, count), wanted);
        assert(longer.subrange(0, first.len() as int) =~= shorter.subrange(0, first.len() as int));
    } else {
        let all = kept(levels_up(records, levels), wanted);
        assert(all.subrange(0, all.len() as int) =~= all);
    }
}

/// Keeping what is wanted of two runs of records, one after the other, is
/// keeping it of each.
pub proof fn lemma_kept_concat(
    a: Seq<TriangleRecord>,
    b: Seq<TriangleRecord>,
    wanted: spec_fn(TriangleRecord) -> bool,
)
    ensures
        kept(a + b, wanted) == kept(a, wanted) + kept(b, wanted),
    decreases b.len(),
{
    if b.len() == 0 {
        assert(a + b =~= a);
        assert(kept(a, wanted) + Seq::<TriangleRecord>::empty() =~= kept(
            a,
            wanted,
        ));
    } else {
        assert((a + b).drop_last() =~= a + b.drop_last());
        assert((a + b).last() == b.last());
        lemma_kept_concat(a, b.drop_last(), wanted);
        if wanted(b.last()) {
            assert((kept(a, wanted) + kept(b.drop_last(), wanted)).push(b.last())
                =~= kept(a, wanted) + kept(b.drop_last(), wanted).push(
                b.last(),
            ));
        }
    }
}

} // verus!
