//! Subdivision of a triangle into three children and a void.
//!
//! A triangle `A B C` is split at the midpoints of its sides. The three
//! corner triangles become its children, at the addresses that end in 0, 1
//! and 2; the triangle of the midpoints is the void, at the address that
//! ends in 3. A subdivision is sound when the four parts together have the
//! area of the parent, within a millionth of it.

use vstd::prelude::*;
use vstd::string::*;
use crate::decimal::{exact_difference, exact_product, exact_sum, is_valid, lemma_abs_units, lemma_from_pair, lemma_pow10_positive, lemma_units_of_whole, minus, plus, pow10, spec_magnitude, spec_minus, spec_plus, Decimal, MAX_SCALE};
use crate::errors::{SierpinskiError, SierpinskiResult};
use crate::address::{lemma_pow4_bound, pow4};
use crate::fractal::{added, count_solid, distinct, in_state, lemma_position_of_present, lemma_position_range, lookup, note_child, position, records_of_refs, upsert, FractalStructure, FractalTriangle, TriangleRecord};
use crate::geometry::{exact_midpoint, lemma_exact_midpoint, settle, settled, spec_midpoint, Point};
use crate::clock::unix_time_now;
use crate::ident::{id_text, random_id, uuid_text};
use crate::state::TriangleState;
use crate::triangle::{construction_outcome, exact_area, lemma_exact_area, makes_triangle, settled_flag, signed_double_area, spec_area_of, Triangle};
use crate::MAX_SUBDIVISION_DEPTH;

verus! {

/// The deepest level whose triangle count fits in 64 bits.
pub const MAX_COUNTED_DEPTH: u8 = 40;

/// What a subdivision made.
#[derive(Debug)]
pub struct SubdivisionResult {
    /// The three corner triangles, at `A`, at `B` and at `C`.
    pub children: [FractalTriangle; 3],
    /// The triangle of the three midpoints.
    pub void_triangle: FractalTriangle,
    /// The parent as it is after the subdivision.
    pub parent: FractalTriangle,
}

/// The midpoints of the sides of a triangle that is about to be split.
pub struct SplitPoints {
    pub a: Point,
    pub b: Point,
    pub c: Point,
    pub mid_ab: Point,
    pub mid_bc: Point,
    pub mid_ca: Point,
}

impl SplitPoints {
    /// The vertices of part `i`: the corner triangles at `A`, `B` and `C`
    /// for 0, 1 and 2, and the triangle of the midpoints for 3.
    pub open spec fn part(self, i: int) -> (Point, Point, Point) {
        if i == 0 {
            (self.a, self.mid_ab, self.mid_ca)
        } else if i == 1 {
            (self.mid_ab, self.b, self.mid_bc)
        } else if i == 2 {
            (self.mid_ca, self.mid_bc, self.c)
        } else {
            (self.mid_ab, self.mid_bc, self.mid_ca)
        }
    }

    /// Whether the vertices of part `i` make a triangle.
    pub open spec fn part_is_triangle(self, i: int) -> bool {
        makes_triangle(self.part(i).0, self.part(i).1, self.part(i).2)
    }

    /// Why part `i` is no triangle, where it is none.
    pub open spec fn part_outcome(self, i: int) -> SierpinskiResult<()> {
        construction_outcome(self.part(i).0, self.part(i).1, self.part(i).2)
    }

    /// Whether `t` is part `i`.
    pub open spec fn is_part(self, i: int, t: Triangle) -> bool {
        (t.a(), t.b(), t.c()) == self.part(i)
    }
}

/// The points at which `triangle` is split; `None` where a midpoint
/// overflows.
pub open spec fn split_points(triangle: Triangle) -> Option<SplitPoints> {
    match triangle.spec_side_midpoints() {
        Some((mid_ab, mid_bc, mid_ca)) => Some(
            SplitPoints { a: triangle.a(), b: triangle.b(), c: triangle.c(), mid_ab, mid_bc, mid_ca },
        ),
        None => None,
    }
}

/// Whether `triangle` can be split into four triangles, and if not, why:
/// the midpoints are computed first, then the parts are made in the order
/// 0, 1, 2, 3, and the first failure is the answer.
pub open spec fn split_outcome(triangle: Triangle) -> SierpinskiResult<()> {
    match split_points(triangle) {
        None => Err(SierpinskiError::ArithmeticOverflow),
        Some(points) => if !points.part_is_triangle(0) {
            points.part_outcome(0)
        } else if !points.part_is_triangle(1) {
            points.part_outcome(1)
        } else if !points.part_is_triangle(2) {
            points.part_outcome(2)
        } else {
            points.part_outcome(3)
        },
    }
}

/// The reason given where a triangle may not be subdivided.
pub open spec fn refusal_text(id: u128, state: TriangleState) -> Seq<char> {
    "Triangle "@ + uuid_text(id) + " cannot be subdivided in state "@ + state.spec_name()
}

/// Whether `child` is the record of part `index` of a subdivision of
/// `parent` at `points`: a triangle one level down, at the parent's address
/// extended by `index`, without children, a void for index 3 and active
/// otherwise.
pub open spec fn is_part_record(
    child: TriangleRecord,
    parent: TriangleRecord,
    points: SplitPoints,
    index: int,
) -> bool {
    &&& points.is_part(index, child.triangle)
    &&& child.state == if index == 3 {
        TriangleState::Void
    } else {
        TriangleState::Active
    }
    &&& child.address == parent.address.push(index as u8)
    &&& child.depth == parent.depth + 1
    &&& child.parent_id == Some(parent.id)
    &&& child.child_ids.len() == 0
    &&& child.updated_at == child.created_at
}

/// Whether `after` is the record of `parent` once it has been subdivided
/// into the children with the given identifiers: it is in state
/// `Subdivided` and has gained the four as children, in their order.
pub open spec fn is_subdivided_record(
    after: TriangleRecord,
    parent: TriangleRecord,
    c0: u128,
    c1: u128,
    c2: u128,
    void: u128,
) -> bool {
    after == (TriangleRecord {
        state: TriangleState::Subdivided,
        updated_at: after.updated_at,
        ..parent.with_child(c0).with_child(c1).with_child(c2).with_child(void)
    })
}

/// The largest share of the parent's area by which the parts of a sound
/// subdivision may miss it: a millionth.
pub open spec fn conservation_tolerance() -> Decimal {
    Decimal::from_pair(1, 6)
}

/// Whether four parts conserve the area of their parent: whether the
/// absolute difference between the parent's area and the sum of theirs is
/// at most a millionth of the parent's area. The sum is taken from zero in
/// the order child 0, 1, 2, void. `None` where a step overflows.
pub open spec fn area_conserved(
    parent: Decimal,
    c0: Decimal,
    c1: Decimal,
    c2: Decimal,
    void: Decimal,
) -> Option<bool> {
    let children = spec_plus(spec_plus(Decimal::from_pair(0, 0).spec_add(c0), Some(c1)), Some(c2));
    let parts = spec_plus(children, Some(void));
    match (spec_magnitude(spec_minus(Some(parent), parts)), parent.spec_mul(conservation_tolerance())) {
        (Some(difference), Some(tolerance)) => Some(difference.at_most(tolerance)),
        _ => None,
    }
}

/// What the check of a subdivision answers: no where a state or a parent
/// link is not as a subdivision leaves it, and otherwise whether the area is
/// conserved.
pub open spec fn subdivision_verdict(
    parent: TriangleRecord,
    c0: TriangleRecord,
    c1: TriangleRecord,
    c2: TriangleRecord,
    void: TriangleRecord,
) -> SierpinskiResult<bool> {
    if parent.state != TriangleState::Subdivided {
        Ok(false)
    } else if !is_linked_child(c0, parent) || !is_linked_child(c1, parent) || !is_linked_child(c2, parent) {
        Ok(false)
    } else if void.state != TriangleState::Void {
        Ok(false)
    } else {
        match (
            parent.triangle.spec_area(),
            c0.triangle.spec_area(),
            c1.triangle.spec_area(),
            c2.triangle.spec_area(),
            void.triangle.spec_area(),
        ) {
            (Some(p), Some(a0), Some(a1), Some(a2), Some(v)) => settled_flag(area_conserved(p, a0, a1, a2, v)),
            _ => Err(SierpinskiError::ArithmeticOverflow),
        }
    }
}

/// Whether `child` is active and names `parent` as its parent.
pub open spec fn is_linked_child(child: TriangleRecord, parent: TriangleRecord) -> bool {
    child.state == TriangleState::Active && child.parent_id == Some(parent.id)
}

/// Three to the power `n`.
pub open spec fn pow3(n: nat) -> nat
    decreases n,
{
    if n == 0 {
        1
    } else {
        3 * pow3((n - 1) as nat)
    }
}

/// The number of triangles, the voids left out, of a fractal in which every
/// triangle down to depth `depth` has been subdivided: the sum of the
/// powers of three up to `depth`.
pub open spec fn cumulative_count(depth: nat) -> nat
    decreases depth,
{
    if depth == 0 {
        1
    } else {
        cumulative_count((depth - 1) as nat) + pow3(depth)
    }
}

/// The number of triangles, the voids counted in, of a fractal in which
/// every triangle down to depth `depth` has been subdivided: every
/// subdivision has left one void.
pub open spec fn complete_count(depth: nat) -> nat {
    if depth == 0 {
        1
    } else {
        cumulative_count(depth) + cumulative_count((depth - 1) as nat)
    }
}

/// The areas of the records, added to `start` in their order.
pub open spec fn areas_added(start: Option<Decimal>, records: Seq<TriangleRecord>) -> Option<Decimal>
    decreases records.len(),
{
    if records.len() == 0 {
        start
    } else {
        spec_plus(areas_added(start, records.drop_last()), records.last().triangle.spec_area())
    }
}

/// Splits `parent` into three children and a void.
///
/// The children are the corner triangles `(A, mid AB, mid CA)`,
/// `(mid AB, B, mid BC)` and `(mid CA, mid BC, C)`; they are active and get
/// the parent's address extended by 0, 1 and 2. The void is the triangle
/// `(mid AB, mid BC, mid CA)`; it is born a void and gets the address
/// extended by 3. The parent handed back is subdivided and has the four as
/// its children. `parent` itself is left as it is.
///
/// Fails with `SubdivisionError` where the parent may not be subdivided, and
/// with the error of the first part that is no triangle.
pub fn subdivide_triangle(parent: &FractalTriangle) -> (r: SierpinskiResult<SubdivisionResult>)
    ensures
        !parent@.can_subdivide() ==> (r matches Err(SierpinskiError::SubdivisionError { reason })
            && reason@ == refusal_text(parent.id, parent.state)),
        parent@.can_subdivide() ==> (r is Ok <==> split_outcome(parent.triangle) is Ok),
        parent@.can_subdivide() ==> (r matches Err(e) ==> split_outcome(parent.triangle) == Err::<
            (),
            SierpinskiError,
        >(e)),
        r matches Ok(made) ==> split_points(parent.triangle) matches Some(points) && made.follows(
            parent@,
            points,
        ),
{
    let draws = fresh_part_draws();
    subdivide_triangle_with(parent, &draws)
}

/// What is drawn for a subdivision: an identifier and a time of making for
/// each of the four parts, in their order, and the time at which the parent
/// changes its state.
#[derive(Debug, Clone, Copy)]
pub struct PartDraws {
    pub ids: [u128; 4],
    pub times: [u64; 4],
    pub changed_at: u64,
}

/// Fresh identifiers for the parts of a subdivision, and the readings of
/// the clock: for each part its identifier and then its time, and at the
/// end the time for the parent.
pub fn fresh_part_draws() -> PartDraws {
    let id0 = random_id();
    let time0 = unix_time_now();
    let id1 = random_id();
    let time1 = unix_time_now();
    let id2 = random_id();
    let time2 = unix_time_now();
    let id3 = random_id();
    let time3 = unix_time_now();
    PartDraws { ids: [id0, id1, id2, id3], times: [time0, time1, time2, time3], changed_at: unix_time_now() }
}

/// Subdivides `parent` as [`subdivide_triangle`] does, with what is drawn
/// taken from `draws`.
pub fn subdivide_triangle_with(parent: &FractalTriangle, draws: &PartDraws) -> (r: SierpinskiResult<SubdivisionResult>)
    ensures
        !parent@.can_subdivide() ==> (r matches Err(SierpinskiError::SubdivisionError { reason })
            && reason@ == refusal_text(parent.id, parent.state)),
        parent@.can_subdivide() ==> (r is Ok <==> split_outcome(parent.triangle) is Ok),
        parent@.can_subdivide() ==> (r matches Err(e) ==> split_outcome(parent.triangle) == Err::<
            (),
            SierpinskiError,
        >(e)),
        r matches Ok(made) ==> split_points(parent.triangle) matches Some(points) && made.follows(
            parent@,
            points,
        ) && made.drawn(*draws),
{
    if !parent.can_subdivide() {
        let mut reason = "Triangle ".to_owned();
        let id = id_text(parent.id);
        reason.append(id.as_str());
        reason.append(" cannot be subdivided in state ");
        reason.append(parent.state.name());
        return Err(SierpinskiError::SubdivisionError { reason });
    }
    let midpoints = parent.triangle.side_midpoints()?;
    let mid_ab = midpoints[0];
    let mid_bc = midpoints[1];
    let mid_ca = midpoints[2];
    let vertices = parent.triangle.vertices();
    let a = vertices[0];
    let b = vertices[1];
    let c = vertices[2];
    let ghost points = SplitPoints { a, b, c, mid_ab, mid_bc, mid_ca };
    assert(split_points(parent.triangle) == Some(points));

    let corner_a = Triangle::new(a, mid_ab, mid_ca)?;
    let corner_b = Triangle::new(mid_ab, b, mid_bc)?;
    let corner_c = Triangle::new(mid_ca, mid_bc, c)?;
    let middle = Triangle::new(mid_ab, mid_bc, mid_ca)?;

    let child_a = FractalTriangle::child_with_identity(
        draws.ids[0],
        draws.times[0],
        corner_a,
        parent,
        0,
        TriangleState::Active,
    )?;
    let child_b = FractalTriangle::child_with_identity(
        draws.ids[1],
        draws.times[1],
        corner_b,
        parent,
        1,
        TriangleState::Active,
    )?;
    let child_c = FractalTriangle::child_with_identity(
        draws.ids[2],
        draws.times[2],
        corner_c,
        parent,
        2,
        TriangleState::Active,
    )?;
    let void_triangle = FractalTriangle::child_with_identity(
        draws.ids[3],
        draws.times[3],
        middle,
        parent,
        3,
        TriangleState::Void,
    )?;

    let mut updated = parent.clone();
    match updated.change_state_at(draws.changed_at, TriangleState::Subdivided) {
        Ok(()) => {},
        Err(e) => {
            return Err(e);
        },
    }
    updated.add_child(child_a.id);
    updated.add_child(child_b.id);
    updated.add_child(child_c.id);
    updated.add_child(void_triangle.id);

    let made = SubdivisionResult { children: [child_a, child_b, child_c], void_triangle, parent: updated };
    assert(made.follows(parent@, points));
    Ok(made)
}

impl SubdivisionResult {
    /// Whether the parts have the identifiers and the times of making of
    /// `draws`, and the parent changed its state at the time of `draws`.
    pub open spec fn drawn(self, draws: PartDraws) -> bool {
        &&& self.children@[0].id == draws.ids@[0] && self.children@[0].created_at == draws.times@[0]
        &&& self.children@[1].id == draws.ids@[1] && self.children@[1].created_at == draws.times@[1]
        &&& self.children@[2].id == draws.ids@[2] && self.children@[2].created_at == draws.times@[2]
        &&& self.void_triangle.id == draws.ids@[3] && self.void_triangle.created_at == draws.times@[3]
        &&& self.parent.updated_at == draws.changed_at
    }

    /// Whether this is what a subdivision of `parent` at `points` makes.
    pub open spec fn follows(self, parent: TriangleRecord, points: SplitPoints) -> bool {
        &&& is_part_record(self.children@[0]@, parent, points, 0)
        &&& is_part_record(self.children@[1]@, parent, points, 1)
        &&& is_part_record(self.children@[2]@, parent, points, 2)
        &&& is_part_record(self.void_triangle@, parent, points, 3)
        &&& is_subdivided_record(
            self.parent@,
            parent,
            self.children@[0].id,
            self.children@[1].id,
            self.children@[2].id,
            self.void_triangle.id,
        )
    }

    /// What [`validate_subdivision`] answers for this subdivision.
    pub open spec fn verdict(self) -> SierpinskiResult<bool> {
        subdivision_verdict(
            self.parent@,
            self.children@[0]@,
            self.children@[1]@,
            self.children@[2]@,
            self.void_triangle@,
        )
    }
}

/// Whether four parts conserve the area of their parent; `None` where a
/// step overflows.
pub fn areas_conserved(
    parent: Decimal,
    c0: Decimal,
    c1: Decimal,
    c2: Decimal,
    void: Decimal,
) -> (r: Option<bool>)
    ensures
        r == area_conserved(parent, c0, c1, c2, void),
{
    let children = plus(plus(Decimal::zero().checked_add(c0), Some(c1)), Some(c2));
    let parts = plus(children, Some(void));
    let difference = crate::decimal::magnitude(minus(Some(parent), parts));
    let tolerance = parent.checked_mul(Decimal::new(1, 6));
    match (difference, tolerance) {
        (Some(difference), Some(tolerance)) => Some(difference.le(&tolerance)),
        _ => None,
    }
}

/// Checks what a subdivision made: the parent must be subdivided, every
/// child active and linked to the parent, the void a void, and the area
/// conserved within a millionth of the parent's.
///
/// Fails with `ArithmeticOverflow` where the comparison of the areas
/// overflows.
pub fn validate_subdivision(result: &SubdivisionResult) -> (r: SierpinskiResult<bool>)
    ensures
        r == result.verdict(),
{
    match result.parent.state {
        TriangleState::Subdivided => {},
        _ => {
            return Ok(false);
        },
    }
    let mut i: usize = 0;
    while i < 3
        invariant
            i <= 3,
            forall|k: int| 0 <= k < i ==> is_linked_child(#[trigger] result.children@[k]@, result.parent@),
        decreases 3 - i,
    {
        let child = &result.children[i];
        match child.state {
            TriangleState::Active => {},
            _ => {
                return Ok(false);
            },
        }
        match child.parent_id {
            Some(p) => {
                if p != result.parent.id {
                    return Ok(false);
                }
            },
            None => {
                return Ok(false);
            },
        }
        i = i + 1;
    }
    match result.void_triangle.state {
        TriangleState::Void => {},
        _ => {
            return Ok(false);
        },
    }
    let parent_area = result.parent.area()?;
    let a0 = result.children[0].area()?;
    let a1 = result.children[1].area()?;
    let a2 = result.children[2].area()?;
    let void_area = result.void_triangle.area()?;
    match areas_conserved(parent_area, a0, a1, a2, void_area) {
        Some(b) => Ok(b),
        None => Err(SierpinskiError::ArithmeticOverflow),
    }
}

/// The number of triangles at depth `depth` of a fully subdivided fractal,
/// the voids left out: three to the power `depth`, which is one at depth 0.
pub fn triangles_at_depth(depth: u8) -> (r: u64)
    requires
        depth <= MAX_COUNTED_DEPTH,
    ensures
        r == pow3(depth as nat),
{
    let mut count: u64 = 1;
    let mut level: u8 = 0;
    while level < depth
        invariant
            level <= depth <= MAX_COUNTED_DEPTH,
            count == pow3(level as nat),
        decreases depth - level,
    {
        proof {
            lemma_pow3_bound(level as nat);
        }
        count = count * 3;
        level = level + 1;
    }
    count
}

/// The number of triangles down to depth `depth` of a fully subdivided
/// fractal, the voids left out: `1 + 3 + 9 + ...`, which is
/// `(3^(depth + 1) - 1) / 2`.
pub fn total_triangles_to_depth(depth: u8) -> (r: u64)
    requires
        depth <= MAX_COUNTED_DEPTH,
    ensures
        r == cumulative_count(depth as nat),
        2 * r + 1 == pow3((depth + 1) as nat),
{
    let mut total: u64 = 1;
    let mut power: u64 = 1;
    let mut level: u8 = 0;
    proof {
        lemma_cumulative_count(0);
    }
    while level < depth
        invariant
            level <= depth <= MAX_COUNTED_DEPTH,
            power == pow3(level as nat),
            total == cumulative_count(level as nat),
            2 * total + 1 == pow3((level + 1) as nat),
        decreases depth - level,
    {
        proof {
            lemma_pow3_bound(level as nat);
            lemma_pow3_bound((level + 1) as nat);
            lemma_cumulative_count((level + 1) as nat);
        }
        power = power * 3;
        total = total + power;
        level = level + 1;
    }
    total
}

/// The share of a parent's area that one child covers: a quarter.
pub fn child_area_ratio() -> (r: SierpinskiResult<Decimal>)
    ensures
        r == settled(Decimal::from_pair(1, 0).spec_div(Decimal::from_pair(4, 0))),
{
    settle(Decimal::new(1, 0).checked_div(Decimal::new(4, 0)))
}

/// The share of a parent's area that the void covers: a quarter.
pub fn void_area_ratio() -> (r: SierpinskiResult<Decimal>)
    ensures
        r == settled(Decimal::from_pair(1, 0).spec_div(Decimal::from_pair(4, 0))),
{
    settle(Decimal::new(1, 0).checked_div(Decimal::new(4, 0)))
}

/// The closed form of the cumulative count: twice the count and one is the
/// next power of three.
pub proof fn lemma_cumulative_count(depth: nat)
    ensures
        2 * cumulative_count(depth) + 1 == pow3(depth + 1),
    decreases depth,
{
    if depth > 0 {
        lemma_cumulative_count((depth - 1) as nat);
    } else {
        assert(pow3(1) == 3) by {
            reveal_with_fuel(pow3, 2);
        }
    }
}

/// The powers of three grow.
pub proof fn lemma_pow3_monotone(a: nat, b: nat)
    requires
        a <= b,
    ensures
        pow3(a) <= pow3(b),
    decreases b,
{
    if a < b {
        lemma_pow3_monotone(a, (b - 1) as nat);
    }
}

/// The power of a sum is the product of the powers.
pub proof fn lemma_pow3_sum(a: nat, b: nat)
    ensures
        pow3(a + b) == pow3(a) * pow3(b),
    decreases b,
{
    if b > 0 {
        lemma_pow3_sum(a, (b - 1) as nat);
        assert(pow3(a + b) == 3 * pow3((a + b - 1) as nat));
        assert(3 * (pow3(a) * pow3((b - 1) as nat)) == pow3(a) * (3 * pow3((b - 1) as nat)))
            by (nonlinear_arith);
    } else {
        assert(pow3(a) * 1 == pow3(a)) by (nonlinear_arith);
    }
}

/// Three to the power 41 is 36472996377170786403, so that the counts down
/// to depth 40 fit in 64 bits.
pub proof fn lemma_pow3_bound(n: nat)
    ensures
        n <= 41 ==> pow3(n) <= 36472996377170786403,
        n <= 40 ==> 3 * pow3(n) <= 36472996377170786403,
        n < 40 ==> 3 * pow3(n) <= 12157665459056928801,
        pow3(n + 1) == 3 * pow3(n),
{
    assert(pow3(1) == 3) by {
        reveal_with_fuel(pow3, 2);
    }
    lemma_pow3_sum(1, 1);
    assert(pow3(2) == 9);
    lemma_pow3_sum(2, 2);
    assert(pow3(4) == 81);
    lemma_pow3_sum(4, 4);
    assert(pow3(8) == 6561);
    lemma_pow3_sum(8, 8);
    assert(pow3(16) == 43046721) by (nonlinear_arith)
        requires
            pow3(16) == pow3(8) * pow3(8),
            pow3(8) == 6561,
    ;
    lemma_pow3_sum(16, 16);
    assert(pow3(32) == 1853020188851841) by (nonlinear_arith)
        requires
            pow3(32) == pow3(16) * pow3(16),
            pow3(16) == 43046721,
    ;
    lemma_pow3_sum(32, 8);
    assert(pow3(40) == 12157665459056928801) by (nonlinear_arith)
        requires
            pow3(40) == pow3(32) * pow3(8),
            pow3(32) == 1853020188851841,
            pow3(8) == 6561,
    ;
    lemma_pow3_sum(40, 1);
    assert(pow3(41) == 36472996377170786403) by (nonlinear_arith)
        requires
            pow3(41) == pow3(40) * pow3(1),
            pow3(40) == 12157665459056928801,
            pow3(1) == 3,
    ;
    if n <= 41 {
        lemma_pow3_monotone(n, 41);
    }
    if n <= 40 {
        lemma_pow3_monotone(n + 1, 41);
    }
    if n < 40 {
        lemma_pow3_monotone(n + 1, 40);
    }
}

/// The records after what a subdivision made has been added: the parent
/// first, then the children in their order, then the void.
pub open spec fn with_subdivision(
    records: Seq<TriangleRecord>,
    made: SubdivisionResult,
) -> Seq<TriangleRecord> {
    added(
        added(
            added(added(added(records, made.parent@), made.children@[0]@), made.children@[1]@),
            made.children@[2]@,
        ),
        made.void_triangle@,
    )
}

/// Whether an error is one that the making of a triangle gives: an
/// overflow, collinear points, or an area that is not positive.
pub open spec fn is_geometric(e: SierpinskiError) -> bool {
    e == SierpinskiError::ArithmeticOverflow || e == SierpinskiError::CollinearPoints || e
        == SierpinskiError::InvalidArea
}

/// Whether a record is still to be subdivided on the way to depth `target`.
pub open spec fn awaits_subdivision(record: TriangleRecord, target: u8) -> bool {
    record.can_subdivide() && record.depth < target
}

/// Whether no record is still to be subdivided on the way to `target`:
/// every triangle that may be subdivided has reached that depth.
pub open spec fn complete_to_depth(records: Seq<TriangleRecord>, target: u8) -> bool {
    forall|i: int| 0 <= i < records.len() ==> !awaits_subdivision(#[trigger] records[i], target)
}

/// Whether `triangle`, at `depth`, can be subdivided all the way down to
/// the depth `target`: it has reached that depth, or it can be split and
/// each of its three corner triangles can be subdivided down from the next
/// depth.
pub open spec fn splits_down(triangle: Triangle, depth: u8, target: u8) -> bool
    decreases target - depth,
{
    depth >= target || (split_outcome(triangle) is Ok && forall|part: Triangle, i: int|
        0 <= i < 3 && #[trigger] split_points(triangle)->0.is_part(i, part) ==> splits_down(
            part,
            (depth + 1) as u8,
            target,
        ))
}

/// Whether every record that is still to be subdivided on the way to
/// `target` can be subdivided all the way down.
pub open spec fn all_split_down(records: Seq<TriangleRecord>, target: u8) -> bool {
    forall|k: int|
        0 <= k < records.len() && awaits_subdivision(#[trigger] records[k], target) ==> splits_down(
            records[k].triangle,
            records[k].depth,
            target,
        )
}

/// Subdivides the triangle with identifier `parent_id` and adds what was
/// made to `structure`: the parent as it is afterwards, the three children,
/// and the void.
///
/// Fails with `SubdivisionError` where the structure holds no such triangle
/// or the triangle may not be subdivided, and with the error of the first
/// part that is no triangle. The structure is then left as it was.
pub fn subdivide_and_add_to_structure(
    structure: &mut FractalStructure,
    parent_id: &u128,
) -> (r: SierpinskiResult<SubdivisionResult>)
    ensures
        final(structure).spec_genesis_id() == old(structure).spec_genesis_id(),
        r is Err ==> final(structure).records() == old(structure).records()
            && final(structure).spec_max_depth() == old(structure).spec_max_depth(),
        match lookup(old(structure).records(), *parent_id) {
            None => r matches Err(SierpinskiError::SubdivisionError { reason }) && reason@
                == "Parent triangle not found"@,
            Some(parent) => {
                &&& !parent.can_subdivide() ==> (r matches Err(
                    SierpinskiError::SubdivisionError { reason },
                ) && reason@ == refusal_text(parent.id, parent.state))
                &&& parent.can_subdivide() ==> (r is Ok <==> split_outcome(parent.triangle) is Ok)
                &&& parent.can_subdivide() ==> (r matches Err(e) ==> split_outcome(parent.triangle)
                    == Err::<(), SierpinskiError>(e))
                &&& r matches Ok(made) ==> (split_points(parent.triangle) matches Some(points)
                    && made.follows(parent, points)) && final(structure).records() == with_subdivision(
                    old(structure).records(),
                    made,
                )
                &&& r is Ok ==> final(structure).spec_max_depth() == if parent.depth + 1 > old(
                    structure,
                ).spec_max_depth() {
                    (parent.depth + 1) as u8
                } else {
                    old(structure).spec_max_depth()
                }
            },
        },
{
    let draws = fresh_part_draws();
    subdivide_and_add_to_structure_with(structure, parent_id, &draws)
}

/// Subdivides and adds as [`subdivide_and_add_to_structure`] does, with
/// what is drawn taken from `draws`.
pub fn subdivide_and_add_to_structure_with(
    structure: &mut FractalStructure,
    parent_id: &u128,
    draws: &PartDraws,
) -> (r: SierpinskiResult<SubdivisionResult>)
    ensures
        r matches Ok(made) ==> made.drawn(*draws),
        final(structure).spec_genesis_id() == old(structure).spec_genesis_id(),
        r is Err ==> final(structure).records() == old(structure).records()
            && final(structure).spec_max_depth() == old(structure).spec_max_depth(),
        match lookup(old(structure).records(), *parent_id) {
            None => r matches Err(SierpinskiError::SubdivisionError { reason }) && reason@
                == "Parent triangle not found"@,
            Some(parent) => {
                &&& !parent.can_subdivide() ==> (r matches Err(
                    SierpinskiError::SubdivisionError { reason },
                ) && reason@ == refusal_text(parent.id, parent.state))
                &&& parent.can_subdivide() ==> (r is Ok <==> split_outcome(parent.triangle) is Ok)
                &&& parent.can_subdivide() ==> (r matches Err(e) ==> split_outcome(parent.triangle)
                    == Err::<(), SierpinskiError>(e))
                &&& r matches Ok(made) ==> (split_points(parent.triangle) matches Some(points)
                    && made.follows(parent, points)) && final(structure).records() == with_subdivision(
                    old(structure).records(),
                    made,
                )
                &&& r is Ok ==> final(structure).spec_max_depth() == if parent.depth + 1 > old(
                    structure,
                ).spec_max_depth() {
                    (parent.depth + 1) as u8
                } else {
                    old(structure).spec_max_depth()
                }
            },
        },
{
    let parent = match structure.get_triangle(parent_id) {
        Some(p) => p.clone(),
        None => {
            return Err(SierpinskiError::subdivision("Parent triangle not found"));
        },
    };
    let made = subdivide_triangle_with(&parent, draws)?;
    let _ = structure.add_triangle(made.parent.clone());
    let _ = structure.add_triangle(made.children[0].clone());
    let _ = structure.add_triangle(made.children[1].clone());
    let _ = structure.add_triangle(made.children[2].clone());
    let _ = structure.add_triangle(made.void_triangle.clone());
    Ok(made)
}

/// Whether `after` holds the records `before` after one subdivision on the
/// way to `target`, for which `draws` was drawn: a record that was still to
/// be subdivided has been subdivided, and what that made has been added.
pub open spec fn step(
    before: Seq<TriangleRecord>,
    after: Seq<TriangleRecord>,
    draws: PartDraws,
    target: u8,
) -> bool {
    exists|j: int, made: SubdivisionResult|
        0 <= j < before.len() && awaits_subdivision(#[trigger] before[j], target) && (split_points(
            before[j].triangle,
        ) matches Some(points) && made.follows(before[j], points)) && made.drawn(draws) && after
            == #[trigger] with_subdivision(before, made)
}

/// Whether `end` is reached from `start` by one subdivision after the
/// other on the way to `target`, one for each of `used`, which holds what
/// was drawn for them in their order.
pub open spec fn reached(
    start: Seq<TriangleRecord>,
    end: Seq<TriangleRecord>,
    used: Seq<PartDraws>,
    target: u8,
) -> bool
    decreases used.len(),
{
    if used.len() == 0 {
        end == start
    } else {
        exists|mid: Seq<TriangleRecord>|
            reached(start, mid, used.drop_last(), target) && #[trigger] step(mid, end, used.last(), target)
    }
}

/// Whether `used` holds what `draws` holds, as far as both go.
pub open spec fn agree_parts(draws: Seq<PartDraws>, used: Seq<PartDraws>) -> bool {
    forall|k: int| 0 <= k < used.len() && k < draws.len() ==> used[k] == #[trigger] draws[k]
}

/// Whether every identifier that was drawn was new: none is `first`, and
/// no two are the same.
pub open spec fn all_fresh(first: u128, used: Seq<PartDraws>) -> bool {
    &&& forall|a: int, i: int| 0 <= a < used.len() && 0 <= i < 4 ==> #[trigger] used[a].ids@[i] != first
    &&& forall|a: int, i: int, b: int, j: int|
        0 <= a < used.len() && 0 <= i < 4 && 0 <= b < used.len() && 0 <= j < 4 && (a != b || i != j)
            ==> #[trigger] used[a].ids@[i] != #[trigger] used[b].ids@[j]
}

/// Whether `id` is `first` or was drawn.
pub open spec fn is_drawn(first: u128, used: Seq<PartDraws>, id: u128) -> bool {
    id == first || exists|a: int, i: int| 0 <= a < used.len() && 0 <= i < 4 && #[trigger] used[a].ids@[i] == id
}

/// Whether every record has `first` or an identifier that was drawn.
pub open spec fn known(records: Seq<TriangleRecord>, first: u128, used: Seq<PartDraws>) -> bool {
    forall|k: int| 0 <= k < records.len() ==> is_drawn(first, used, #[trigger] records[k].id)
}

/// Whether `records` is what the subdivisions for which `used` was drawn
/// have made of the triangle `start` on the way to `target`: it is reached
/// by them, and where every identifier was new, nothing has been replaced.
pub open spec fn built(start: TriangleRecord, records: Seq<TriangleRecord>, used: Seq<PartDraws>, target: u8) -> bool {
    &&& reached(seq![start], records, used, target)
    &&& all_fresh(start.id, used) ==> known(records, start.id, used) && total(records, full_weights(target))
        == full_weights(target)(start) && has_parts(records)
}

/// Whether `child` is held as part `index` of `parent`: it is one level
/// below it, at its address extended by `index`, has the triangle of that
/// part, names it as its parent and is named by it as a child. Part 3, and
/// no other, is a void.
pub open spec fn is_held_part(child: TriangleRecord, parent: TriangleRecord, index: int) -> bool {
    &&& split_points(parent.triangle) matches Some(points) && points.is_part(index, child.triangle)
    &&& child.address == parent.address.push(index as u8)
    &&& child.depth == parent.depth + 1
    &&& child.parent_id == Some(parent.id)
    &&& parent.child_ids.contains(child.id)
    &&& (index == 3) == (child.state == TriangleState::Void)
}

/// Whether part `i` of the record at place `k` is held.
pub open spec fn part_held(records: Seq<TriangleRecord>, k: int, i: int) -> bool {
    exists|m: int| 0 <= m < records.len() && is_held_part(#[trigger] records[m], records[k], i)
}

/// Whether the four parts of every record that has been subdivided are
/// held.
pub open spec fn has_parts(records: Seq<TriangleRecord>) -> bool {
    forall|k: int, i: int|
        0 <= k < records.len() && records[k].state == TriangleState::Subdivided && 0 <= i < 4 ==> #[trigger] part_held(
            records,
            k,
            i,
        )
}

/// Whether `after` is the record `before` but for children it has gained.
pub open spec fn grown(after: TriangleRecord, before: TriangleRecord) -> bool {
    &&& after == (TriangleRecord { child_ids: after.child_ids, ..before })
    &&& forall|c: u128| before.child_ids.contains(c) ==> #[trigger] after.child_ids.contains(c)
}

/// Builds the fractal below `initial_triangle` down to depth `target_depth`:
/// triangles are subdivided until none that may be subdivided is left above
/// that depth.
///
/// The fractal is reached from the initial triangle by one subdivision
/// after the other, each of a triangle that was still to be subdivided: see
/// [`built`]. Every subdivision draws fresh identifiers for its four parts,
/// and a part takes the place of a triangle that is held under the same
/// identifier. So the fractal holds at most as many triangles as a complete
/// fractal of that many levels. Where every identifier that was drawn was
/// new, it is complete: it holds as many records as a complete fractal
/// does, the voids counted in, down to exactly that depth, and the four
/// parts of every triangle that has been subdivided are held.
///
/// Fails with `MaxDepthExceeded` where `target_depth` is above 20, with
/// `ValidationError` where the initial triangle is not in state `Genesis`,
/// and with the error of a subdivision that fails. It succeeds where the
/// initial triangle can be split all the way down.
pub fn subdivide_to_depth(
    initial_triangle: FractalTriangle,
    target_depth: u8,
) -> (r: SierpinskiResult<FractalStructure>)
    ensures
        target_depth > MAX_SUBDIVISION_DEPTH ==> r == Err::<FractalStructure, SierpinskiError>(
            SierpinskiError::MaxDepthExceeded { max_depth: MAX_SUBDIVISION_DEPTH },
        ),
        target_depth <= MAX_SUBDIVISION_DEPTH && initial_triangle.state != TriangleState::Genesis ==> (r matches Err(
            SierpinskiError::ValidationError { message },
        ) && message@ == "Genesis triangle must have Genesis state"@),
        r matches Ok(structure) ==> {
            &&& initial_triangle.state == TriangleState::Genesis
            &&& target_depth <= MAX_SUBDIVISION_DEPTH
            &&& structure.spec_genesis_id() == Some(initial_triangle.id)
            &&& complete_to_depth(structure.records(), target_depth)
            &&& structure.records().len() > 0
            &&& !awaits_subdivision(initial_triangle@, target_depth) ==> structure.records()
                == seq![initial_triangle@]
            &&& structure.spec_max_depth() <= target_depth
            &&& awaits_subdivision(initial_triangle@, target_depth) ==> {
                let levels = (target_depth - initial_triangle.depth) as nat;
                &&& count_solid(structure.records()) <= cumulative_count(levels)
                &&& structure.records().len() <= complete_count(levels)
                &&& structure.records().len() == complete_count(levels) ==> count_solid(structure.records())
                    == cumulative_count(levels) && structure.spec_max_depth() == target_depth
            }
            &&& exists|used: Seq<PartDraws>| #[trigger]
                built(initial_triangle@, structure.records(), used, target_depth) && (awaits_subdivision(
                    initial_triangle@,
                    target_depth,
                ) && all_fresh(initial_triangle.id, used) ==> structure.records().len() == complete_count(
                    (target_depth - initial_triangle.depth) as nat,
                ))
        },
        target_depth <= MAX_SUBDIVISION_DEPTH && initial_triangle.state == TriangleState::Genesis ==> (r matches Err(e)
            ==> is_geometric(e)),
        !awaits_subdivision(initial_triangle@, target_depth) && target_depth <= MAX_SUBDIVISION_DEPTH
            && initial_triangle.state == TriangleState::Genesis ==> r is Ok,
        target_depth <= MAX_SUBDIVISION_DEPTH && initial_triangle.state == TriangleState::Genesis && splits_down(
            initial_triangle.triangle,
            initial_triangle.depth,
            target_depth,
        ) ==> r is Ok,
{
    let draws: Vec<PartDraws> = Vec::new();
    subdivide_to_depth_with(initial_triangle, target_depth, &draws)
}

/// What is drawn for the subdivision at place `k`: `draws[k]` where `draws`
/// holds it, and otherwise fresh draws.
fn draw_parts(draws: &Vec<PartDraws>, k: usize) -> (r: PartDraws)
    ensures
        k < draws@.len() ==> r == draws@[k as int],
{
    if k < draws.len() {
        draws[k]
    } else {
        fresh_part_draws()
    }
}

/// Builds the fractal as [`subdivide_to_depth`] does, with what is drawn
/// for the subdivision at place `k`, in the order in which they are made,
/// taken from `draws[k]`; where `draws` ends before the subdivisions do,
/// the rest is drawn as [`subdivide_to_depth`] draws it.
pub fn subdivide_to_depth_with(
    initial_triangle: FractalTriangle,
    target_depth: u8,
    draws: &Vec<PartDraws>,
) -> (r: SierpinskiResult<FractalStructure>)
    ensures
        target_depth > MAX_SUBDIVISION_DEPTH ==> r == Err::<FractalStructure, SierpinskiError>(
            SierpinskiError::MaxDepthExceeded { max_depth: MAX_SUBDIVISION_DEPTH },
        ),
        target_depth <= MAX_SUBDIVISION_DEPTH && initial_triangle.state != TriangleState::Genesis ==> (r matches Err(
            SierpinskiError::ValidationError { message },
        ) && message@ == "Genesis triangle must have Genesis state"@),
        r matches Ok(structure) ==> {
            &&& initial_triangle.state == TriangleState::Genesis
            &&& target_depth <= MAX_SUBDIVISION_DEPTH
            &&& structure.spec_genesis_id() == Some(initial_triangle.id)
            &&& complete_to_depth(structure.records(), target_depth)
            &&& structure.records().len() > 0
            &&& !awaits_subdivision(initial_triangle@, target_depth) ==> structure.records()
                == seq![initial_triangle@]
            &&& structure.spec_max_depth() <= target_depth
            &&& awaits_subdivision(initial_triangle@, target_depth) ==> {
                let levels = (target_depth - initial_triangle.depth) as nat;
                &&& count_solid(structure.records()) <= cumulative_count(levels)
                &&& structure.records().len() <= complete_count(levels)
                &&& structure.records().len() == complete_count(levels) ==> count_solid(structure.records())
                    == cumulative_count(levels) && structure.spec_max_depth() == target_depth
            }
            &&& exists|used: Seq<PartDraws>| agree_parts(draws@, used) && #[trigger] built(initial_triangle@, structure.records(), used, target_depth) && (awaits_subdivision(
                    initial_triangle@,
                    target_depth,
                ) && all_fresh(initial_triangle.id, used) ==> structure.records().len() == complete_count(
                    (target_depth - initial_triangle.depth) as nat,
                ))
        },
        target_depth <= MAX_SUBDIVISION_DEPTH && initial_triangle.state == TriangleState::Genesis ==> (r matches Err(e)
            ==> is_geometric(e)),
        !awaits_subdivision(initial_triangle@, target_depth) && target_depth <= MAX_SUBDIVISION_DEPTH
            && initial_triangle.state == TriangleState::Genesis ==> r is Ok,
        target_depth <= MAX_SUBDIVISION_DEPTH && initial_triangle.state == TriangleState::Genesis && splits_down(
            initial_triangle.triangle,
            initial_triangle.depth,
            target_depth,
        ) ==> r is Ok,
{
    if target_depth > MAX_SUBDIVISION_DEPTH {
        return Err(SierpinskiError::MaxDepthExceeded { max_depth: MAX_SUBDIVISION_DEPTH });
    }
    let mut structure = FractalStructure::new();
    let ghost initial = initial_triangle@;
    let ghost fits = splits_down(initial.triangle, initial.depth, target_depth);
    structure.set_genesis(initial_triangle)?;
    assert(structure.records() =~= seq![initial]);
    let ghost solid = solid_weights(target_depth);
    let ghost full = full_weights(target_depth);
    let ghost mut used: Seq<PartDraws> = Seq::empty();
    let mut done: usize = 0;
    let given = draws.len();
    proof {
        assert(seq![initial].drop_last() =~= Seq::<TriangleRecord>::empty());
        assert(total(structure.records(), solid) == solid(initial)) by {
            reveal_with_fuel(total, 2);
        }
        assert(total(structure.records(), full) == full(initial)) by {
            reveal_with_fuel(total, 2);
        }
        assert(built(initial, structure.records(), used, target_depth));
    }

    // A first pass in the order in which the triangles are held. What a
    // subdivision adds comes behind the cursor, so this pass does the work.
    let mut i: usize = 0;
    while i < structure.len()
        invariant
            target_depth <= MAX_SUBDIVISION_DEPTH,
            initial == initial_triangle@,
            initial.state == TriangleState::Genesis,
            structure.spec_genesis_id() == Some(initial.id),
            structure.records().len() > 0,
            !awaits_subdivision(initial, target_depth) ==> structure.records() == seq![initial],
            fits == splits_down(initial.triangle, initial.depth, target_depth),
            fits ==> all_split_down(structure.records(), target_depth),
            solid == solid_weights(target_depth),
            full == full_weights(target_depth),
            done == used.len() || (done == usize::MAX && used.len() >= usize::MAX),
            given == draws@.len(),
            agree_parts(draws@, used),
            built(initial, structure.records(), used, target_depth),
            structure.spec_max_depth() <= target_depth,
            total(structure.records(), solid) <= solid(initial),
            total(structure.records(), full) <= full(initial),
            awaits_subdivision(initial, target_depth) && total(structure.records(), full) == full(initial) ==> total(
                structure.records(),
                solid,
            ) == solid(initial) && (structure.spec_max_depth() == target_depth || !complete_to_depth(
                structure.records(),
                target_depth,
            )),
        decreases potential(structure.records(), target_depth), structure.records().len() - i,
    {
        let ghost before = structure.records();
        let held = structure.len();
        let candidate = match structure.nth(i) {
            Some(t) => if t.can_subdivide() && t.depth < target_depth {
                Some(t.id)
            } else {
                None
            },
            None => None,
        };
        match candidate {
            Some(id) => {
                proof {
                    lemma_position_of_present(before, i as int);
                }
                let drawn = draw_parts(draws, done);
                let made = match subdivide_and_add_to_structure_with(&mut structure, &id, &drawn) {
                    Ok(m) => m,
                    Err(e) => {
                        assert(is_geometric(e));
                        assert(!fits);
                        return Err(e);
                    },
                };
                proof {
                    lemma_subdivision_lowers_potential(before, before[i as int], made, target_depth);
                    lemma_subdivision_grows(before, made);
                    if fits {
                        lemma_subdivision_splits(before, before[i as int], made, target_depth);
                    }
                    lemma_subdivision_counts(before, before[i as int], made, target_depth);
                    lemma_built_step(initial, before, before[i as int], made, used, drawn, target_depth);
                    assert forall|k: int| 0 <= k < used.push(drawn).len() && k < draws@.len() implies used.push(
                        drawn,
                    )[k] == #[trigger] draws@[k] by {
                        if k < used.len() {
                            assert(used.push(drawn)[k] == used[k]);
                        } else {
                            assert(used.push(drawn)[k] == drawn);
                            assert(draws@.len() <= usize::MAX);
                        }
                    }
                    used = used.push(drawn);
                }
                if done < usize::MAX {
                    done = done + 1;
                }
            },
            None => {},
        }
        i = i + 1;
    }
    // Should an identifier have been drawn twice, a triangle before the
    // cursor may have been replaced: look until none is left.
    loop
        invariant
            target_depth <= MAX_SUBDIVISION_DEPTH,
            initial == initial_triangle@,
            initial.state == TriangleState::Genesis,
            structure.spec_genesis_id() == Some(initial.id),
            structure.records().len() > 0,
            !awaits_subdivision(initial, target_depth) ==> structure.records() == seq![initial],
            fits == splits_down(initial.triangle, initial.depth, target_depth),
            fits ==> all_split_down(structure.records(), target_depth),
            solid == solid_weights(target_depth),
            full == full_weights(target_depth),
            done == used.len() || (done == usize::MAX && used.len() >= usize::MAX),
            given == draws@.len(),
            agree_parts(draws@, used),
            built(initial, structure.records(), used, target_depth),
            structure.spec_max_depth() <= target_depth,
            total(structure.records(), solid) <= solid(initial),
            total(structure.records(), full) <= full(initial),
            awaits_subdivision(initial, target_depth) && total(structure.records(), full) == full(initial) ==> total(
                structure.records(),
                solid,
            ) == solid(initial) && (structure.spec_max_depth() == target_depth || !complete_to_depth(
                structure.records(),
                target_depth,
            )),
        decreases potential(structure.records(), target_depth),
    {
        let ghost before = structure.records();
        let j = first_awaiting(&structure, target_depth);
        let id = match structure.nth(j) {
            Some(t) => t.id,
            None => {
                proof {
                    lemma_complete_totals(structure.records(), target_depth);
                }
                return Ok(structure);
            },
        };
        let held = structure.len();
        proof {
            lemma_position_of_present(before, j as int);
        }
        let drawn = draw_parts(draws, done);
        let made = match subdivide_and_add_to_structure_with(&mut structure, &id, &drawn) {
            Ok(m) => m,
            Err(e) => {
                assert(is_geometric(e));
                assert(!fits);
                return Err(e);
            },
        };
        proof {
            lemma_subdivision_lowers_potential(before, before[j as int], made, target_depth);
            lemma_subdivision_grows(before, made);
            if fits {
                lemma_subdivision_splits(before, before[j as int], made, target_depth);
            }
            lemma_subdivision_counts(before, before[j as int], made, target_depth);
            lemma_built_step(initial, before, before[j as int], made, used, drawn, target_depth);
            assert forall|k: int| 0 <= k < used.push(drawn).len() && k < draws@.len() implies used.push(
                drawn,
            )[k] == #[trigger] draws@[k] by {
                if k < used.len() {
                    assert(used.push(drawn)[k] == used[k]);
                } else {
                    assert(used.push(drawn)[k] == drawn);
                    assert(draws@.len() <= usize::MAX);
                }
            }
            used = used.push(drawn);
        }
        if done < usize::MAX {
            done = done + 1;
        }
    }
}

/// The position of the first triangle that is still to be subdivided on the
/// way to `target`, or the number of triangles where there is none.
fn first_awaiting(structure: &FractalStructure, target: u8) -> (j: usize)
    ensures
        j <= structure.records().len(),
        j < structure.records().len() ==> awaits_subdivision(structure.records()[j as int], target),
        j == structure.records().len() ==> complete_to_depth(structure.records(), target),
{
    let mut j: usize = 0;
    while j < structure.len()
        invariant
            j <= structure.records().len(),
            forall|k: int| 0 <= k < j ==> !awaits_subdivision(#[trigger] structure.records()[k], target),
        decreases structure.records().len() - j,
    {
        match structure.nth(j) {
            Some(t) => {
                if t.can_subdivide() && t.depth < target {
                    return j;
                }
            },
            None => {},
        }
        j = j + 1;
    }
    j
}

/// What a record adds to the work left on the way to depth `target`: four
/// to the power of the levels it is above the target, where it is still to
/// be subdivided.
pub open spec fn weight(record: TriangleRecord, target: u8) -> nat {
    if awaits_subdivision(record, target) {
        pow4((target - record.depth) as nat)
    } else {
        0
    }
}

/// The work left on the way to depth `target`: the weights of the records,
/// added up. Every subdivision lowers it.
pub open spec fn potential(records: Seq<TriangleRecord>, target: u8) -> nat
    decreases records.len(),
{
    if records.len() == 0 {
        0
    } else {
        potential(records.drop_last(), target) + weight(records.last(), target)
    }
}

/// Replacing a record changes the potential by the difference of the
/// weights.
proof fn lemma_potential_update(records: Seq<TriangleRecord>, i: int, record: TriangleRecord, target: u8)
    requires
        0 <= i < records.len(),
    ensures
        potential(records.update(i, record), target) + weight(records[i], target) == potential(
            records,
            target,
        ) + weight(record, target),
    decreases records.len(),
{
    let after = records.update(i, record);
    if i == records.len() - 1 {
        assert(after.drop_last() =~= records.drop_last());
    } else {
        assert(after.drop_last() =~= records.drop_last().update(i, record));
        lemma_potential_update(records.drop_last(), i, record, target);
    }
}

/// Noting a child with its parent changes neither the potential, nor the
/// identifiers, nor the number of records.
proof fn lemma_note_child(records: Seq<TriangleRecord>, parent_id: Option<u128>, child_id: u128, target: u8)
    ensures
        potential(note_child(records, parent_id, child_id), target) == potential(records, target),
        note_child(records, parent_id, child_id).len() == records.len(),
        forall|k: int|
            0 <= k < records.len() ==> {
                &&& (#[trigger] note_child(records, parent_id, child_id)[k]).id == records[k].id
                &&& weight(note_child(records, parent_id, child_id)[k], target) == weight(records[k], target)
            },
{
    match parent_id {
        Some(p) => {
            lemma_position_range(records, p);
            let at = position(records, p);
            if at < records.len() {
                lemma_potential_update(records, at, records[at].with_child(child_id), target);
            }
        },
        None => {},
    }
}

/// Records with the same identifiers in the same places are looked up
/// alike.
proof fn lemma_position_by_ids(a: Seq<TriangleRecord>, b: Seq<TriangleRecord>, id: u128)
    requires
        a.len() == b.len(),
        forall|k: int| 0 <= k < a.len() ==> a[k].id == b[k].id,
    ensures
        position(a, id) == position(b, id),
    decreases a.len(),
{
    if a.len() > 0 {
        assert(a[0].id == b[0].id);
        if a[0].id != id {
            let ra = a.drop_first();
            let rb = b.drop_first();
            assert forall|k: int| 0 <= k < ra.len() implies ra[k].id == rb[k].id by {
                assert(ra[k] == a[k + 1] && rb[k] == b[k + 1]);
            }
            lemma_position_by_ids(ra, rb, id);
        }
    }
}

/// Adding a record raises the potential by at most its weight, and never
/// makes the records fewer. Where a record with the same identifier was
/// held, the weight of that one is taken off.
proof fn lemma_added(records: Seq<TriangleRecord>, record: TriangleRecord, target: u8)
    ensures
        potential(added(records, record), target) <= potential(records, target) + weight(record, target),
        added(records, record).len() >= records.len(),
        position(records, record.id) < records.len() ==> potential(added(records, record), target) + weight(
            records[position(records, record.id)],
            target,
        ) == potential(records, target) + weight(record, target),
{
    let noted = note_child(records, record.parent_id, record.id);
    lemma_note_child(records, record.parent_id, record.id, target);
    lemma_position_by_ids(noted, records, record.id);
    lemma_position_range(noted, record.id);
    let at = position(noted, record.id);
    if at < noted.len() {
        lemma_potential_update(noted, at, record, target);
    } else {
        assert(noted.push(record).drop_last() =~= noted);
    }
}

/// Adding a record that can be subdivided all the way down, where it is
/// still to be subdivided, to records of which that holds gives such
/// records.
proof fn lemma_added_splits(records: Seq<TriangleRecord>, record: TriangleRecord, target: u8)
    requires
        all_split_down(records, target),
        awaits_subdivision(record, target) ==> splits_down(record.triangle, record.depth, target),
    ensures
        all_split_down(added(records, record), target),
{
    let noted = note_child(records, record.parent_id, record.id);
    assert forall|k: int| 0 <= k < noted.len() implies (#[trigger] noted[k]).triangle == records[k].triangle
        && noted[k].depth == records[k].depth && noted[k].state == records[k].state by {
        match record.parent_id {
            Some(p) => {
                lemma_position_range(records, p);
            },
            None => {},
        }
    }
    lemma_position_range(noted, record.id);
    let after = added(records, record);
    let at = position(noted, record.id);
    assert forall|k: int| 0 <= k < after.len() && awaits_subdivision(#[trigger] after[k], target) implies splits_down(
        after[k].triangle,
        after[k].depth,
        target,
    ) by {
        if k == at {
            assert(after[k] == record);
        } else {
            assert(after[k] == noted[k]);
            assert(awaits_subdivision(records[k], target));
        }
    }
}

/// Subdividing a record that can be subdivided all the way down leaves
/// records of which that holds.
proof fn lemma_subdivision_splits(
    records: Seq<TriangleRecord>,
    parent: TriangleRecord,
    made: SubdivisionResult,
    target: u8,
)
    requires
        all_split_down(records, target),
        awaits_subdivision(parent, target),
        lookup(records, parent.id) == Some(parent),
        split_points(parent.triangle) matches Some(points) && made.follows(parent, points),
    ensures
        all_split_down(with_subdivision(records, made), target),
{
    let points = split_points(parent.triangle)->0;
    assert(records[position(records, parent.id)] == parent);
    assert(splits_down(parent.triangle, parent.depth, target));
    assert(points.is_part(0, made.children@[0]@.triangle));
    assert(points.is_part(1, made.children@[1]@.triangle));
    assert(points.is_part(2, made.children@[2]@.triangle));
    let r1 = added(records, made.parent@);
    let r2 = added(r1, made.children@[0]@);
    let r3 = added(r2, made.children@[1]@);
    let r4 = added(r3, made.children@[2]@);
    lemma_added_splits(records, made.parent@, target);
    lemma_added_splits(r1, made.children@[0]@, target);
    lemma_added_splits(r2, made.children@[1]@, target);
    lemma_added_splits(r3, made.children@[2]@, target);
    lemma_added_splits(r4, made.void_triangle@, target);
}

/// The weights that `w` gives the records, added up.
pub open spec fn total(records: Seq<TriangleRecord>, w: spec_fn(TriangleRecord) -> nat) -> nat
    decreases records.len(),
{
    if records.len() == 0 {
        0
    } else {
        total(records.drop_last(), w) + w(records.last())
    }
}

/// What a record stands for among the triangles, the voids left out, of
/// the fractal once it is complete down to `target`: nothing for a void,
/// itself and all that comes of it for a record that is still to be
/// subdivided, and itself otherwise.
pub open spec fn solid_weights(target: u8) -> spec_fn(TriangleRecord) -> nat {
    |record: TriangleRecord|
        if record.state == TriangleState::Void {
            0
        } else if awaits_subdivision(record, target) {
            cumulative_count((target - record.depth) as nat)
        } else {
            1
        }
}

/// What a record stands for among the triangles, the voids counted in, of
/// the fractal once it is complete down to `target`.
pub open spec fn full_weights(target: u8) -> spec_fn(TriangleRecord) -> nat {
    |record: TriangleRecord|
        if awaits_subdivision(record, target) {
            complete_count((target - record.depth) as nat)
        } else {
            1
        }
}

/// Whether `w` gives a record the same weight whatever children are noted
/// with it.
pub open spec fn ignores_children(w: spec_fn(TriangleRecord) -> nat) -> bool {
    forall|record: TriangleRecord, child: u128| #[trigger] w(record.with_child(child)) == w(record)
}

/// Replacing a record changes the total by the difference of the weights.
proof fn lemma_total_update(
    records: Seq<TriangleRecord>,
    i: int,
    record: TriangleRecord,
    w: spec_fn(TriangleRecord) -> nat,
)
    requires
        0 <= i < records.len(),
    ensures
        total(records.update(i, record), w) + w(records[i]) == total(records, w) + w(record),
    decreases records.len(),
{
    let after = records.update(i, record);
    if i == records.len() - 1 {
        assert(after.drop_last() =~= records.drop_last());
    } else {
        assert(after.drop_last() =~= records.drop_last().update(i, record));
        lemma_total_update(records.drop_last(), i, record, w);
    }
}

/// Adding a record in the place of one with the same identifier changes
/// the total by the difference of the weights. Adding a record with a new
/// identifier puts it at the end and raises the total by its weight; the
/// records before it keep their states and depths.
proof fn lemma_total_added(records: Seq<TriangleRecord>, record: TriangleRecord, w: spec_fn(TriangleRecord) -> nat)
    requires
        ignores_children(w),
    ensures
        0 <= position(records, record.id) <= records.len(),
        position(records, record.id) < records.len() ==> total(added(records, record), w) + w(
            records[position(records, record.id)],
        ) == total(records, w) + w(record),
        position(records, record.id) >= records.len() ==> {
            &&& total(added(records, record), w) == total(records, w) + w(record)
            &&& added(records, record).len() == records.len() + 1
            &&& added(records, record).last() == record
            &&& forall|k: int|
                0 <= k < records.len() ==> (#[trigger] added(records, record)[k]).state == records[k].state
                    && added(records, record)[k].depth == records[k].depth
        },
{
    let noted = note_child(records, record.parent_id, record.id);
    match record.parent_id {
        Some(p) => {
            lemma_position_range(records, p);
            let at = position(records, p);
            if at < records.len() {
                lemma_total_update(records, at, records[at].with_child(record.id), w);
                assert(w(records[at].with_child(record.id)) == w(records[at]));
            }
        },
        None => {},
    }
    assert(total(noted, w) == total(records, w));
    assert forall|k: int| 0 <= k < records.len() implies (#[trigger] noted[k]).id == records[k].id && noted[k].state
        == records[k].state && noted[k].depth == records[k].depth && w(noted[k]) == w(records[k]) by {
        if noted[k] != records[k] {
            assert(noted[k] == records[k].with_child(record.id));
        }
    }
    lemma_position_by_ids(noted, records, record.id);
    lemma_position_range(noted, record.id);
    let at = position(noted, record.id);
    if at < noted.len() {
        lemma_total_update(noted, at, record, w);
    } else {
        assert(noted.push(record).drop_last() =~= noted);
    }
}

/// A complete fractal of `levels` levels has one triangle more than three
/// complete fractals of one level less; with the voids, two more.
proof fn lemma_counts_step(levels: nat)
    requires
        levels > 0,
    ensures
        cumulative_count(levels) == 1 + 3 * cumulative_count((levels - 1) as nat),
        complete_count(levels) == 2 + 3 * complete_count((levels - 1) as nat),
{
    lemma_cumulative_count((levels - 1) as nat);
    if levels > 1 {
        lemma_cumulative_count((levels - 2) as nat);
    }
}

/// Whether every identifier of the children and of the void that a
/// subdivision made was new when it was added.
pub open spec fn all_new(records: Seq<TriangleRecord>, made: SubdivisionResult) -> bool {
    let r1 = added(records, made.parent@);
    let r2 = added(r1, made.children@[0]@);
    let r3 = added(r2, made.children@[1]@);
    let r4 = added(r3, made.children@[2]@);
    &&& position(r1, made.children@[0].id) >= r1.len()
    &&& position(r2, made.children@[1].id) >= r2.len()
    &&& position(r3, made.children@[2].id) >= r3.len()
    &&& position(r4, made.void_triangle.id) >= r4.len()
}

/// What a subdivision does to a total: the weight of the parent goes, and
/// the weights of the parent as it is afterwards, of the children and of
/// the void come, less the weights of the records that these took the
/// place of.
proof fn lemma_subdivision_total(
    records: Seq<TriangleRecord>,
    parent: TriangleRecord,
    made: SubdivisionResult,
    w: spec_fn(TriangleRecord) -> nat,
)
    requires
        ignores_children(w),
        lookup(records, parent.id) == Some(parent),
        made.parent@.id == parent.id,
    ensures
        total(with_subdivision(records, made), w) + w(parent) <= total(records, w) + w(made.parent@) + w(
            made.children@[0]@,
        ) + w(made.children@[1]@) + w(made.children@[2]@) + w(made.void_triangle@),
        all_new(records, made) ==> total(with_subdivision(records, made), w) + w(parent) == total(records, w) + w(
            made.parent@,
        ) + w(made.children@[0]@) + w(made.children@[1]@) + w(made.children@[2]@) + w(made.void_triangle@),
        !all_new(records, made) && (forall|record: TriangleRecord| #[trigger] w(record) >= 1) ==> total(
            with_subdivision(records, made),
            w,
        ) + w(parent) < total(records, w) + w(made.parent@) + w(made.children@[0]@) + w(made.children@[1]@) + w(
            made.children@[2]@,
        ) + w(made.void_triangle@),
{
    let r1 = added(records, made.parent@);
    let r2 = added(r1, made.children@[0]@);
    let r3 = added(r2, made.children@[1]@);
    let r4 = added(r3, made.children@[2]@);
    assert(records[position(records, parent.id)] == parent);
    lemma_total_added(records, made.parent@, w);
    lemma_total_added(r1, made.children@[0]@, w);
    lemma_total_added(r2, made.children@[1]@, w);
    lemma_total_added(r3, made.children@[2]@, w);
    lemma_total_added(r4, made.void_triangle@, w);
}

/// Where every identifier was new, the last child is held next to the end,
/// in its state and at its depth.
proof fn lemma_last_child_held(records: Seq<TriangleRecord>, made: SubdivisionResult)
    requires
        all_new(records, made),
    ensures
        with_subdivision(records, made).len() >= 2,
        with_subdivision(records, made)[with_subdivision(records, made).len() - 2].state
            == made.children@[2]@.state,
        with_subdivision(records, made)[with_subdivision(records, made).len() - 2].depth
            == made.children@[2]@.depth,
{
    let w = full_weights(0);
    assert(ignores_children(w));
    let r1 = added(records, made.parent@);
    let r2 = added(r1, made.children@[0]@);
    let r3 = added(r2, made.children@[1]@);
    let r4 = added(r3, made.children@[2]@);
    let r5 = added(r4, made.void_triangle@);
    lemma_total_added(r3, made.children@[2]@, w);
    lemma_total_added(r4, made.void_triangle@, w);
    assert(r4.last() == made.children@[2]@);
    assert(r5[r4.len() - 1].state == r4[r4.len() - 1].state);
}

/// The counts of a complete fractal are positive.
proof fn lemma_counts_positive(levels: nat)
    ensures
        cumulative_count(levels) >= 1,
        complete_count(levels) >= 1,
    decreases levels,
{
    if levels > 0 {
        lemma_counts_positive((levels - 1) as nat);
    }
}

/// What the parts of a subdivision stand for, given what the parent stood
/// for.
proof fn lemma_part_weights(parent: TriangleRecord, made: SubdivisionResult, target: u8)
    requires
        target <= MAX_SUBDIVISION_DEPTH,
        awaits_subdivision(parent, target),
        split_points(parent.triangle) matches Some(points) && made.follows(parent, points),
    ensures
        solid_weights(target)(parent) == solid_weights(target)(made.parent@) + solid_weights(target)(
            made.children@[0]@,
        ) + solid_weights(target)(made.children@[1]@) + solid_weights(target)(made.children@[2]@)
            + solid_weights(target)(made.void_triangle@),
        full_weights(target)(parent) == full_weights(target)(made.parent@) + full_weights(target)(
            made.children@[0]@,
        ) + full_weights(target)(made.children@[1]@) + full_weights(target)(made.children@[2]@) + full_weights(
            target,
        )(made.void_triangle@),
        parent.depth + 1 < target ==> awaits_subdivision(made.children@[2]@, target),
{
    let solid = solid_weights(target);
    let full = full_weights(target);
    let levels = (target - parent.depth) as nat;
    let below = (levels - 1) as nat;
    lemma_counts_step(levels);
    assert(cumulative_count(0) == 1);
    assert(complete_count(0) == 1);
    assert(solid(parent) == cumulative_count(levels));
    assert(full(parent) == complete_count(levels));
    assert(solid(made.parent@) == 1);
    assert(full(made.parent@) == 1);
    assert(solid(made.void_triangle@) == 0);
    assert(full(made.void_triangle@) == 1);
    assert(solid(made.children@[0]@) == cumulative_count(below));
    assert(solid(made.children@[1]@) == cumulative_count(below));
    assert(solid(made.children@[2]@) == cumulative_count(below));
    assert(full(made.children@[0]@) == complete_count(below));
    assert(full(made.children@[1]@) == complete_count(below));
    assert(full(made.children@[2]@) == complete_count(below));
}

/// What a subdivision does to the totals towards `target`. Neither grows.
/// The full total stays only where every identifier that was drawn was new;
/// then the solid total stays too, and a child that is still to be
/// subdivided is held.
proof fn lemma_subdivision_counts(
    records: Seq<TriangleRecord>,
    parent: TriangleRecord,
    made: SubdivisionResult,
    target: u8,
)
    requires
        target <= MAX_SUBDIVISION_DEPTH,
        awaits_subdivision(parent, target),
        lookup(records, parent.id) == Some(parent),
        split_points(parent.triangle) matches Some(points) && made.follows(parent, points),
    ensures
        total(with_subdivision(records, made), solid_weights(target)) <= total(records, solid_weights(target)),
        total(with_subdivision(records, made), full_weights(target)) <= total(records, full_weights(target)),
        total(with_subdivision(records, made), full_weights(target)) == total(records, full_weights(target)) ==> {
            &&& total(with_subdivision(records, made), solid_weights(target)) == total(
                records,
                solid_weights(target),
            )
            &&& parent.depth + 1 < target ==> !complete_to_depth(with_subdivision(records, made), target)
        },
        all_new(records, made) ==> total(with_subdivision(records, made), full_weights(target)) == total(
            records,
            full_weights(target),
        ),
{
    let solid = solid_weights(target);
    let full = full_weights(target);
    assert(ignores_children(solid));
    assert(ignores_children(full));
    assert forall|record: TriangleRecord| #[trigger] full(record) >= 1 by {
        lemma_counts_positive((target - record.depth) as nat);
    }
    lemma_part_weights(parent, made, target);
    lemma_subdivision_total(records, parent, made, solid);
    lemma_subdivision_total(records, parent, made, full);
    if all_new(records, made) {
        lemma_last_child_held(records, made);
        let after = with_subdivision(records, made);
        if parent.depth + 1 < target {
            assert(awaits_subdivision(after[after.len() - 2], target));
        }
    }
}

/// Where no record is still to be subdivided, the solid total is the
/// number of records that are no voids, and the full total is the number
/// of records.
proof fn lemma_complete_totals(records: Seq<TriangleRecord>, target: u8)
    requires
        complete_to_depth(records, target),
    ensures
        total(records, solid_weights(target)) == count_solid(records),
        total(records, full_weights(target)) == records.len(),
    decreases records.len(),
{
    if records.len() > 0 {
        let rest = records.drop_last();
        assert forall|i: int| 0 <= i < rest.len() implies !awaits_subdivision(#[trigger] rest[i], target) by {
            assert(rest[i] == records[i]);
        }
        lemma_complete_totals(rest, target);
        assert(!awaits_subdivision(records[records.len() - 1], target));
    }
}

/// Adding a record keeps the identifiers of the records in their places;
/// a record with a new identifier comes at the end.
proof fn lemma_added_ids(records: Seq<TriangleRecord>, record: TriangleRecord)
    ensures
        position(records, record.id) < records.len() ==> added(records, record).len() == records.len(),
        position(records, record.id) >= records.len() ==> added(records, record).len() == records.len() + 1
            && added(records, record)[records.len() as int] == record,
        forall|k: int| 0 <= k < records.len() ==> (#[trigger] added(records, record)[k]).id == records[k].id,
{
    let noted = note_child(records, record.parent_id, record.id);
    match record.parent_id {
        Some(p) => {
            lemma_position_range(records, p);
        },
        None => {},
    }
    assert forall|k: int| 0 <= k < records.len() implies (#[trigger] noted[k]).id == records[k].id by {}
    lemma_position_by_ids(noted, records, record.id);
    lemma_position_range(noted, record.id);
}

/// A record that gains a child has grown.
proof fn lemma_with_child_grows(record: TriangleRecord, child: u128)
    ensures
        grown(record.with_child(child), record),
        record.with_child(child).child_ids.contains(child),
{
    let after = record.with_child(child);
    if !record.child_ids.contains(child) {
        assert forall|c: u128| record.child_ids.contains(c) implies #[trigger] after.child_ids.contains(c) by {
            let at = choose|at: int| 0 <= at < record.child_ids.len() && record.child_ids[at] == c;
            assert(record.child_ids.push(child)[at] == c);
        }
        assert(record.child_ids.push(child)[record.child_ids.len() as int] == child);
    }
}

/// A record that has grown from one that has grown has grown.
proof fn lemma_grown_twice(a: TriangleRecord, b: TriangleRecord, c: TriangleRecord)
    requires
        grown(a, b),
        grown(b, c),
    ensures
        grown(a, c),
{
    assert forall|x: u128| c.child_ids.contains(x) implies #[trigger] a.child_ids.contains(x) by {
        assert(b.child_ids.contains(x));
    }
}

/// Adding a record lets the other records grow at most: one with the same
/// identifier gives way to it, and where there is none it comes at the end.
proof fn lemma_added_layout(records: Seq<TriangleRecord>, record: TriangleRecord)
    ensures
        position(records, record.id) < records.len() ==> added(records, record).len() == records.len()
            && added(records, record)[position(records, record.id)] == record,
        position(records, record.id) >= records.len() ==> added(records, record).len() == records.len() + 1
            && added(records, record)[records.len() as int] == record,
        forall|k: int|
            0 <= k < records.len() && k != position(records, record.id) ==> grown(
                #[trigger] added(records, record)[k],
                records[k],
            ),
{
    let noted = note_child(records, record.parent_id, record.id);
    match record.parent_id {
        Some(p) => {
            lemma_position_range(records, p);
            let at = position(records, p);
            if at < records.len() {
                lemma_with_child_grows(records[at], record.id);
            }
        },
        None => {},
    }
    assert forall|k: int| 0 <= k < records.len() implies grown(#[trigger] noted[k], records[k]) by {}
    lemma_position_by_ids(noted, records, record.id);
    lemma_position_range(noted, record.id);
}

/// How the records lie after a subdivision for which only new identifiers
/// were drawn: the parent has given way to what it is afterwards, the four
/// parts come at the end in their order, and the other records have grown
/// at most.
proof fn lemma_fresh_layout(records: Seq<TriangleRecord>, parent: TriangleRecord, made: SubdivisionResult)
    requires
        all_new(records, made),
        lookup(records, parent.id) == Some(parent),
        made.parent@.id == parent.id,
    ensures
        with_subdivision(records, made).len() == records.len() + 4,
        grown(with_subdivision(records, made)[position(records, parent.id)], made.parent@),
        grown(with_subdivision(records, made)[records.len() as int], made.children@[0]@),
        grown(with_subdivision(records, made)[(records.len() + 1) as int], made.children@[1]@),
        grown(with_subdivision(records, made)[(records.len() + 2) as int], made.children@[2]@),
        grown(with_subdivision(records, made)[(records.len() + 3) as int], made.void_triangle@),
        forall|k: int|
            0 <= k < records.len() && k != position(records, parent.id) ==> grown(
                #[trigger] with_subdivision(records, made)[k],
                records[k],
            ),
{
    let len = records.len() as int;
    let j = position(records, parent.id);
    let c0 = made.children@[0]@;
    let c1 = made.children@[1]@;
    let c2 = made.children@[2]@;
    let void = made.void_triangle@;
    let r1 = added(records, made.parent@);
    let r2 = added(r1, c0);
    let r3 = added(r2, c1);
    let r4 = added(r3, c2);
    let r5 = added(r4, void);
    lemma_position_range(records, parent.id);
    lemma_added_layout(records, made.parent@);
    lemma_added_layout(r1, c0);
    lemma_added_layout(r2, c1);
    lemma_added_layout(r3, c2);
    lemma_added_layout(r4, void);
    assert forall|k: int| 0 <= k < len + 3 implies grown(#[trigger] r5[k], r4[k]) by {}
    assert forall|k: int| 0 <= k < len + 2 implies grown(#[trigger] r4[k], r3[k]) by {}
    assert forall|k: int| 0 <= k < len + 1 implies grown(#[trigger] r3[k], r2[k]) by {}
    assert forall|k: int| 0 <= k < len implies grown(#[trigger] r2[k], r1[k]) by {}
    assert forall|k: int| 0 <= k < len implies grown(#[trigger] r5[k], r1[k]) by {
        lemma_grown_twice(r3[k], r2[k], r1[k]);
        lemma_grown_twice(r4[k], r3[k], r1[k]);
        lemma_grown_twice(r5[k], r4[k], r1[k]);
    }
    assert forall|k: int| 0 <= k < len && k != j implies grown(#[trigger] r5[k], records[k]) by {
        lemma_grown_twice(r5[k], r1[k], records[k]);
    }
    lemma_grown_twice(r4[len], r3[len], r2[len]);
    lemma_grown_twice(r5[len], r4[len], r2[len]);
    lemma_grown_twice(r5[len + 1], r4[len + 1], r3[len + 1]);
}

/// Whether `after` stands where `before` stood among the parts of its
/// parent: it has its identifier, triangle, address, depth and parent, and
/// is a void if and only if `before` is.
pub open spec fn stands_for(after: TriangleRecord, before: TriangleRecord) -> bool {
    &&& after.id == before.id
    &&& after.triangle == before.triangle
    &&& after.address == before.address
    &&& after.depth == before.depth
    &&& after.parent_id == before.parent_id
    &&& (after.state == TriangleState::Void) == (before.state == TriangleState::Void)
}

/// A part that is held stays held where the parent grows at most and the
/// part is stood for.
proof fn lemma_part_kept(
    child: TriangleRecord,
    parent: TriangleRecord,
    later_child: TriangleRecord,
    later_parent: TriangleRecord,
    index: int,
)
    requires
        is_held_part(child, parent, index),
        grown(later_parent, parent),
        stands_for(later_child, child),
    ensures
        is_held_part(later_child, later_parent, index),
{
}

/// The parts that a subdivision made are held as parts of the parent as it
/// is afterwards, also where they and the parent have grown.
proof fn lemma_new_parts(
    parent: TriangleRecord,
    made: SubdivisionResult,
    later_parent: TriangleRecord,
    p0: TriangleRecord,
    p1: TriangleRecord,
    p2: TriangleRecord,
    p3: TriangleRecord,
)
    requires
        parent.state != TriangleState::Void,
        split_points(parent.triangle) matches Some(points) && made.follows(parent, points),
        grown(later_parent, made.parent@),
        grown(p0, made.children@[0]@),
        grown(p1, made.children@[1]@),
        grown(p2, made.children@[2]@),
        grown(p3, made.void_triangle@),
    ensures
        is_held_part(p0, later_parent, 0),
        is_held_part(p1, later_parent, 1),
        is_held_part(p2, later_parent, 2),
        is_held_part(p3, later_parent, 3),
        stands_for(later_parent, parent),
{
    let c0 = made.children@[0]@;
    let c1 = made.children@[1]@;
    let c2 = made.children@[2]@;
    let void = made.void_triangle@;
    lemma_with_child_grows(parent, c0.id);
    lemma_with_child_grows(parent.with_child(c0.id), c1.id);
    lemma_with_child_grows(parent.with_child(c0.id).with_child(c1.id), c2.id);
    lemma_with_child_grows(parent.with_child(c0.id).with_child(c1.id).with_child(c2.id), void.id);
    assert(made.parent@.child_ids.contains(c0.id));
    assert(made.parent@.child_ids.contains(c1.id));
    assert(made.parent@.child_ids.contains(c2.id));
    assert(made.parent@.child_ids.contains(void.id));
}

/// Records in which the parts of every subdivided record are held keep
/// that where the record at place `j` has been subdivided: it is stood
/// for, its four parts come at the end, and the others have grown at most.
proof fn lemma_parts_kept(records: Seq<TriangleRecord>, after: Seq<TriangleRecord>, j: int)
    requires
        has_parts(records),
        0 <= j < records.len(),
        after.len() == records.len() + 4,
        stands_for(after[j], records[j]),
        forall|k: int| 0 <= k < records.len() && k != j ==> grown(#[trigger] after[k], records[k]),
        forall|i: int|
            0 <= i < 4 ==> is_held_part(#[trigger] after[records.len() + i], after[j], i) && after[records.len()
                + i].state != TriangleState::Subdivided,
    ensures
        has_parts(after),
{
    let len = records.len() as int;
    assert forall|m: int| 0 <= m < len implies stands_for(#[trigger] after[m], records[m]) by {
        if m != j {
            assert(grown(after[m], records[m]));
        }
    }
    assert forall|k: int, i: int|
        0 <= k < after.len() && after[k].state == TriangleState::Subdivided && 0 <= i < 4 implies #[trigger] part_held(
        after,
        k,
        i,
    ) by {
        if k == j {
            assert(is_held_part(after[len + i], after[k], i));
        } else if k < len {
            assert(grown(after[k], records[k]));
            assert(part_held(records, k, i));
            let m = choose|m: int| 0 <= m < records.len() && is_held_part(#[trigger] records[m], records[k], i);
            assert(stands_for(after[m], records[m]));
            lemma_part_kept(records[m], records[k], after[m], after[k], i);
        } else {
            assert(after[len + (k - len)].state != TriangleState::Subdivided);
        }
    }
}

/// A subdivision for which only new identifiers were drawn keeps the parts
/// of every subdivided record held, and the parts of the parent are held.
proof fn lemma_parts_step(records: Seq<TriangleRecord>, parent: TriangleRecord, made: SubdivisionResult, target: u8)
    requires
        has_parts(records),
        all_new(records, made),
        awaits_subdivision(parent, target),
        lookup(records, parent.id) == Some(parent),
        split_points(parent.triangle) matches Some(points) && made.follows(parent, points),
    ensures
        has_parts(with_subdivision(records, made)),
{
    let after = with_subdivision(records, made);
    let len = records.len() as int;
    let j = position(records, parent.id);
    lemma_position_range(records, parent.id);
    assert(records[j] == parent);
    assert(made.parent@.id == parent.id);
    lemma_fresh_layout(records, parent, made);
    lemma_new_parts(parent, made, after[j], after[len], after[len + 1], after[len + 2], after[len + 3]);
    assert forall|i: int| 0 <= i < 4 implies is_held_part(#[trigger] after[len + i], after[j], i) && after[len
        + i].state != TriangleState::Subdivided by {
        if i == 0 {
            assert(grown(after[len], made.children@[0]@));
        } else if i == 1 {
            assert(grown(after[len + 1], made.children@[1]@));
        } else if i == 2 {
            assert(grown(after[len + 2], made.children@[2]@));
        } else {
            assert(grown(after[len + 3], made.void_triangle@));
        }
    }
    lemma_parts_kept(records, after, j);
}

/// An identifier that no record has is looked up to no place.
proof fn lemma_absent(records: Seq<TriangleRecord>, id: u128)
    requires
        forall|k: int| 0 <= k < records.len() ==> (#[trigger] records[k]).id != id,
    ensures
        position(records, id) >= records.len(),
{
    lemma_position_range(records, id);
}

/// Where every identifier is new with one more subdivision, it was before.
proof fn lemma_fresh_prefix(first: u128, used: Seq<PartDraws>, draws: PartDraws)
    requires
        all_fresh(first, used.push(draws)),
    ensures
        all_fresh(first, used),
{
    let more = used.push(draws);
    assert forall|a: int, i: int| 0 <= a < used.len() && 0 <= i < 4 implies #[trigger] used[a].ids@[i] != first by {
        assert(more[a].ids@[i] != first);
    }
    assert forall|a: int, i: int, b: int, j: int|
        0 <= a < used.len() && 0 <= i < 4 && 0 <= b < used.len() && 0 <= j < 4 && (a != b || i != j)
            implies #[trigger] used[a].ids@[i] != #[trigger] used[b].ids@[j] by {
        assert(more[a].ids@[i] != more[b].ids@[j]);
    }
}

/// A subdivision for which only new identifiers were drawn replaces no
/// record but the parent, and leaves records whose identifiers are known.
proof fn lemma_fresh_step(
    records: Seq<TriangleRecord>,
    parent: TriangleRecord,
    made: SubdivisionResult,
    first: u128,
    used: Seq<PartDraws>,
    draws: PartDraws,
)
    requires
        known(records, first, used),
        all_fresh(first, used.push(draws)),
        lookup(records, parent.id) == Some(parent),
        made.parent@.id == parent.id,
        made.drawn(draws),
    ensures
        all_new(records, made),
        known(with_subdivision(records, made), first, used.push(draws)),
{
    let more = used.push(draws);
    let n = used.len() as int;
    let len = records.len() as int;
    assert(more[n] == draws);
    assert forall|k: int, i: int| 0 <= k < len && 0 <= i < 4 implies (#[trigger] records[k]).id
        != #[trigger] draws.ids@[i] by {
        assert(is_drawn(first, used, records[k].id));
        if records[k].id == first {
            assert(more[n].ids@[i] != first);
        } else {
            let (a, j) = choose|a: int, j: int|
                0 <= a < used.len() && 0 <= j < 4 && #[trigger] used[a].ids@[j] == records[k].id;
            assert(more[a] == used[a]);
            assert(more[a].ids@[j] != more[n].ids@[i]);
        }
    }
    assert(more[n].ids@[0] != more[n].ids@[1]);
    assert(more[n].ids@[0] != more[n].ids@[2]);
    assert(more[n].ids@[0] != more[n].ids@[3]);
    assert(more[n].ids@[1] != more[n].ids@[2]);
    assert(more[n].ids@[1] != more[n].ids@[3]);
    assert(more[n].ids@[2] != more[n].ids@[3]);
    let c0 = made.children@[0]@;
    let c1 = made.children@[1]@;
    let c2 = made.children@[2]@;
    let void = made.void_triangle@;
    let r1 = added(records, made.parent@);
    let r2 = added(r1, c0);
    let r3 = added(r2, c1);
    let r4 = added(r3, c2);
    let r5 = added(r4, void);
    lemma_position_range(records, parent.id);
    lemma_added_ids(records, made.parent@);
    assert forall|k: int| 0 <= k < r1.len() implies (#[trigger] r1[k]).id != c0.id by {
        assert(records[k].id != draws.ids@[0]);
    }
    lemma_absent(r1, c0.id);
    lemma_added_ids(r1, c0);
    assert forall|k: int| 0 <= k < r2.len() implies (#[trigger] r2[k]).id != c1.id by {
        if k < len {
            assert(r1[k].id == records[k].id);
            assert(records[k].id != draws.ids@[1]);
        }
    }
    lemma_absent(r2, c1.id);
    lemma_added_ids(r2, c1);
    assert forall|k: int| 0 <= k < r3.len() implies (#[trigger] r3[k]).id != c2.id by {
        if k < len {
            assert(r2[k].id == r1[k].id);
            assert(r1[k].id == records[k].id);
            assert(records[k].id != draws.ids@[2]);
        } else if k == len {
            assert(r2[k].id == c0.id);
        }
    }
    lemma_absent(r3, c2.id);
    lemma_added_ids(r3, c2);
    assert forall|k: int| 0 <= k < r4.len() implies (#[trigger] r4[k]).id != void.id by {
        if k < len {
            assert(r3[k].id == r2[k].id);
            assert(r2[k].id == r1[k].id);
            assert(r1[k].id == records[k].id);
            assert(records[k].id != draws.ids@[3]);
        } else if k == len {
            assert(r3[k].id == r2[k].id);
            assert(r2[k].id == c0.id);
        } else if k == len + 1 {
            assert(r3[k].id == c1.id);
        }
    }
    lemma_absent(r4, void.id);
    lemma_added_ids(r4, void);
    assert forall|k: int| 0 <= k < r5.len() implies is_drawn(first, more, #[trigger] r5[k].id) by {
        if k < len {
            assert(r5[k].id == r4[k].id);
            assert(r4[k].id == r3[k].id);
            assert(r3[k].id == r2[k].id);
            assert(r2[k].id == r1[k].id);
            assert(r1[k].id == records[k].id);
            assert(is_drawn(first, used, records[k].id));
            if records[k].id != first {
                let (a, j) = choose|a: int, j: int|
                    0 <= a < used.len() && 0 <= j < 4 && #[trigger] used[a].ids@[j] == records[k].id;
                assert(more[a].ids@[j] == records[k].id);
            }
        } else if k == len {
            assert(r5[k].id == r4[k].id);
            assert(r4[k].id == r3[k].id);
            assert(r3[k].id == r2[k].id);
            assert(more[n].ids@[0] == r5[k].id);
        } else if k == len + 1 {
            assert(r5[k].id == r4[k].id);
            assert(r4[k].id == r3[k].id);
            assert(more[n].ids@[1] == r5[k].id);
        } else if k == len + 2 {
            assert(r5[k].id == r4[k].id);
            assert(more[n].ids@[2] == r5[k].id);
        } else {
            assert(more[n].ids@[3] == r5[k].id);
        }
    }
}

/// One more subdivision of a record that was still to be subdivided keeps
/// the records what the subdivisions have built.
proof fn lemma_built_step(
    start: TriangleRecord,
    records: Seq<TriangleRecord>,
    parent: TriangleRecord,
    made: SubdivisionResult,
    used: Seq<PartDraws>,
    draws: PartDraws,
    target: u8,
)
    requires
        target <= MAX_SUBDIVISION_DEPTH,
        built(start, records, used, target),
        awaits_subdivision(parent, target),
        lookup(records, parent.id) == Some(parent),
        split_points(parent.triangle) matches Some(points) && made.follows(parent, points),
        made.drawn(draws),
    ensures
        built(start, with_subdivision(records, made), used.push(draws), target),
{
    let after = with_subdivision(records, made);
    let more = used.push(draws);
    assert(more.drop_last() =~= used);
    assert(more.last() == draws);
    lemma_position_range(records, parent.id);
    let j = position(records, parent.id);
    assert(records[j] == parent);
    assert(step(records, after, draws, target));
    assert(reached(seq![start], after, more, target));
    if all_fresh(start.id, more) {
        lemma_fresh_prefix(start.id, used, draws);
        lemma_fresh_step(records, parent, made, start.id, used, draws);
        lemma_subdivision_counts(records, parent, made, target);
        lemma_parts_step(records, parent, made, target);
    }
}

/// Adding what a subdivision made never makes the records fewer.
proof fn lemma_subdivision_grows(records: Seq<TriangleRecord>, made: SubdivisionResult)
    ensures
        with_subdivision(records, made).len() >= records.len(),
{
    let r1 = added(records, made.parent@);
    let r2 = added(r1, made.children@[0]@);
    let r3 = added(r2, made.children@[1]@);
    let r4 = added(r3, made.children@[2]@);
    lemma_added(records, made.parent@, 0);
    lemma_added(r1, made.children@[0]@, 0);
    lemma_added(r2, made.children@[1]@, 0);
    lemma_added(r3, made.children@[2]@, 0);
    lemma_added(r4, made.void_triangle@, 0);
}

/// Subdividing a record that was still to be subdivided lowers the
/// potential: its own weight goes, and its three children together weigh
/// three quarters of it at most.
proof fn lemma_subdivision_lowers_potential(
    records: Seq<TriangleRecord>,
    parent: TriangleRecord,
    made: SubdivisionResult,
    target: u8,
)
    requires
        awaits_subdivision(parent, target),
        lookup(records, parent.id) == Some(parent),
        split_points(parent.triangle) matches Some(points) && made.follows(parent, points),
    ensures
        potential(with_subdivision(records, made), target) < potential(records, target),
{
    let levels = (target - parent.depth) as nat;
    let r1 = added(records, made.parent@);
    let r2 = added(r1, made.children@[0]@);
    let r3 = added(r2, made.children@[1]@);
    let r4 = added(r3, made.children@[2]@);
    lemma_added(records, made.parent@, target);
    lemma_added(r1, made.children@[0]@, target);
    lemma_added(r2, made.children@[1]@, target);
    lemma_added(r3, made.children@[2]@, target);
    lemma_added(r4, made.void_triangle@, target);
    assert(made.parent@.id == parent.id);
    assert(weight(made.parent@, target) == 0);
    assert(weight(made.void_triangle@, target) == 0);
    lemma_pow4_bound((levels - 1) as nat);
    assert(weight(parent, target) == 4 * pow4((levels - 1) as nat));
    assert(weight(made.children@[0]@, target) <= pow4((levels - 1) as nat));
    assert(weight(made.children@[1]@, target) <= pow4((levels - 1) as nat));
    assert(weight(made.children@[2]@, target) <= pow4((levels - 1) as nat));
}

/// Counts and areas of the triangles of a fractal.
#[derive(Debug, Clone, Copy)]
pub struct SubdivisionStats {
    /// The number of triangles, the voids left out.
    pub total_triangles: usize,
    /// The number of active triangles.
    pub active_triangles: usize,
    /// The number of subdivided triangles.
    pub subdivided_triangles: usize,
    /// The number of voids.
    pub void_triangles: usize,
    /// The greatest depth.
    pub max_depth: u8,
    /// The areas of the genesis triangle and of the subdivided triangles,
    /// added up.
    pub total_area: Decimal,
    /// The areas of the active triangles, added up.
    pub active_area: Decimal,
}

impl SubdivisionStats {
    /// The statistics of `structure`, or `None` where a sum of areas
    /// overflows.
    pub open spec fn of(structure: FractalStructure) -> Option<SubdivisionStats> {
        let records = structure.records();
        let zero = Some(Decimal::from_pair(0, 0));
        match (
            areas_added(
                areas_added(zero, in_state(records, TriangleState::Genesis)),
                in_state(records, TriangleState::Subdivided),
            ),
            areas_added(zero, in_state(records, TriangleState::Active)),
        ) {
            (Some(total_area), Some(active_area)) => Some(
                SubdivisionStats {
                    total_triangles: crate::fractal::count_solid(records) as usize,
                    active_triangles: in_state(records, TriangleState::Active).len() as usize,
                    subdivided_triangles: in_state(records, TriangleState::Subdivided).len() as usize,
                    void_triangles: in_state(records, TriangleState::Void).len() as usize,
                    max_depth: structure.spec_max_depth(),
                    total_area,
                    active_area,
                },
            ),
            _ => None,
        }
    }

    /// The statistics of `structure`.
    ///
    /// Fails with `ArithmeticOverflow` where a sum of areas overflows.
    pub fn calculate(structure: &FractalStructure) -> (r: SierpinskiResult<SubdivisionStats>)
        ensures
            match SubdivisionStats::of(*structure) {
                Some(stats) => r == Ok::<SubdivisionStats, SierpinskiError>(stats),
                None => r == Err::<SubdivisionStats, SierpinskiError>(SierpinskiError::ArithmeticOverflow),
            },
    {
        let active = structure.triangles_by_state(TriangleState::Active);
        let subdivided = structure.triangles_by_state(TriangleState::Subdivided);
        let voids = structure.triangles_by_state(TriangleState::Void);
        let genesis = structure.triangles_by_state(TriangleState::Genesis);
        let total_area = add_areas(add_areas(Some(Decimal::zero()), &genesis), &subdivided);
        let active_area = add_areas(Some(Decimal::zero()), &active);
        match (total_area, active_area) {
            (Some(total_area), Some(active_area)) => Ok(
                SubdivisionStats {
                    total_triangles: structure.total_triangles(),
                    active_triangles: active.len(),
                    subdivided_triangles: subdivided.len(),
                    void_triangles: voids.len(),
                    max_depth: structure.max_depth(),
                    total_area,
                    active_area,
                },
            ),
            _ => Err(SierpinskiError::ArithmeticOverflow),
        }
    }
}

/// Adds the areas of `triangles` to `start`, in their order.
pub fn add_areas(start: Option<Decimal>, triangles: &Vec<&FractalTriangle>) -> (r: Option<Decimal>)
    ensures
        r == areas_added(start, records_of_refs(triangles@)),
{
    let ghost records = records_of_refs(triangles@);
    let mut total = start;
    let mut i: usize = 0;
    while i < triangles.len()
        invariant
            records == records_of_refs(triangles@),
            i <= triangles.len(),
            total == areas_added(start, records.subrange(0, i as int)),
        decreases triangles.len() - i,
    {
        proof {
            let next = records.subrange(0, i + 1);
            assert(next.drop_last() =~= records.subrange(0, i as int));
            assert(next.last() == triangles@[i as int]@);
        }
        let area = match triangles[i].area() {
            Ok(a) => Some(a),
            Err(_) => None,
        };
        total = plus(total, area);
        i = i + 1;
    }
    assert(records.subrange(0, i as int) =~= records);
    total
}

/// Whether the subdivision of the triangle `a b c` and the comparison of
/// the areas come out without rounding: the midpoints, the areas of the
/// triangle and of its four parts, the sum of the parts, its difference
/// from the area of the triangle, and the tolerance.
pub open spec fn exact_split(a: Point, b: Point, c: Point) -> bool {
    &&& exact_midpoint(a, b)
    &&& exact_midpoint(b, c)
    &&& exact_midpoint(c, a)
    &&& {
        let mid_ab = spec_midpoint(a, b)->0;
        let mid_bc = spec_midpoint(b, c)->0;
        let mid_ca = spec_midpoint(c, a)->0;
        &&& exact_area(a, b, c)
        &&& exact_area(a, mid_ab, mid_ca)
        &&& exact_area(mid_ab, b, mid_bc)
        &&& exact_area(mid_ca, mid_bc, c)
        &&& exact_area(mid_ab, mid_bc, mid_ca)
        &&& exact_comparison(
            spec_area_of(a, b, c)->0,
            spec_area_of(a, mid_ab, mid_ca)->0,
            spec_area_of(mid_ab, b, mid_bc)->0,
            spec_area_of(mid_ca, mid_bc, c)->0,
            spec_area_of(mid_ab, mid_bc, mid_ca)->0,
        )
    }
}

/// Whether the comparison of the area of a parent with the areas of its
/// parts comes out without rounding.
pub open spec fn exact_comparison(parent: Decimal, c0: Decimal, c1: Decimal, c2: Decimal, void: Decimal) -> bool {
    let zero = Decimal::from_pair(0, 0);
    &&& exact_sum(zero, c0)
    &&& exact_sum(zero.spec_add(c0)->0, c1)
    &&& exact_sum(zero.spec_add(c0)->0.spec_add(c1)->0, c2)
    &&& exact_sum(zero.spec_add(c0)->0.spec_add(c1)->0.spec_add(c2)->0, void)
    &&& exact_difference(parent, zero.spec_add(c0)->0.spec_add(c1)->0.spec_add(c2)->0.spec_add(void)->0)
    &&& exact_product(parent, conservation_tolerance())
}

/// Area conservation: where the subdivision of a triangle comes out
/// without rounding, each of the four parts has a quarter of the area of the
/// triangle, and the parts together conserve its area. Decimal arithmetic
/// rounds what does not fit into 28 digits; the check of a subdivision
/// allows for that with its tolerance of a millionth.
pub proof fn lemma_area_conserved(a: Point, b: Point, c: Point)
    requires
        exact_split(a, b, c),
    ensures
        ({
            let mid_ab = spec_midpoint(a, b)->0;
            let mid_bc = spec_midpoint(b, c)->0;
            let mid_ca = spec_midpoint(c, a)->0;
            let parent = spec_area_of(a, b, c)->0;
            let c0 = spec_area_of(a, mid_ab, mid_ca)->0;
            let c1 = spec_area_of(mid_ab, b, mid_bc)->0;
            let c2 = spec_area_of(mid_ca, mid_bc, c)->0;
            let void = spec_area_of(mid_ab, mid_bc, mid_ca)->0;
            &&& 4 * c0.units() == parent.units()
            &&& 4 * c1.units() == parent.units()
            &&& 4 * c2.units() == parent.units()
            &&& 4 * void.units() == parent.units()
            &&& area_conserved(parent, c0, c1, c2, void) == Some(true)
        }),
{
    let unit = pow10(MAX_SCALE as nat);
    lemma_pow10_positive(MAX_SCALE as nat);
    lemma_exact_midpoint(a, b);
    lemma_exact_midpoint(b, c);
    lemma_exact_midpoint(c, a);
    let mid_ab = spec_midpoint(a, b)->0;
    let mid_bc = spec_midpoint(b, c)->0;
    let mid_ca = spec_midpoint(c, a)->0;
    lemma_exact_area(a, b, c);
    lemma_exact_area(a, mid_ab, mid_ca);
    lemma_exact_area(mid_ab, b, mid_bc);
    lemma_exact_area(mid_ca, mid_bc, c);
    lemma_exact_area(mid_ab, mid_bc, mid_ca);
    let parent = spec_area_of(a, b, c)->0;
    let c0 = spec_area_of(a, mid_ab, mid_ca)->0;
    let c1 = spec_area_of(mid_ab, b, mid_bc)->0;
    let c2 = spec_area_of(mid_ca, mid_bc, c)->0;
    let void = spec_area_of(mid_ab, mid_bc, mid_ca)->0;
    let ax = a.x.units();
    let ay = a.y.units();
    let bx = b.x.units();
    let by = b.y.units();
    let cx = c.x.units();
    let cy = c.y.units();
    let whole = signed_double_area(ax, ay, bx, by, cx, cy);
    lemma_quarter(ax, ay, bx, by, cx, cy, mid_ab.x.units(), mid_ab.y.units(), mid_bc.x.units(), mid_bc.y.units(),
        mid_ca.x.units(), mid_ca.y.units());
    lemma_quarter_area(parent.units(), c0.units(), whole, signed_double_area(ax, ay, mid_ab.x.units(), mid_ab.y.units(), mid_ca.x.units(), mid_ca.y.units()), unit);
    lemma_quarter_area(parent.units(), c1.units(), whole, signed_double_area(mid_ab.x.units(), mid_ab.y.units(), bx, by, mid_bc.x.units(), mid_bc.y.units()), unit);
    lemma_quarter_area(parent.units(), c2.units(), whole, signed_double_area(mid_ca.x.units(), mid_ca.y.units(), mid_bc.x.units(), mid_bc.y.units(), cx, cy), unit);
    lemma_quarter_area(parent.units(), void.units(), whole, signed_double_area(mid_ab.x.units(), mid_ab.y.units(), mid_bc.x.units(), mid_bc.y.units(), mid_ca.x.units(), mid_ca.y.units()), unit);

    let zero = Decimal::from_pair(0, 0);
    lemma_units_of_whole(0);
    assert(zero.units() == 0) by (nonlinear_arith)
        requires
            zero.units() == 0 * unit,
    ;
    let s0 = zero.spec_add(c0)->0;
    let s1 = s0.spec_add(c1)->0;
    let s2 = s1.spec_add(c2)->0;
    let parts = s2.spec_add(void)->0;
    assert(parts.units() == parent.units());
    let difference = parent.spec_sub(parts)->0;
    assert(difference.units() == 0);
    lemma_abs_units(difference);
    let tolerance = parent.spec_mul(conservation_tolerance())->0;
    lemma_from_pair(1, 6);
    assert(parent.units() >= 0) by (nonlinear_arith)
        requires
            2 * parent.units() * unit >= 0,
            unit > 0,
    ;
    assert(tolerance.units() >= 0) by (nonlinear_arith)
        requires
            tolerance.units() * unit == parent.units() * conservation_tolerance().units(),
            parent.units() >= 0,
            conservation_tolerance().units() > 0,
            unit > 0,
    ;
    assert(spec_plus(spec_plus(zero.spec_add(c0), Some(c1)), Some(c2)) == Some(s2));
    assert(spec_plus(Some(s2), Some(void)) == Some(parts));
    assert(spec_magnitude(spec_minus(Some(parent), Some(parts))) == Some(difference.spec_abs()));
}

/// The signed double area of each part of a subdivision is a quarter of
/// that of the whole, where the midpoints are exact.
proof fn lemma_quarter(
    ax: int,
    ay: int,
    bx: int,
    by: int,
    cx: int,
    cy: int,
    abx: int,
    aby: int,
    bcx: int,
    bcy: int,
    cax: int,
    cay: int,
)
    requires
        2 * abx == ax + bx,
        2 * aby == ay + by,
        2 * bcx == bx + cx,
        2 * bcy == by + cy,
        2 * cax == cx + ax,
        2 * cay == cy + ay,
    ensures
        4 * signed_double_area(ax, ay, abx, aby, cax, cay) == signed_double_area(ax, ay, bx, by, cx, cy),
        4 * signed_double_area(abx, aby, bx, by, bcx, bcy) == signed_double_area(ax, ay, bx, by, cx, cy),
        4 * signed_double_area(cax, cay, bcx, bcy, cx, cy) == signed_double_area(ax, ay, bx, by, cx, cy),
        4 * signed_double_area(abx, aby, bcx, bcy, cax, cay) == signed_double_area(ax, ay, bx, by, cx, cy),
{
    let whole = signed_double_area(ax, ay, bx, by, cx, cy);
    assert(4 * ((abx - ax) * (cay - ay) - (aby - ay) * (cax - ax)) == (2 * abx - 2 * ax) * (2 * cay - 2 * ay) - (2
        * aby - 2 * ay) * (2 * cax - 2 * ax)) by (nonlinear_arith);
    assert((bx - ax) * (cy - ay) - (by - ay) * (cx - ax) == whole);
    assert(4 * ((bx - abx) * (bcy - aby) - (by - aby) * (bcx - abx)) == (2 * bx - 2 * abx) * (2 * bcy - 2 * aby) - (2
        * by - 2 * aby) * (2 * bcx - 2 * abx)) by (nonlinear_arith);
    assert((bx - ax) * (cy - ay) - (by - ay) * (cx - ax) == (bx - ax) * (cy - ay) - (by - ay) * (cx - ax));
    assert((2 * bx - 2 * abx) * (2 * bcy - 2 * aby) - (2 * by - 2 * aby) * (2 * bcx - 2 * abx) == whole)
        by (nonlinear_arith)
        requires
            2 * bx - 2 * abx == bx - ax,
            2 * bcy - 2 * aby == cy - ay,
            2 * by - 2 * aby == by - ay,
            2 * bcx - 2 * abx == cx - ax,
            whole == (bx - ax) * (cy - ay) - (by - ay) * (cx - ax),
    ;
    assert(4 * ((bcx - cax) * (cy - cay) - (bcy - cay) * (cx - cax)) == (2 * bcx - 2 * cax) * (2 * cy - 2 * cay) - (2
        * bcy - 2 * cay) * (2 * cx - 2 * cax)) by (nonlinear_arith);
    assert((2 * bcx - 2 * cax) * (2 * cy - 2 * cay) - (2 * bcy - 2 * cay) * (2 * cx - 2 * cax) == whole)
        by (nonlinear_arith)
        requires
            2 * bcx - 2 * cax == bx - ax,
            2 * cy - 2 * cay == cy - ay,
            2 * bcy - 2 * cay == by - ay,
            2 * cx - 2 * cax == cx - ax,
            whole == (bx - ax) * (cy - ay) - (by - ay) * (cx - ax),
    ;
    assert(4 * ((bcx - abx) * (cay - aby) - (bcy - aby) * (cax - abx)) == (2 * bcx - 2 * abx) * (2 * cay - 2 * aby)
        - (2 * bcy - 2 * aby) * (2 * cax - 2 * abx)) by (nonlinear_arith);
    assert((2 * bcx - 2 * abx) * (2 * cay - 2 * aby) - (2 * bcy - 2 * aby) * (2 * cax - 2 * abx) == whole)
        by (nonlinear_arith)
        requires
            2 * bcx - 2 * abx == cx - ax,
            2 * cay - 2 * aby == cy - by,
            2 * bcy - 2 * aby == cy - ay,
            2 * cax - 2 * abx == cx - bx,
            whole == (bx - ax) * (cy - ay) - (by - ay) * (cx - ax),
    ;
}

/// An area whose signed double area is a quarter of that of another is a
/// quarter of the other area.
proof fn lemma_quarter_area(whole_area: int, part_area: int, whole: int, part: int, unit: int)
    requires
        unit > 0,
        4 * part == whole,
        2 * whole_area * unit == if whole < 0 {
            -whole
        } else {
            whole
        },
        2 * part_area * unit == if part < 0 {
            -part
        } else {
            part
        },
    ensures
        4 * part_area == whole_area,
{
    assert(4 * part_area == whole_area) by (nonlinear_arith)
        requires
            unit > 0,
            4 * (2 * part_area * unit) == 2 * whole_area * unit,
    ;
}

/// Area conservation for what a subdivision makes: where the subdivision
/// of the triangle of `parent` comes out without rounding, the check of
/// what was made says yes.
pub proof fn lemma_subdivision_validates(parent: TriangleRecord, made: SubdivisionResult)
    requires
        split_points(parent.triangle) matches Some(points) && made.follows(parent, points),
        exact_split(parent.triangle.a(), parent.triangle.b(), parent.triangle.c()),
    ensures
        made.verdict() == Ok::<bool, SierpinskiError>(true),
{
    lemma_area_conserved(parent.triangle.a(), parent.triangle.b(), parent.triangle.c());
    let points = split_points(parent.triangle)->0;
    assert(made.parent@.triangle == parent.triangle);
}

} // verus!
