//! Checks of triangles and of fractal structures.
//!
//! A check gathers findings: errors, which make what was checked invalid,
//! and warnings, which do not. The findings are sentences, in the order in
//! which the checks are made.

use vstd::prelude::*;
use vstd::string::*;
use crate::decimal::{magnitude, minus, over, plus, spec_magnitude, spec_minus, spec_over, spec_plus, Decimal};
use crate::errors::SierpinskiError;
use crate::fractal::{at_depth, children_of, contains_id, in_state, lookup, records_of_refs, FractalStructure, FractalTriangle, TriangleRecord};
use crate::geometry::{three, Point};
use crate::ident::{id_text, uuid_text};
use crate::subdivision::{add_areas, areas_added, conservation_tolerance};
use crate::state::TriangleState;
use crate::text::{join3, join5, number_text, number_to_text, quoted_list, quoted_list_text, texts};
use crate::triangle::Triangle;
use crate::MAX_SUBDIVISION_DEPTH;

verus! {

/// The findings of a check as a mathematical value.
pub struct Findings {
    pub is_valid: bool,
    pub errors: Seq<Seq<char>>,
    pub warnings: Seq<Seq<char>>,
}

impl Findings {
    /// The findings that consist of the given errors and warnings; they are
    /// valid where there is no error.
    pub open spec fn of(errors: Seq<Seq<char>>, warnings: Seq<Seq<char>>) -> Findings {
        Findings { is_valid: errors.len() == 0, errors, warnings }
    }

    /// The findings with those of `other` behind them; they are valid where
    /// both are.
    pub open spec fn merged(self, other: Findings) -> Findings {
        Findings {
            is_valid: self.is_valid && other.is_valid,
            errors: self.errors + other.errors,
            warnings: self.warnings + other.warnings,
        }
    }
}

/// The findings of a check.
#[derive(Debug, Clone, PartialEq)]
pub struct ValidationResult {
    /// Whether what was checked is in order.
    pub is_valid: bool,
    /// What is wrong.
    pub errors: Vec<String>,
    /// What is odd.
    pub warnings: Vec<String>,
}

impl View for ValidationResult {
    type V = Findings;

    open spec fn view(&self) -> Findings {
        Findings { is_valid: self.is_valid, errors: texts(self.errors@), warnings: texts(self.warnings@) }
    }
}

impl ValidationResult {
    /// Findings without errors and warnings.
    pub fn success() -> (r: ValidationResult)
        ensures
            r@ == Findings::of(Seq::empty(), Seq::empty()),
    {
        let r = ValidationResult { is_valid: true, errors: Vec::new(), warnings: Vec::new() };
        assert(r@.errors =~= Seq::<Seq<char>>::empty() && r@.warnings =~= Seq::<Seq<char>>::empty());
        r
    }

    /// Invalid findings with the given errors.
    pub fn failure(errors: Vec<String>) -> (r: ValidationResult)
        ensures
            r@ == (Findings { is_valid: false, errors: texts(errors@), warnings: Seq::empty() }),
    {
        let r = ValidationResult { is_valid: false, errors, warnings: Vec::new() };
        assert(r@.warnings =~= Seq::<Seq<char>>::empty());
        r
    }

    /// Adds an error; the findings are invalid from then on.
    pub fn add_error(&mut self, error: String)
        ensures
            final(self)@ == (Findings {
                is_valid: false,
                errors: old(self)@.errors.push(error@),
                warnings: old(self)@.warnings,
            }),
    {
        self.errors.push(error);
        self.is_valid = false;
        assert(self@.errors =~= old(self)@.errors.push(error@));
    }

    /// Adds a warning.
    pub fn add_warning(&mut self, warning: String)
        ensures
            final(self)@ == (Findings { warnings: old(self)@.warnings.push(warning@), ..old(self)@ }),
    {
        self.warnings.push(warning);
        assert(self@.warnings =~= old(self)@.warnings.push(warning@));
    }

    /// Puts the findings of `other` behind these.
    pub fn combine(&mut self, other: ValidationResult)
        ensures
            final(self)@ == old(self)@.merged(other@),
    {
        let mut other = other;
        let ghost first_errors = self@.errors;
        let ghost first_warnings = self@.warnings;
        let ghost more = other@;
        self.errors.append(&mut other.errors);
        self.warnings.append(&mut other.warnings);
        self.is_valid = self.is_valid && other.is_valid;
        assert(self@.errors =~= first_errors + more.errors);
        assert(self@.warnings =~= first_warnings + more.warnings);
    }

    /// Adds the given errors, if there are any.
    fn add_errors(&mut self, errors: Vec<String>)
        ensures
            final(self)@ == (Findings {
                is_valid: old(self)@.is_valid && errors@.len() == 0,
                errors: old(self)@.errors + texts(errors@),
                warnings: old(self)@.warnings,
            }),
    {
        let mut errors = errors;
        let ghost first = self@.errors;
        let ghost more = texts(errors@);
        if errors.len() > 0 {
            self.is_valid = false;
        }
        self.errors.append(&mut errors);
        assert(self@.errors =~= first + more);
    }

    /// Adds the given warnings.
    fn add_warnings(&mut self, warnings: Vec<String>)
        ensures
            final(self)@ == (Findings { warnings: old(self)@.warnings + texts(warnings@), ..old(self)@ }),
    {
        let mut warnings = warnings;
        let ghost first = self@.warnings;
        let ghost more = texts(warnings@);
        self.warnings.append(&mut warnings);
        assert(self@.warnings =~= first + more);
    }
}

/// A coordinate below minus a million.
pub open spec fn far_negative(value: Decimal) -> bool {
    value.negative() && Decimal::from_pair(1000000, 0).less_than(value.spec_abs())
}

/// The warnings for vertex `index`: one for an `x` and one for a `y` below
/// minus a million.
pub open spec fn vertex_warnings(p: Point, index: nat) -> Seq<Seq<char>> {
    (if far_negative(p.x) {
        seq!["Vertex "@ + number_text(index) + " has very large negative x coordinate"@]
    } else {
        Seq::<Seq<char>>::empty()
    }) + (if far_negative(p.y) {
        seq!["Vertex "@ + number_text(index) + " has very large negative y coordinate"@]
    } else {
        Seq::<Seq<char>>::empty()
    })
}

/// The warnings for a triangle: those of its vertices, in their order.
pub open spec fn shape_warnings(t: Triangle) -> Seq<Seq<char>> {
    vertex_warnings(t.a(), 0) + vertex_warnings(t.b(), 1) + vertex_warnings(t.c(), 2)
}

/// The sentence for a triangle below the deepest level.
pub open spec fn depth_text(depth: u8) -> Seq<char> {
    "Triangle depth "@ + number_text(depth as nat) + " exceeds maximum allowed depth "@ + number_text(
        MAX_SUBDIVISION_DEPTH as nat,
    )
}

/// What is wrong with a triangle of the fractal: a genesis triangle below
/// depth 0 or with a parent, a subdivided triangle without children, a depth
/// below the deepest level, a change noted before the making.
pub open spec fn record_errors(r: TriangleRecord) -> Seq<Seq<char>> {
    (if r.state == TriangleState::Genesis && r.depth != 0 {
        seq!["Genesis triangle must have depth 0"@]
    } else {
        Seq::<Seq<char>>::empty()
    }) + (if r.state == TriangleState::Genesis && r.parent_id is Some {
        seq!["Genesis triangle cannot have a parent"@]
    } else {
        Seq::<Seq<char>>::empty()
    }) + (if r.state == TriangleState::Subdivided && r.child_ids.len() == 0 {
        seq!["Subdivided triangle must have children"@]
    } else {
        Seq::<Seq<char>>::empty()
    }) + (if r.depth > MAX_SUBDIVISION_DEPTH {
        seq![depth_text(r.depth)]
    } else {
        Seq::<Seq<char>>::empty()
    }) + (if r.updated_at < r.created_at {
        seq!["Updated timestamp cannot be before created timestamp"@]
    } else {
        Seq::<Seq<char>>::empty()
    })
}

/// What is odd about a triangle of the fractal: the warnings for its
/// vertices, and an active triangle at depth 0 without a parent.
pub open spec fn record_warnings(r: TriangleRecord) -> Seq<Seq<char>> {
    shape_warnings(r.triangle) + (if r.state == TriangleState::Active && r.depth == 0 && r.parent_id is None {
        seq!["Active triangle at depth 0 should probably be Genesis"@]
    } else {
        Seq::<Seq<char>>::empty()
    })
}

/// The sentence for a child at the wrong depth.
pub open spec fn child_depth_text(child: u8, parent: u8) -> Seq<char> {
    "Child depth "@ + number_text(child as nat) + " should be parent depth "@ + number_text(parent as nat)
        + " + 1"@
}

/// What is wrong between a parent and a child: a child that is not one
/// level below the parent, that does not name the parent, or that the
/// parent does not list; a parent that is not subdivided; a child that is
/// not smaller than the parent.
pub open spec fn relation_errors(parent: TriangleRecord, child: TriangleRecord) -> Seq<Seq<char>> {
    (if child.depth != parent.depth + 1 {
        seq![child_depth_text(child.depth, parent.depth)]
    } else {
        Seq::<Seq<char>>::empty()
    }) + (if child.parent_id != Some(parent.id) {
        seq!["Child parent_id does not match parent ID"@]
    } else {
        Seq::<Seq<char>>::empty()
    }) + (if !parent.child_ids.contains(child.id) {
        seq!["Parent does not contain child ID in its child list"@]
    } else {
        Seq::<Seq<char>>::empty()
    }) + (if parent.state != TriangleState::Subdivided {
        seq!["Parent of a child triangle must be in Subdivided state"@]
    } else {
        Seq::<Seq<char>>::empty()
    }) + (if !smaller_than(child.triangle, parent.triangle) {
        seq!["Child triangle area should be smaller than parent area"@]
    } else {
        Seq::<Seq<char>>::empty()
    })
}

/// Whether the area of `child` is below that of `parent`.
pub open spec fn smaller_than(child: Triangle, parent: Triangle) -> bool {
    match (child.spec_area(), parent.spec_area()) {
        (Some(c), Some(p)) => c.less_than(p),
        _ => false,
    }
}

/// Whether the centroid of `child` can be computed and lies in `parent`.
pub open spec fn centroid_inside(parent: Triangle, child: Triangle) -> bool {
    match child.spec_centroid() {
        Some(c) => parent.spec_contains_point(c) == Some(true),
        None => false,
    }
}

/// What is odd between a parent and a child: a child whose centroid does
/// not lie in the parent.
pub open spec fn relation_warnings(parent: TriangleRecord, child: TriangleRecord) -> Seq<Seq<char>> {
    if !centroid_inside(parent.triangle, child.triangle) {
        seq!["Child triangle centroid is not inside parent triangle"@]
    } else {
        Seq::<Seq<char>>::empty()
    }
}

/// Whether `value` is below minus a million.
pub fn is_far_negative(value: Decimal) -> (r: bool)
    ensures
        r == far_negative(value),
{
    value.is_negative() && Decimal::new(1000000, 0).lt(&value.abs())
}

/// Gathers the warnings for vertex `index`.
fn warn_of_vertex(warnings: &mut Vec<String>, p: &Point, index: u64)
    ensures
        texts(final(warnings)@) == texts(old(warnings)@) + vertex_warnings(*p, index as nat),
{
    let ghost first = texts(warnings@);
    let number = number_to_text(index);
    if is_far_negative(p.x) {
        warnings.push(join3("Vertex ", number.as_str(), " has very large negative x coordinate"));
    }
    if is_far_negative(p.y) {
        warnings.push(join3("Vertex ", number.as_str(), " has very large negative y coordinate"));
    }
    assert(texts(warnings@) =~= first + vertex_warnings(*p, index as nat));
}

/// Checks a triangle. A triangle is sound by construction, so there is
/// nothing that could be wrong with it; the check warns of coordinates below
/// minus a million.
pub fn validate_triangle(triangle: &Triangle) -> (r: ValidationResult)
    ensures
        r@ == Findings::of(Seq::empty(), shape_warnings(*triangle)),
{
    let mut warnings: Vec<String> = Vec::new();
    let vertices = triangle.vertices();
    assert(texts(warnings@) =~= Seq::<Seq<char>>::empty());
    warn_of_vertex(&mut warnings, &vertices[0], 0);
    warn_of_vertex(&mut warnings, &vertices[1], 1);
    warn_of_vertex(&mut warnings, &vertices[2], 2);
    assert(texts(warnings@) =~= shape_warnings(*triangle));
    let mut result = ValidationResult::success();
    result.add_warnings(warnings);
    assert(result@.warnings =~= shape_warnings(*triangle));
    result
}

/// Checks a triangle of the fractal: its geometry, that its state agrees
/// with its depth, its parent and its children, that its depth is within
/// the deepest level, and that its time stamps are in order.
pub fn validate_fractal_triangle(fractal_triangle: &FractalTriangle) -> (r: ValidationResult)
    ensures
        r@ == Findings::of(record_errors(fractal_triangle@), record_warnings(fractal_triangle@)),
{
    let mut result = validate_triangle(&fractal_triangle.triangle);
    let ghost shape = result@.warnings;
    let mut errors: Vec<String> = Vec::new();
    assert(texts(errors@) =~= Seq::<Seq<char>>::empty());
    match fractal_triangle.state {
        TriangleState::Genesis => {
            if fractal_triangle.depth != 0 {
                errors.push("Genesis triangle must have depth 0".to_owned());
            }
            if fractal_triangle.parent_id.is_some() {
                errors.push("Genesis triangle cannot have a parent".to_owned());
            }
        },
        TriangleState::Active => {
            if fractal_triangle.depth == 0 && fractal_triangle.parent_id.is_none() {
                result.add_warning("Active triangle at depth 0 should probably be Genesis".to_owned());
            }
        },
        TriangleState::Subdivided => {
            if fractal_triangle.child_ids.len() == 0 {
                errors.push("Subdivided triangle must have children".to_owned());
            }
        },
        _ => {},
    }
    if fractal_triangle.depth > MAX_SUBDIVISION_DEPTH {
        let depth = number_to_text(fractal_triangle.depth as u64);
        let limit = number_to_text(MAX_SUBDIVISION_DEPTH as u64);
        let sentence = join3("Triangle depth ", depth.as_str(), " exceeds maximum allowed depth ");
        errors.push(sentence.concat(limit.as_str()));
    }
    if fractal_triangle.updated_at < fractal_triangle.created_at {
        errors.push("Updated timestamp cannot be before created timestamp".to_owned());
    }
    assert(texts(errors@) =~= record_errors(fractal_triangle@));
    assert(result@.warnings =~= record_warnings(fractal_triangle@));
    result.add_errors(errors);
    assert(result@.errors =~= record_errors(fractal_triangle@));
    result
}

/// Checks a child against its parent: the depths, the links in both
/// directions, the state of the parent, and that the child is smaller than
/// the parent and lies in it.
pub fn validate_parent_child_relationship(
    parent: &FractalTriangle,
    child: &FractalTriangle,
) -> (r: ValidationResult)
    ensures
        r@ == Findings::of(relation_errors(parent@, child@), relation_warnings(parent@, child@)),
{
    let mut errors: Vec<String> = Vec::new();
    assert(texts(errors@) =~= Seq::<Seq<char>>::empty());
    if parent.depth == u8::MAX || child.depth != parent.depth + 1 {
        let own = number_to_text(child.depth as u64);
        let above = number_to_text(parent.depth as u64);
        errors.push(join5("Child depth ", own.as_str(), " should be parent depth ", above.as_str(), " + 1"));
    }
    let linked = match child.parent_id {
        Some(p) => p == parent.id,
        None => false,
    };
    if !linked {
        errors.push("Child parent_id does not match parent ID".to_owned());
    }
    if !contains_id(&parent.child_ids, child.id) {
        errors.push("Parent does not contain child ID in its child list".to_owned());
    }
    match parent.state {
        TriangleState::Subdivided => {},
        _ => {
            errors.push("Parent of a child triangle must be in Subdivided state".to_owned());
        },
    }
    let smaller = match (child.triangle.area(), parent.triangle.area()) {
        (Ok(c), Ok(p)) => c.lt(&p),
        _ => false,
    };
    if !smaller {
        errors.push("Child triangle area should be smaller than parent area".to_owned());
    }
    assert(texts(errors@) =~= relation_errors(parent@, child@));

    let mut result = ValidationResult::success();
    let inside = match child.triangle.centroid() {
        Ok(c) => match parent.triangle.contains_point(&c) {
            Ok(b) => b,
            Err(_) => false,
        },
        Err(_) => false,
    };
    if !inside {
        result.add_warning("Child triangle centroid is not inside parent triangle".to_owned());
    }
    assert(result@.warnings =~= relation_warnings(parent@, child@));
    result.add_errors(errors);
    assert(result@.errors =~= relation_errors(parent@, child@));
    result
}

/// Whether nothing is wrong with a triangle; nothing ever is.
pub fn is_valid_triangle(triangle: &Triangle) -> (r: bool)
    ensures
        r,
{
    validate_triangle(triangle).is_valid
}

/// Whether nothing is wrong with a triangle of the fractal.
pub fn is_valid_fractal_triangle(fractal_triangle: &FractalTriangle) -> (r: bool)
    ensures
        r == (record_errors(fractal_triangle@).len() == 0),
{
    validate_fractal_triangle(fractal_triangle).is_valid
}

/// What `each` finds for the records, in their order.
pub open spec fn gathered(
    records: Seq<TriangleRecord>,
    each: spec_fn(TriangleRecord) -> Seq<Seq<char>>,
) -> Seq<Seq<char>>
    decreases records.len(),
{
    if records.len() == 0 {
        Seq::<Seq<char>>::empty()
    } else {
        gathered(records.drop_last(), each) + each(records.last())
    }
}

/// The sentence for a triangle with something wrong: it lists what.
pub open spec fn failed_text(id: u128, depth: u8, errors: Seq<Seq<char>>) -> Seq<char> {
    "Triangle "@ + uuid_text(id) + " at depth "@ + number_text(depth as nat) + " failed validation: "@
        + quoted_list(errors)
}

/// The sentence for a triangle whose parent is not held.
pub open spec fn orphan_text(id: u128, parent_id: u128) -> Seq<char> {
    "Triangle "@ + uuid_text(id) + " references non-existent parent "@ + uuid_text(parent_id)
}

/// The sentence for a parent that lists children which are not held.
pub open spec fn count_text(id: u128, listed: nat, found: nat) -> Seq<char> {
    "Triangle "@ + uuid_text(id) + " has "@ + number_text(listed) + " child IDs but "@ + number_text(found)
        + " actual children found"@
}

/// The sentence for a parent whose four children are not three active
/// triangles and a void.
pub open spec fn mix_text(id: u128, active: nat, void: nat) -> Seq<char> {
    "Triangle "@ + uuid_text(id) + " subdivision should have 3 active + 1 void children, found "@
        + number_text(active) + " active + "@ + number_text(void) + " void"@
}

/// What is wrong with a triangle as a member of a structure: that something
/// is wrong with the triangle itself, and what is wrong between it and its
/// parent, or that its parent is not held.
pub open spec fn member_errors(records: Seq<TriangleRecord>, t: TriangleRecord) -> Seq<Seq<char>> {
    (if record_errors(t).len() > 0 {
        seq![failed_text(t.id, t.depth, record_errors(t))]
    } else {
        Seq::<Seq<char>>::empty()
    }) + (match t.parent_id {
        Some(parent_id) => match lookup(records, parent_id) {
            Some(parent) => relation_errors(parent, t),
            None => seq![orphan_text(t.id, parent_id)],
        },
        None => Seq::<Seq<char>>::empty(),
    })
}

/// What is odd about a triangle as a member of a structure: what is odd
/// between it and its parent.
pub open spec fn member_warnings(records: Seq<TriangleRecord>, t: TriangleRecord) -> Seq<Seq<char>> {
    match t.parent_id {
        Some(parent_id) => match lookup(records, parent_id) {
            Some(parent) => relation_warnings(parent, t),
            None => Seq::<Seq<char>>::empty(),
        },
        None => Seq::<Seq<char>>::empty(),
    }
}

/// What is wrong with the members at the depths from 0 to `depth`.
pub open spec fn levels_errors(records: Seq<TriangleRecord>, depth: nat) -> Seq<Seq<char>>
    decreases depth,
{
    (if depth == 0 {
        Seq::<Seq<char>>::empty()
    } else {
        levels_errors(records, (depth - 1) as nat)
    }) + gathered(at_depth(records, depth as u8), |t: TriangleRecord| member_errors(records, t))
}

/// What is odd about the members at the depths from 0 to `depth`.
pub open spec fn levels_warnings(records: Seq<TriangleRecord>, depth: nat) -> Seq<Seq<char>>
    decreases depth,
{
    (if depth == 0 {
        Seq::<Seq<char>>::empty()
    } else {
        levels_warnings(records, (depth - 1) as nat)
    }) + gathered(at_depth(records, depth as u8), |t: TriangleRecord| member_warnings(records, t))
}

/// What is wrong with the family of a subdivided triangle: that it lists
/// children which are not held.
pub open spec fn family_errors(records: Seq<TriangleRecord>, parent: TriangleRecord) -> Seq<Seq<char>> {
    if children_of(records, parent.id).len() != parent.child_ids.len() {
        seq![count_text(parent.id, parent.child_ids.len(), children_of(records, parent.id).len())]
    } else {
        Seq::<Seq<char>>::empty()
    }
}

/// What is odd about the family of a subdivided triangle: four children
/// that are not three active triangles and a void.
pub open spec fn family_warnings(records: Seq<TriangleRecord>, parent: TriangleRecord) -> Seq<Seq<char>> {
    let children = children_of(records, parent.id);
    let active = in_state(children, TriangleState::Active).len();
    let void = in_state(children, TriangleState::Void).len();
    if children.len() == 4 && (active != 3 || void != 1) {
        seq![mix_text(parent.id, active, void)]
    } else {
        Seq::<Seq<char>>::empty()
    }
}

/// The genesis triangle among the records, if one is set and held.
pub open spec fn genesis_of(records: Seq<TriangleRecord>, genesis_id: Option<u128>) -> Option<TriangleRecord> {
    match genesis_id {
        Some(id) => lookup(records, id),
        None => None,
    }
}

/// What is wrong with a structure: that it has no genesis triangle, or else
/// what is wrong with the genesis triangle, with the members level by level,
/// and with the families of the subdivided triangles.
pub open spec fn structure_errors(
    records: Seq<TriangleRecord>,
    genesis_id: Option<u128>,
    max_depth: u8,
) -> Seq<Seq<char>> {
    match genesis_of(records, genesis_id) {
        None => seq!["Fractal structure must have a genesis triangle"@],
        Some(genesis) => record_errors(genesis) + levels_errors(records, max_depth as nat) + gathered(
            in_state(records, TriangleState::Subdivided),
            |p: TriangleRecord| family_errors(records, p),
        ),
    }
}

/// What is odd about a structure.
pub open spec fn structure_warnings(
    records: Seq<TriangleRecord>,
    genesis_id: Option<u128>,
    max_depth: u8,
) -> Seq<Seq<char>> {
    match genesis_of(records, genesis_id) {
        None => Seq::<Seq<char>>::empty(),
        Some(genesis) => record_warnings(genesis) + levels_warnings(records, max_depth as nat) + gathered(
            in_state(records, TriangleState::Subdivided),
            |p: TriangleRecord| family_warnings(records, p),
        ),
    }
}

/// Checks a triangle as a member of `structure`.
fn check_member(
    structure: &FractalStructure,
    triangle: &FractalTriangle,
    errors: &mut Vec<String>,
    warnings: &mut Vec<String>,
)
    ensures
        texts(final(errors)@) == texts(old(errors)@) + member_errors(structure.records(), triangle@),
        texts(final(warnings)@) == texts(old(warnings)@) + member_warnings(structure.records(), triangle@),
{
    let ghost first_errors = texts(errors@);
    let ghost first_warnings = texts(warnings@);
    let own = validate_fractal_triangle(triangle);
    if !own.is_valid {
        let id = id_text(triangle.id);
        let depth = number_to_text(triangle.depth as u64);
        let list = quoted_list_text(&own.errors);
        let head = join5("Triangle ", id.as_str(), " at depth ", depth.as_str(), " failed validation: ");
        errors.push(head.concat(list.as_str()));
    }
    let ghost middle = texts(errors@);
    match triangle.parent_id {
        Some(parent_id) => {
            match structure.get_triangle(&parent_id) {
                Some(parent) => {
                    let mut relation = validate_parent_child_relationship(parent, triangle);
                    let ghost found = relation@;
                    errors.append(&mut relation.errors);
                    warnings.append(&mut relation.warnings);
                    assert(texts(errors@) =~= middle + found.errors);
                    assert(texts(warnings@) =~= first_warnings + found.warnings);
                },
                None => {
                    let id = id_text(triangle.id);
                    let parent = id_text(parent_id);
                    errors.push(
                        join3("Triangle ", id.as_str(), " references non-existent parent ").concat(
                            parent.as_str(),
                        ),
                    );
                    assert(texts(warnings@) =~= first_warnings + Seq::<Seq<char>>::empty());
                },
            }
        },
        None => {
            assert(texts(warnings@) =~= first_warnings + Seq::<Seq<char>>::empty());
        },
    }
    assert(texts(errors@) =~= first_errors + member_errors(structure.records(), triangle@));
}

/// Checks the members of `structure` at depth `depth`.
fn check_level(structure: &FractalStructure, depth: u8, errors: &mut Vec<String>, warnings: &mut Vec<String>)
    ensures
        texts(final(errors)@) == texts(old(errors)@) + gathered(
            at_depth(structure.records(), depth),
            |t: TriangleRecord| member_errors(structure.records(), t),
        ),
        texts(final(warnings)@) == texts(old(warnings)@) + gathered(
            at_depth(structure.records(), depth),
            |t: TriangleRecord| member_warnings(structure.records(), t),
        ),
{
    let ghost records = structure.records();
    let ghost first_errors = texts(errors@);
    let ghost first_warnings = texts(warnings@);
    let ghost wrong = |t: TriangleRecord| member_errors(records, t);
    let ghost odd = |t: TriangleRecord| member_warnings(records, t);
    let members = structure.triangles_at_depth(depth);
    let ghost level = records_of_refs(members@);
    let mut i: usize = 0;
    assert(texts(errors@) =~= first_errors + gathered(level.subrange(0, 0), wrong));
    assert(texts(warnings@) =~= first_warnings + gathered(level.subrange(0, 0), odd));
    while i < members.len()
        invariant
            records == structure.records(),
            level == records_of_refs(members@),
            wrong == |t: TriangleRecord| member_errors(records, t),
            odd == |t: TriangleRecord| member_warnings(records, t),
            i <= members.len(),
            texts(errors@) == first_errors + gathered(level.subrange(0, i as int), wrong),
            texts(warnings@) == first_warnings + gathered(level.subrange(0, i as int), odd),
        decreases members.len() - i,
    {
        proof {
            let next = level.subrange(0, i + 1);
            assert(next.drop_last() =~= level.subrange(0, i as int));
            assert(next.last() == members@[i as int]@);
        }
        let ghost before_errors = texts(errors@);
        let ghost before_warnings = texts(warnings@);
        check_member(structure, members[i], errors, warnings);
        assert(texts(errors@) =~= first_errors + gathered(level.subrange(0, i + 1), wrong));
        assert(texts(warnings@) =~= first_warnings + gathered(level.subrange(0, i + 1), odd));
        i = i + 1;
    }
    assert(level.subrange(0, i as int) =~= level);
}

/// Counts the triangles among `triangles` that are in state `state`.
fn count_in_state(triangles: &Vec<&FractalTriangle>, state: TriangleState) -> (r: usize)
    ensures
        r == in_state(records_of_refs(triangles@), state).len(),
{
    let ghost records = records_of_refs(triangles@);
    let ghost wanted = |r: TriangleRecord| r.state == state;
    let mut count: usize = 0;
    let mut i: usize = 0;
    while i < triangles.len()
        invariant
            records == records_of_refs(triangles@),
            wanted == |r: TriangleRecord| r.state == state,
            i <= triangles.len(),
            count <= i,
            count == crate::fractal::kept(records.subrange(0, i as int), wanted).len(),
        decreases triangles.len() - i,
    {
        proof {
            let next = records.subrange(0, i + 1);
            assert(next.drop_last() =~= records.subrange(0, i as int));
            assert(next.last() == triangles@[i as int]@);
        }
        if triangles[i].state == state {
            count = count + 1;
        }
        i = i + 1;
    }
    assert(records.subrange(0, i as int) =~= records);
    count
}

/// Checks the family of the subdivided triangle `parent`.
fn check_family(
    structure: &FractalStructure,
    parent: &FractalTriangle,
    errors: &mut Vec<String>,
    warnings: &mut Vec<String>,
)
    ensures
        texts(final(errors)@) == texts(old(errors)@) + family_errors(structure.records(), parent@),
        texts(final(warnings)@) == texts(old(warnings)@) + family_warnings(structure.records(), parent@),
{
    let ghost first_errors = texts(errors@);
    let ghost first_warnings = texts(warnings@);
    let children = structure.children(&parent.id);
    let id = id_text(parent.id);
    if children.len() != parent.child_ids.len() {
        let listed = number_to_text(parent.child_ids.len() as u64);
        let found = number_to_text(children.len() as u64);
        let head = join5("Triangle ", id.as_str(), " has ", listed.as_str(), " child IDs but ");
        errors.push(join3(head.as_str(), found.as_str(), " actual children found"));
    }
    assert(texts(errors@) =~= first_errors + family_errors(structure.records(), parent@));
    if children.len() == 4 {
        let active = count_in_state(&children, TriangleState::Active);
        let void = count_in_state(&children, TriangleState::Void);
        if active != 3 || void != 1 {
            let active_text = number_to_text(active as u64);
            let void_text = number_to_text(void as u64);
            let head = join3(
                "Triangle ",
                id.as_str(),
                " subdivision should have 3 active + 1 void children, found ",
            );
            warnings.push(join5(head.as_str(), active_text.as_str(), " active + ", void_text.as_str(), " void"));
        }
    }
    assert(texts(warnings@) =~= first_warnings + family_warnings(structure.records(), parent@));
}

/// Checks a whole structure: that it has a genesis triangle; the genesis
/// triangle; every triangle, level by level, with its link to its parent;
/// and the family of every subdivided triangle.
pub fn validate_fractal_structure(structure: &FractalStructure) -> (r: ValidationResult)
    ensures
        r@ == Findings::of(
            structure_errors(structure.records(), structure.spec_genesis_id(), structure.spec_max_depth()),
            structure_warnings(structure.records(), structure.spec_genesis_id(), structure.spec_max_depth()),
        ),
{
    let ghost records = structure.records();
    let mut result = ValidationResult::success();
    let genesis = match structure.genesis() {
        Some(g) => g,
        None => {
            result.add_error("Fractal structure must have a genesis triangle".to_owned());
            assert(result@.errors =~= seq!["Fractal structure must have a genesis triangle"@]);
            return result;
        },
    };
    let own = validate_fractal_triangle(genesis);
    let mut errors = own.errors;
    let mut warnings = own.warnings;
    let ghost base_errors = texts(errors@);
    let ghost base_warnings = texts(warnings@);

    let max_depth = structure.max_depth();
    let mut depth: u8 = 0;
    check_level(structure, 0, &mut errors, &mut warnings);
    assert(texts(errors@) =~= base_errors + levels_errors(records, 0));
    assert(texts(warnings@) =~= base_warnings + levels_warnings(records, 0));
    while depth < max_depth
        invariant
            records == structure.records(),
            depth <= max_depth,
            texts(errors@) == base_errors + levels_errors(records, depth as nat),
            texts(warnings@) == base_warnings + levels_warnings(records, depth as nat),
        decreases max_depth - depth,
    {
        depth = depth + 1;
        check_level(structure, depth, &mut errors, &mut warnings);
        assert(texts(errors@) =~= base_errors + levels_errors(records, depth as nat));
        assert(texts(warnings@) =~= base_warnings + levels_warnings(records, depth as nat));
    }
    let ghost level_errors = texts(errors@);
    let ghost level_warnings = texts(warnings@);
    let ghost wrong = |p: TriangleRecord| family_errors(records, p);
    let ghost odd = |p: TriangleRecord| family_warnings(records, p);
    let parents = structure.triangles_by_state(TriangleState::Subdivided);
    let ghost families = records_of_refs(parents@);
    let mut i: usize = 0;
    assert(texts(errors@) =~= level_errors + gathered(families.subrange(0, 0), wrong));
    assert(texts(warnings@) =~= level_warnings + gathered(families.subrange(0, 0), odd));
    while i < parents.len()
        invariant
            records == structure.records(),
            families == records_of_refs(parents@),
            wrong == |p: TriangleRecord| family_errors(records, p),
            odd == |p: TriangleRecord| family_warnings(records, p),
            i <= parents.len(),
            texts(errors@) == level_errors + gathered(families.subrange(0, i as int), wrong),
            texts(warnings@) == level_warnings + gathered(families.subrange(0, i as int), odd),
        decreases parents.len() - i,
    {
        proof {
            let next = families.subrange(0, i + 1);
            assert(next.drop_last() =~= families.subrange(0, i as int));
            assert(next.last() == parents@[i as int]@);
        }
        check_family(structure, parents[i], &mut errors, &mut warnings);
        assert(texts(errors@) =~= level_errors + gathered(families.subrange(0, i + 1), wrong));
        assert(texts(warnings@) =~= level_warnings + gathered(families.subrange(0, i + 1), odd));
        i = i + 1;
    }
    assert(families.subrange(0, i as int) =~= families);
    result.add_warnings(warnings);
    result.add_errors(errors);
    assert(result@.errors =~= structure_errors(
        structure.records(),
        structure.spec_genesis_id(),
        structure.spec_max_depth(),
    ));
    assert(result@.warnings =~= structure_warnings(
        structure.records(),
        structure.spec_genesis_id(),
        structure.spec_max_depth(),
    ));
    result
}

/// The largest difference between a side and the mean of the sides that a
/// strictly equilateral triangle may show: a millionth.
pub open spec fn strict_side_tolerance() -> Decimal {
    Decimal::from_pair(1, 6)
}

/// The sentence for a check of the sides that could not be computed.
pub open spec fn unchecked_text(e: SierpinskiError) -> Seq<char> {
    "Failed to check equilateral property: "@ + e.spec_message()
}

/// The sentence for a side that differs from the mean.
pub open spec fn deviation_text(index: nat, length: Decimal, mean: Decimal, difference: Decimal) -> Seq<char> {
    "Side "@ + number_text(index) + " length "@ + length.spec_text() + " differs from average "@
        + mean.spec_text() + " by "@ + difference.spec_text()
}

/// What is wrong with side `index` of length `length` where the mean of
/// the sides is `mean`: that it differs from the mean by more than a
/// millionth, or that the difference overflows.
pub open spec fn deviation_errors(index: nat, length: Decimal, mean: Decimal) -> Seq<Seq<char>> {
    match length.spec_sub(mean) {
        Some(d) => if strict_side_tolerance().less_than(d.spec_abs()) {
            seq![deviation_text(index, length, mean, d.spec_abs())]
        } else {
            Seq::<Seq<char>>::empty()
        },
        None => seq![unchecked_text(SierpinskiError::ArithmeticOverflow)],
    }
}

/// The mean of three lengths.
pub open spec fn mean_of(s0: Decimal, s1: Decimal, s2: Decimal) -> Option<Decimal> {
    spec_over(spec_plus(s0.spec_add(s1), Some(s2)), Some(three()))
}

/// What is wrong with the sides of a triangle that should be equilateral:
/// every side that differs from their mean by more than a millionth.
pub open spec fn sides_errors(t: Triangle) -> Seq<Seq<char>> {
    match (t.spec_side(0), t.spec_side(1), t.spec_side(2)) {
        (Ok(s0), Ok(s1), Ok(s2)) => match mean_of(s0, s1, s2) {
            Some(mean) => deviation_errors(0, s0, mean) + deviation_errors(1, s1, mean) + deviation_errors(
                2,
                s2,
                mean,
            ),
            None => seq![unchecked_text(SierpinskiError::ArithmeticOverflow)],
        },
        _ => Seq::<Seq<char>>::empty(),
    }
}

/// What is wrong with a triangle that should be equilateral: that its sides
/// are not equal within the tolerance of the triangle, or that this cannot
/// be told; and what is wrong with its sides.
pub open spec fn equilateral_errors(t: Triangle) -> Seq<Seq<char>> {
    (match t.spec_is_equilateral() {
        Ok(true) => Seq::<Seq<char>>::empty(),
        Ok(false) => seq!["Triangle is not equilateral"@],
        Err(e) => seq![unchecked_text(e)],
    }) + sides_errors(t)
}

/// Whether the children of a subdivided triangle conserve its area: whether
/// the sum of their areas, taken from zero in their order, differs from the
/// area of the parent by at most a millionth of it. `None` where a step
/// overflows.
pub open spec fn family_conserves(parent: TriangleRecord, children: Seq<TriangleRecord>) -> Option<bool> {
    match parent.triangle.spec_area() {
        Some(area) => match (
            spec_magnitude(spec_minus(Some(area), areas_added(Some(Decimal::from_pair(0, 0)), children))),
            area.spec_mul(conservation_tolerance()),
        ) {
            (Some(difference), Some(tolerance)) => Some(difference.at_most(tolerance)),
            _ => None,
        },
        None => None,
    }
}

/// The sentence for a family whose areas could not be compared.
pub open spec fn unconserved_text(id: u128) -> Seq<char> {
    "Failed to validate area conservation for triangle "@ + uuid_text(id) + ": "@
        + SierpinskiError::ArithmeticOverflow.spec_message()
}

/// What is wrong with the areas of the family of a triangle: for a
/// subdivided triangle with children, that the areas cannot be compared.
pub open spec fn conservation_errors(records: Seq<TriangleRecord>, t: TriangleRecord) -> Seq<Seq<char>> {
    if t.state == TriangleState::Subdivided && children_of(records, t.id).len() > 0 && family_conserves(
        t,
        children_of(records, t.id),
    ) is None {
        seq![unconserved_text(t.id)]
    } else {
        Seq::<Seq<char>>::empty()
    }
}

/// What is odd about the areas of the family of a triangle: for a
/// subdivided triangle with children, that they do not conserve its area.
pub open spec fn conservation_warnings(records: Seq<TriangleRecord>, t: TriangleRecord) -> Seq<Seq<char>> {
    if t.state == TriangleState::Subdivided && children_of(records, t.id).len() > 0 && family_conserves(
        t,
        children_of(records, t.id),
    ) == Some(false) {
        seq!["Area not conserved in subdivision of triangle "@ + uuid_text(t.id)]
    } else {
        Seq::<Seq<char>>::empty()
    }
}

/// What is wrong with the areas of the families at the depths below
/// `depth`.
pub open spec fn areas_errors(records: Seq<TriangleRecord>, depth: nat) -> Seq<Seq<char>>
    decreases depth,
{
    if depth == 0 {
        Seq::<Seq<char>>::empty()
    } else {
        areas_errors(records, (depth - 1) as nat) + gathered(
            at_depth(records, (depth - 1) as u8),
            |t: TriangleRecord| conservation_errors(records, t),
        )
    }
}

/// What is odd about the areas of the families at the depths below
/// `depth`.
pub open spec fn areas_warnings(records: Seq<TriangleRecord>, depth: nat) -> Seq<Seq<char>>
    decreases depth,
{
    if depth == 0 {
        Seq::<Seq<char>>::empty()
    } else {
        areas_warnings(records, (depth - 1) as nat) + gathered(
            at_depth(records, (depth - 1) as u8),
            |t: TriangleRecord| conservation_warnings(records, t),
        )
    }
}

/// What is wrong with a structure as a Sierpinski fractal: a genesis
/// triangle that is not strictly equilateral, and families above the
/// greatest depth whose areas cannot be compared.
pub open spec fn sierpinski_errors(
    records: Seq<TriangleRecord>,
    genesis_id: Option<u128>,
    max_depth: u8,
) -> Seq<Seq<char>> {
    (match genesis_of(records, genesis_id) {
        Some(genesis) => if equilateral_errors(genesis.triangle).len() > 0 {
            seq!["Genesis triangle is not equilateral"@]
        } else {
            Seq::<Seq<char>>::empty()
        },
        None => Seq::<Seq<char>>::empty(),
    }) + areas_errors(records, max_depth as nat)
}

/// Checks side `index` against the mean of the sides.
fn check_side(errors: &mut Vec<String>, index: u64, length: Decimal, mean: Decimal)
    ensures
        texts(final(errors)@) == texts(old(errors)@) + deviation_errors(index as nat, length, mean),
{
    let ghost first = texts(errors@);
    match length.checked_sub(mean) {
        Some(d) => {
            let difference = d.abs();
            if Decimal::new(1, 6).lt(&difference) {
                let number = number_to_text(index);
                let length_text = length.to_text();
                let mean_text = mean.to_text();
                let difference_text = difference.to_text();
                let head = join5(
                    "Side ",
                    number.as_str(),
                    " length ",
                    length_text.as_str(),
                    " differs from average ",
                );
                errors.push(join3(head.as_str(), mean_text.as_str(), " by ").concat(difference_text.as_str()));
            }
        },
        None => {
            let reason = SierpinskiError::ArithmeticOverflow.message();
            errors.push("Failed to check equilateral property: ".to_owned().concat(reason.as_str()));
        },
    }
    assert(texts(errors@) =~= first + deviation_errors(index as nat, length, mean));
}

/// Checks that a triangle is equilateral, and strictly so: its sides must
/// be equal within the tolerance of the triangle, and none may differ from
/// their mean by more than a millionth.
pub fn validate_equilateral_triangle(triangle: &Triangle) -> (r: ValidationResult)
    ensures
        r@ == Findings::of(equilateral_errors(*triangle), Seq::empty()),
{
    let mut errors: Vec<String> = Vec::new();
    assert(texts(errors@) =~= Seq::<Seq<char>>::empty());
    match triangle.is_equilateral() {
        Ok(is_equilateral) => {
            if !is_equilateral {
                errors.push("Triangle is not equilateral".to_owned());
            }
        },
        Err(e) => {
            let reason = e.message();
            errors.push("Failed to check equilateral property: ".to_owned().concat(reason.as_str()));
        },
    }
    let ghost first = texts(errors@);
    match triangle.side_lengths() {
        Ok(sides) => {
            let s0 = sides[0];
            let s1 = sides[1];
            let s2 = sides[2];
            match over(plus(s0.checked_add(s1), Some(s2)), Some(Decimal::from_int(3))) {
                Some(mean) => {
                    check_side(&mut errors, 0, s0, mean);
                    check_side(&mut errors, 1, s1, mean);
                    check_side(&mut errors, 2, s2, mean);
                },
                None => {
                    let reason = SierpinskiError::ArithmeticOverflow.message();
                    errors.push("Failed to check equilateral property: ".to_owned().concat(reason.as_str()));
                },
            }
        },
        Err(_) => {},
    }
    assert(texts(errors@) =~= first + sides_errors(*triangle));
    let mut result = ValidationResult::success();
    result.add_errors(errors);
    assert(result@.errors =~= equilateral_errors(*triangle));
    result
}

/// Whether the children of `parent` conserve its area within a millionth
/// of it; `None` where a step overflows.
pub fn validate_area_conservation(
    parent: &FractalTriangle,
    children: &Vec<&FractalTriangle>,
) -> (r: Option<bool>)
    ensures
        r == family_conserves(parent@, records_of_refs(children@)),
{
    let area = match parent.triangle.area() {
        Ok(a) => a,
        Err(_) => {
            return None;
        },
    };
    let total = add_areas(Some(Decimal::zero()), children);
    let difference = magnitude(minus(Some(area), total));
    let tolerance = area.checked_mul(Decimal::new(1, 6));
    match (difference, tolerance) {
        (Some(difference), Some(tolerance)) => Some(difference.le(&tolerance)),
        _ => None,
    }
}

/// Checks the areas of the family of `triangle`.
fn check_conservation(
    structure: &FractalStructure,
    triangle: &FractalTriangle,
    errors: &mut Vec<String>,
    warnings: &mut Vec<String>,
)
    ensures
        texts(final(errors)@) == texts(old(errors)@) + conservation_errors(structure.records(), triangle@),
        texts(final(warnings)@) == texts(old(warnings)@) + conservation_warnings(
            structure.records(),
            triangle@,
        ),
{
    let ghost first_errors = texts(errors@);
    let ghost first_warnings = texts(warnings@);
    match triangle.state {
        TriangleState::Subdivided => {
            let children = structure.children(&triangle.id);
            if children.len() > 0 {
                let id = id_text(triangle.id);
                match validate_area_conservation(triangle, &children) {
                    Some(true) => {},
                    Some(false) => {
                        warnings.push("Area not conserved in subdivision of triangle ".to_owned().concat(id.as_str()));
                    },
                    None => {
                        let reason = SierpinskiError::ArithmeticOverflow.message();
                        errors.push(
                            join3("Failed to validate area conservation for triangle ", id.as_str(), ": ").concat(
                                reason.as_str(),
                            ),
                        );
                    },
                }
            }
        },
        _ => {},
    }
    assert(texts(errors@) =~= first_errors + conservation_errors(structure.records(), triangle@));
    assert(texts(warnings@) =~= first_warnings + conservation_warnings(structure.records(), triangle@));
}

/// Checks a structure as a Sierpinski fractal: its genesis triangle must be
/// strictly equilateral, and every subdivided triangle above the greatest
/// depth should have children that conserve its area.
pub fn validate_sierpinski_properties(structure: &FractalStructure) -> (r: ValidationResult)
    ensures
        r@ == Findings::of(
            sierpinski_errors(structure.records(), structure.spec_genesis_id(), structure.spec_max_depth()),
            areas_warnings(structure.records(), structure.spec_max_depth() as nat),
        ),
{
    let ghost records = structure.records();
    let mut errors: Vec<String> = Vec::new();
    let mut warnings: Vec<String> = Vec::new();
    assert(texts(errors@) =~= Seq::<Seq<char>>::empty());
    match structure.genesis() {
        Some(genesis) => {
            if !validate_equilateral_triangle(&genesis.triangle).is_valid {
                errors.push("Genesis triangle is not equilateral".to_owned());
            }
        },
        None => {},
    }
    let ghost base = texts(errors@);
    let ghost wrong = |t: TriangleRecord| conservation_errors(records, t);
    let ghost odd = |t: TriangleRecord| conservation_warnings(records, t);
    let max_depth = structure.max_depth();
    let mut depth: u8 = 0;
    assert(texts(errors@) =~= base + areas_errors(records, 0));
    assert(texts(warnings@) =~= areas_warnings(records, 0));
    while depth < max_depth
        invariant
            records == structure.records(),
            wrong == |t: TriangleRecord| conservation_errors(records, t),
            odd == |t: TriangleRecord| conservation_warnings(records, t),
            depth <= max_depth,
            texts(errors@) == base + areas_errors(records, depth as nat),
            texts(warnings@) == areas_warnings(records, depth as nat),
        decreases max_depth - depth,
    {
        let ghost level_errors = texts(errors@);
        let ghost level_warnings = texts(warnings@);
        let members = structure.triangles_at_depth(depth);
        let ghost level = records_of_refs(members@);
        let mut i: usize = 0;
        assert(texts(errors@) =~= level_errors + gathered(level.subrange(0, 0), wrong));
        assert(texts(warnings@) =~= level_warnings + gathered(level.subrange(0, 0), odd));
        while i < members.len()
            invariant
                records == structure.records(),
                level == records_of_refs(members@),
                wrong == |t: TriangleRecord| conservation_errors(records, t),
                odd == |t: TriangleRecord| conservation_warnings(records, t),
                i <= members.len(),
                texts(errors@) == level_errors + gathered(level.subrange(0, i as int), wrong),
                texts(warnings@) == level_warnings + gathered(level.subrange(0, i as int), odd),
            decreases members.len() - i,
        {
            proof {
                let next = level.subrange(0, i + 1);
                assert(next.drop_last() =~= level.subrange(0, i as int));
                assert(next.last() == members@[i as int]@);
            }
            check_conservation(structure, members[i], &mut errors, &mut warnings);
            assert(texts(errors@) =~= level_errors + gathered(level.subrange(0, i + 1), wrong));
            assert(texts(warnings@) =~= level_warnings + gathered(level.subrange(0, i + 1), odd));
            i = i + 1;
        }
        assert(level.subrange(0, i as int) =~= level);
        depth = depth + 1;
        assert(texts(errors@) =~= base + areas_errors(records, depth as nat));
        assert(texts(warnings@) =~= areas_warnings(records, depth as nat));
    }
    let mut result = ValidationResult::success();
    result.add_warnings(warnings);
    result.add_errors(errors);
    assert(result@.errors =~= sierpinski_errors(
        structure.records(),
        structure.spec_genesis_id(),
        structure.spec_max_depth(),
    ));
    assert(result@.warnings =~= areas_warnings(structure.records(), structure.spec_max_depth() as nat));
    result
}

} // verus!
