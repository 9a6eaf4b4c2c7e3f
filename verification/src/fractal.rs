//! Triangles as members of the fractal, and the arena that owns them.
//!
//! A [`FractalTriangle`] is a triangle with its place in the fractal: an
//! identifier, a state, an address and a depth, the identifier of its parent
//! and those of its children. A [`FractalStructure`] owns the triangles of
//! one fractal, keyed by identifier. Triangles refer to each other by
//! identifier only, so the arena holds no cycles. Triangles are never taken
//! out of it.

use vstd::prelude::*;
use vstd::string::*;
use crate::address::TriangleAddress;
use crate::clock::unix_time_now;
use crate::decimal::{spec_plus, spec_times, Decimal};
use crate::errors::{SierpinskiError, SierpinskiResult};
use crate::geometry::{settle, settled};
use crate::hashing::{append_bytes, append_text, blake3_hex, digest_hex, is_digest_text, text_bytes};
use crate::ident::{big_endian_bytes, id_bytes, random_id};
use crate::state::{legal_transition, TriangleState};
use crate::triangle::Triangle;
use crate::MAX_SUBDIVISION_DEPTH;

verus! {

/// A triangle of the fractal as a mathematical value.
pub struct TriangleRecord {
    pub id: u128,
    pub triangle: Triangle,
    pub state: TriangleState,
    pub address: Seq<u8>,
    pub depth: u8,
    pub parent_id: Option<u128>,
    pub child_ids: Seq<u128>,
    pub created_at: u64,
    pub updated_at: u64,
}

/// A triangle of the fractal.
#[derive(Debug, PartialEq)]
pub struct FractalTriangle {
    /// The identifier of this triangle.
    pub id: u128,
    /// The triangle itself.
    pub triangle: Triangle,
    /// Where the triangle stands in its life cycle.
    pub state: TriangleState,
    /// The address of the triangle in the fractal.
    pub address: TriangleAddress,
    /// The level of the triangle; the genesis triangle has level 0.
    pub depth: u8,
    /// The identifier of the parent; the genesis triangle has none.
    pub parent_id: Option<u128>,
    /// The identifiers of the children, none of them twice.
    pub child_ids: Vec<u128>,
    /// When the triangle was made, in seconds since the Unix epoch.
    pub created_at: u64,
    /// When the state last changed, in seconds since the Unix epoch.
    pub updated_at: u64,
}

impl View for FractalTriangle {
    type V = TriangleRecord;

    open spec fn view(&self) -> TriangleRecord {
        TriangleRecord {
            id: self.id,
            triangle: self.triangle,
            state: self.state,
            address: self.address@,
            depth: self.depth,
            parent_id: self.parent_id,
            child_ids: self.child_ids@,
            created_at: self.created_at,
            updated_at: self.updated_at,
        }
    }
}

impl Clone for FractalTriangle {
    fn clone(&self) -> (r: FractalTriangle)
        ensures
            r@ == self@,
    {
        let child_ids = self.child_ids.clone();
        assert(child_ids@ =~= self.child_ids@);
        FractalTriangle {
            id: self.id,
            triangle: self.triangle,
            state: self.state,
            address: self.address.clone(),
            depth: self.depth,
            parent_id: self.parent_id,
            child_ids,
            created_at: self.created_at,
            updated_at: self.updated_at,
        }
    }
}

impl TriangleRecord {
    /// The record of a triangle as it is when made: without parent and
    /// children, and last changed when it was made.
    pub open spec fn fresh(
        id: u128,
        now: u64,
        triangle: Triangle,
        state: TriangleState,
        address: Seq<u8>,
        depth: u8,
    ) -> TriangleRecord {
        TriangleRecord {
            id,
            triangle,
            state,
            address,
            depth,
            parent_id: None,
            child_ids: Seq::empty(),
            created_at: now,
            updated_at: now,
        }
    }

    /// The record with `child_id` among its children: added at the end where
    /// it was not yet there.
    pub open spec fn with_child(self, child_id: u128) -> TriangleRecord {
        if self.child_ids.contains(child_id) {
            self
        } else {
            TriangleRecord { child_ids: self.child_ids.push(child_id), ..self }
        }
    }

    /// Whether the triangle may be subdivided: its state allows it, and it
    /// is above the deepest level.
    pub open spec fn can_subdivide(self) -> bool {
        self.state.spec_can_subdivide() && self.depth < MAX_SUBDIVISION_DEPTH
    }

    /// Whether the triangle counts towards the area in use: whether it is
    /// active or the genesis triangle.
    pub open spec fn in_use(self) -> bool {
        self.state == TriangleState::Active || self.state == TriangleState::Genesis
    }

    /// The bytes that the fingerprint is the hash of: the identifier, the
    /// fingerprint of the triangle, and the depth.
    pub open spec fn hash_input(self) -> Seq<u8> {
        big_endian_bytes(self.id) + text_bytes(self.triangle.spec_hash()) + seq![self.depth]
    }

    /// The fingerprint.
    pub open spec fn spec_hash(self) -> Seq<char> {
        blake3_hex(self.hash_input())
    }
}

/// Three quarters: the share of a triangle's area that its three children
/// cover together.
pub open spec fn three_quarters() -> Option<Decimal> {
    Decimal::from_pair(3, 0).spec_div(Decimal::from_pair(4, 0))
}

/// Three quarters to the power `depth`, multiplied out from one.
pub open spec fn spec_area_ratio(depth: nat) -> Option<Decimal>
    decreases depth,
{
    if depth == 0 {
        Some(Decimal::from_pair(1, 0))
    } else {
        spec_times(spec_area_ratio((depth - 1) as nat), three_quarters())
    }
}

impl FractalTriangle {
    /// A triangle of the fractal with a fresh identifier, made now. It has
    /// no parent and no children.
    pub fn new(
        triangle: Triangle,
        state: TriangleState,
        address: TriangleAddress,
        depth: u8,
    ) -> (r: FractalTriangle)
        ensures
            r@ == TriangleRecord::fresh(r.id, r.created_at, triangle, state, address@, depth),
    {
        FractalTriangle::with_identity(random_id(), unix_time_now(), triangle, state, address, depth)
    }

    /// A triangle of the fractal with the given identifier, made at `now`.
    pub fn with_identity(
        id: u128,
        now: u64,
        triangle: Triangle,
        state: TriangleState,
        address: TriangleAddress,
        depth: u8,
    ) -> (r: FractalTriangle)
        ensures
            r@ == TriangleRecord::fresh(id, now, triangle, state, address@, depth),
    {
        FractalTriangle {
            id,
            triangle,
            state,
            address,
            depth,
            parent_id: None,
            child_ids: Vec::new(),
            created_at: now,
            updated_at: now,
        }
    }

    /// The genesis triangle of a fractal: in state `Genesis`, at the genesis
    /// address, at depth 0.
    pub fn genesis(triangle: Triangle) -> (r: FractalTriangle)
        ensures
            r@ == TriangleRecord::fresh(
                r.id,
                r.created_at,
                triangle,
                TriangleState::Genesis,
                Seq::<u8>::empty(),
                0,
            ),
    {
        FractalTriangle::new(triangle, TriangleState::Genesis, TriangleAddress::genesis(), 0)
    }

    /// A child of `parent`: an active triangle one level below it, at the
    /// parent's address extended by `child_index`.
    ///
    /// Fails with `MaxDepthExceeded` where the parent is at the deepest
    /// level, and with `AddressComponentOutOfRange` where `child_index` is
    /// above 3.
    pub fn child(
        triangle: Triangle,
        parent: &FractalTriangle,
        child_index: u8,
    ) -> (r: SierpinskiResult<FractalTriangle>)
        ensures
            parent.depth >= MAX_SUBDIVISION_DEPTH ==> r == Err::<FractalTriangle, SierpinskiError>(
                SierpinskiError::MaxDepthExceeded { max_depth: MAX_SUBDIVISION_DEPTH },
            ),
            parent.depth < MAX_SUBDIVISION_DEPTH && child_index > 3 ==> r == Err::<
                FractalTriangle,
                SierpinskiError,
            >(SierpinskiError::AddressComponentOutOfRange { component: child_index }),
            parent.depth < MAX_SUBDIVISION_DEPTH && child_index <= 3 ==> (r matches Ok(c) && c@ == (
            TriangleRecord {
                parent_id: Some(parent.id),
                ..TriangleRecord::fresh(
                    c.id,
                    c.created_at,
                    triangle,
                    TriangleState::Active,
                    parent.address@.push(child_index),
                    (parent.depth + 1) as u8,
                )
            })),
    {
        FractalTriangle::child_in_state(triangle, parent, child_index, TriangleState::Active)
    }

    /// A triangle one level below `parent`, born in `state`, at the parent's
    /// address extended by `child_index`. Fails as [`FractalTriangle::child`]
    /// does.
    pub fn child_in_state(
        triangle: Triangle,
        parent: &FractalTriangle,
        child_index: u8,
        state: TriangleState,
    ) -> (r: SierpinskiResult<FractalTriangle>)
        ensures
            parent.depth >= MAX_SUBDIVISION_DEPTH ==> r == Err::<FractalTriangle, SierpinskiError>(
                SierpinskiError::MaxDepthExceeded { max_depth: MAX_SUBDIVISION_DEPTH },
            ),
            parent.depth < MAX_SUBDIVISION_DEPTH && child_index > 3 ==> r == Err::<
                FractalTriangle,
                SierpinskiError,
            >(SierpinskiError::AddressComponentOutOfRange { component: child_index }),
            parent.depth < MAX_SUBDIVISION_DEPTH && child_index <= 3 ==> (r matches Ok(c) && c@ == (
            TriangleRecord {
                parent_id: Some(parent.id),
                ..TriangleRecord::fresh(
                    c.id,
                    c.created_at,
                    triangle,
                    state,
                    parent.address@.push(child_index),
                    (parent.depth + 1) as u8,
                )
            })),
    {
        FractalTriangle::child_with_identity(random_id(), unix_time_now(), triangle, parent, child_index, state)
    }

    /// The child that [`FractalTriangle::child_in_state`] makes, with the
    /// given identifier, made at `now`.
    pub fn child_with_identity(
        id: u128,
        now: u64,
        triangle: Triangle,
        parent: &FractalTriangle,
        child_index: u8,
        state: TriangleState,
    ) -> (r: SierpinskiResult<FractalTriangle>)
        ensures
            parent.depth >= MAX_SUBDIVISION_DEPTH ==> r == Err::<FractalTriangle, SierpinskiError>(
                SierpinskiError::MaxDepthExceeded { max_depth: MAX_SUBDIVISION_DEPTH },
            ),
            parent.depth < MAX_SUBDIVISION_DEPTH && child_index > 3 ==> r == Err::<
                FractalTriangle,
                SierpinskiError,
            >(SierpinskiError::AddressComponentOutOfRange { component: child_index }),
            parent.depth < MAX_SUBDIVISION_DEPTH && child_index <= 3 ==> (r matches Ok(c) && c@ == (
            TriangleRecord {
                parent_id: Some(parent.id),
                ..TriangleRecord::fresh(
                    id,
                    now,
                    triangle,
                    state,
                    parent.address@.push(child_index),
                    (parent.depth + 1) as u8,
                )
            })),
    {
        if parent.depth >= MAX_SUBDIVISION_DEPTH {
            return Err(SierpinskiError::MaxDepthExceeded { max_depth: MAX_SUBDIVISION_DEPTH });
        }
        let address = parent.address.child(child_index)?;
        let mut child = FractalTriangle::with_identity(id, now, triangle, state, address, parent.depth + 1);
        child.parent_id = Some(parent.id);
        Ok(child)
    }

    /// Moves the triangle to `new_state`, where the life cycle allows it,
    /// and notes the time of the change.
    ///
    /// Fails with `StateTransitionError`, which names both states, where it
    /// does not; the triangle is then left as it was.
    pub fn change_state(&mut self, new_state: TriangleState) -> (r: SierpinskiResult<()>)
        ensures
            legal_transition(old(self).state, new_state) ==> r is Ok && final(self)@ == (TriangleRecord {
                state: new_state,
                updated_at: final(self).updated_at,
                ..old(self)@
            }),
            !legal_transition(old(self).state, new_state) ==> final(self)@ == old(self)@ && (r matches Err(
                SierpinskiError::StateTransitionError { from, to },
            ) && from@ == old(self).state.spec_name() && to@ == new_state.spec_name()),
    {
        self.change_state_at(unix_time_now(), new_state)
    }

    /// Moves the triangle to `new_state` as
    /// [`FractalTriangle::change_state`] does, with `now` as the reading of
    /// the clock.
    pub fn change_state_at(&mut self, now: u64, new_state: TriangleState) -> (r: SierpinskiResult<()>)
        ensures
            legal_transition(old(self).state, new_state) ==> r is Ok && final(self)@ == (TriangleRecord {
                state: new_state,
                updated_at: now,
                ..old(self)@
            }),
            !legal_transition(old(self).state, new_state) ==> final(self)@ == old(self)@ && (r matches Err(
                SierpinskiError::StateTransitionError { from, to },
            ) && from@ == old(self).state.spec_name() && to@ == new_state.spec_name()),
    {
        if !self.state.can_transition_to(new_state) {
            return Err(
                SierpinskiError::StateTransitionError {
                    from: self.state.name().to_owned(),
                    to: new_state.name().to_owned(),
                },
            );
        }
        self.state = new_state;
        self.updated_at = now;
        Ok(())
    }

    /// Records `child_id` as a child, unless it is recorded already.
    pub fn add_child(&mut self, child_id: u128)
        ensures
            final(self)@ == old(self)@.with_child(child_id),
    {
        if !contains_id(&self.child_ids, child_id) {
            self.child_ids.push(child_id);
        }
    }

    /// Whether any child is recorded.
    pub fn has_children(&self) -> (r: bool)
        ensures
            r == (self@.child_ids.len() > 0),
    {
        self.child_ids.len() > 0
    }

    /// Whether the triangle may be subdivided: whether it is in state
    /// `Genesis` or `Active` and above the deepest level.
    pub fn can_subdivide(&self) -> (r: bool)
        ensures
            r == self@.can_subdivide(),
    {
        self.state.can_subdivide() && self.depth < MAX_SUBDIVISION_DEPTH
    }

    /// The area of the triangle, which is positive.
    pub fn area(&self) -> (r: SierpinskiResult<Decimal>)
        ensures
            r matches Ok(area) && Some(area) == self.triangle.spec_area() && area.positive(),
    {
        self.triangle.area()
    }

    /// Whether the triangle is at the deepest level.
    pub fn is_at_max_depth(&self) -> (r: bool)
        ensures
            r == (self.depth >= MAX_SUBDIVISION_DEPTH),
    {
        self.depth >= MAX_SUBDIVISION_DEPTH
    }

    /// The generation of the triangle, which is its depth.
    pub fn generation(&self) -> (r: u8)
        ensures
            r == self.depth,
    {
        self.depth
    }

    /// The share of the genesis area that the triangles of this depth cover
    /// together: three quarters to the power of the depth.
    ///
    /// Fails with `ArithmeticOverflow` where a product overflows.
    pub fn area_ratio_to_genesis(&self) -> (r: SierpinskiResult<Decimal>)
        ensures
            r == settled(spec_area_ratio(self.depth as nat)),
    {
        let three_fourths = Decimal::from_int(3).checked_div(Decimal::from_int(4));
        let mut ratio = Some(Decimal::one());
        let mut level: u8 = 0;
        while level < self.depth
            invariant
                level <= self.depth,
                three_fourths == three_quarters(),
                ratio == spec_area_ratio(level as nat),
            decreases self.depth - level,
        {
            ratio = crate::decimal::times(ratio, three_fourths);
            level = level + 1;
        }
        settle(ratio)
    }

    /// A fingerprint of the triangle: the hash of its identifier, of the
    /// fingerprint of its geometry, and of its depth.
    pub fn hash(&self) -> (r: String)
        ensures
            r@ == self@.spec_hash(),
            is_digest_text(r@),
    {
        let mut buffer = id_bytes(self.id);
        let geometry = self.triangle.hash();
        append_text(&mut buffer, geometry.as_str());
        buffer.push(self.depth);
        assert(buffer@ =~= self@.hash_input());
        digest_hex(buffer.as_slice())
    }
}

/// Whether `ids` holds `id`.
pub fn contains_id(ids: &Vec<u128>, id: u128) -> (r: bool)
    ensures
        r == ids@.contains(id),
{
    let mut i: usize = 0;
    while i < ids.len()
        invariant
            i <= ids.len(),
            forall|k: int| 0 <= k < i ==> ids@[k] != id,
        decreases ids.len() - i,
    {
        if ids[i] == id {
            return true;
        }
        i = i + 1;
    }
    false
}

/// The position of the first record with identifier `id`, or the number of
/// records where there is none.
pub open spec fn position(records: Seq<TriangleRecord>, id: u128) -> int
    decreases records.len(),
{
    if records.len() == 0 {
        0
    } else if records[0].id == id {
        0
    } else {
        1 + position(records.drop_first(), id)
    }
}

/// The record with identifier `id`, if there is one.
pub open spec fn lookup(records: Seq<TriangleRecord>, id: u128) -> Option<TriangleRecord> {
    if 0 <= position(records, id) < records.len() {
        Some(records[position(records, id)])
    } else {
        None
    }
}

/// Whether no identifier occurs twice.
pub open spec fn distinct(records: Seq<TriangleRecord>) -> bool {
    forall|i: int, j: int| 0 <= i < j < records.len() ==> records[i].id != records[j].id
}

/// The records with `record` put in: in the place of the one with the same
/// identifier, or at the end where there is none.
pub open spec fn upsert(records: Seq<TriangleRecord>, record: TriangleRecord) -> Seq<TriangleRecord> {
    if 0 <= position(records, record.id) < records.len() {
        records.update(position(records, record.id), record)
    } else {
        records.push(record)
    }
}

/// The records after `child_id` has been noted with its parent: where
/// `parent_id` names a record, that record gains the child.
pub open spec fn note_child(
    records: Seq<TriangleRecord>,
    parent_id: Option<u128>,
    child_id: u128,
) -> Seq<TriangleRecord> {
    match parent_id {
        Some(p) => if 0 <= position(records, p) < records.len() {
            records.update(position(records, p), records[position(records, p)].with_child(child_id))
        } else {
            records
        },
        None => records,
    }
}

/// The records after a triangle has been added: its parent, where it is
/// among them, gains it as a child, and then the triangle is put in.
pub open spec fn added(records: Seq<TriangleRecord>, record: TriangleRecord) -> Seq<TriangleRecord> {
    upsert(note_child(records, record.parent_id, record.id), record)
}

/// Whether `e` is the error for a transition from `from` to `to` that is
/// not legal: the `StateTransitionError` that names both states.
pub open spec fn is_refusal(e: SierpinskiError, from: TriangleState, to: TriangleState) -> bool {
    e matches SierpinskiError::StateTransitionError { from: left, to: reached } && left@ == from.spec_name()
        && reached@ == to.spec_name()
}

/// The records after a change of the state of the record with identifier
/// `id` to `new_state` at the time `now`. Where there is such a record and
/// the transition is legal, the record takes the new state, and `now` as
/// the time of its last change. Where not, nothing changes.
pub open spec fn with_state(
    records: Seq<TriangleRecord>,
    id: u128,
    new_state: TriangleState,
    now: u64,
) -> Seq<TriangleRecord> {
    match lookup(records, id) {
        None => records,
        Some(t) => if legal_transition(t.state, new_state) {
            records.update(position(records, id), (TriangleRecord { state: new_state, updated_at: now, ..t }))
        } else {
            records
        },
    }
}

/// Whether `r` is the answer to a change of the state of the record with
/// identifier `id` to `new_state`: `false` where there is no such record,
/// `true` where the transition is legal, and the error of [`is_refusal`]
/// where it is not.
pub open spec fn state_answer(
    records: Seq<TriangleRecord>,
    id: u128,
    new_state: TriangleState,
    r: SierpinskiResult<bool>,
) -> bool {
    match lookup(records, id) {
        None => r == Ok::<bool, SierpinskiError>(false),
        Some(t) => if legal_transition(t.state, new_state) {
            r == Ok::<bool, SierpinskiError>(true)
        } else {
            r matches Err(e) && is_refusal(e, t.state, new_state)
        },
    }
}

/// The records that meet `wanted`, in their order.
pub open spec fn kept(
    records: Seq<TriangleRecord>,
    wanted: spec_fn(TriangleRecord) -> bool,
) -> Seq<TriangleRecord>
    decreases records.len(),
{
    if records.len() == 0 {
        Seq::<TriangleRecord>::empty()
    } else if wanted(records.last()) {
        kept(records.drop_last(), wanted).push(records.last())
    } else {
        kept(records.drop_last(), wanted)
    }
}

/// The records at depth `depth`, in their order.
pub open spec fn at_depth(records: Seq<TriangleRecord>, depth: u8) -> Seq<TriangleRecord> {
    kept(records, |r: TriangleRecord| r.depth == depth)
}

/// The records in state `state`, in their order.
pub open spec fn in_state(records: Seq<TriangleRecord>, state: TriangleState) -> Seq<TriangleRecord> {
    kept(records, |r: TriangleRecord| r.state == state)
}

/// The number of records that are not voids.
pub open spec fn count_solid(records: Seq<TriangleRecord>) -> nat {
    kept(records, |r: TriangleRecord| r.state != TriangleState::Void).len()
}

/// The records that `ids` name, in the order of `ids`; an identifier that
/// names none is passed over.
pub open spec fn resolved(records: Seq<TriangleRecord>, ids: Seq<u128>) -> Seq<TriangleRecord>
    decreases ids.len(),
{
    if ids.len() == 0 {
        Seq::<TriangleRecord>::empty()
    } else {
        match lookup(records, ids.last()) {
            Some(r) => resolved(records, ids.drop_last()).push(r),
            None => resolved(records, ids.drop_last()),
        }
    }
}

/// The children of the record with identifier `parent_id`: the records its
/// child identifiers name. None where there is no such record.
pub open spec fn children_of(records: Seq<TriangleRecord>, parent_id: u128) -> Seq<TriangleRecord> {
    match lookup(records, parent_id) {
        Some(parent) => resolved(records, parent.child_ids),
        None => Seq::<TriangleRecord>::empty(),
    }
}

/// The areas of the records in use, added up in their order, from zero.
pub open spec fn area_in_use(records: Seq<TriangleRecord>) -> Option<Decimal>
    decreases records.len(),
{
    if records.len() == 0 {
        Some(Decimal::from_pair(0, 0))
    } else if records.last().in_use() {
        spec_plus(area_in_use(records.drop_last()), records.last().triangle.spec_area())
    } else {
        area_in_use(records.drop_last())
    }
}

/// The greatest depth among the records, and at least `floor`.
pub open spec fn deepest(records: Seq<TriangleRecord>, floor: u8) -> u8
    decreases records.len(),
{
    if records.len() == 0 {
        floor
    } else if records.last().depth > deepest(records.drop_last(), floor) {
        records.last().depth
    } else {
        deepest(records.drop_last(), floor)
    }
}

/// The records of a sequence of triangles.
pub open spec fn records_of(triangles: Seq<FractalTriangle>) -> Seq<TriangleRecord> {
    triangles.map_values(|t: FractalTriangle| t@)
}

/// The records of a sequence of borrowed triangles.
pub open spec fn records_of_refs(triangles: Seq<&FractalTriangle>) -> Seq<TriangleRecord> {
    triangles.map_values(|t: &FractalTriangle| t@)
}

/// The triangles of one fractal, each under its identifier.
#[derive(Debug)]
pub struct FractalStructure {
    triangles: Vec<FractalTriangle>,
    genesis_id: Option<u128>,
    max_depth: u8,
}

impl Default for FractalStructure {
    /// A structure without triangles.
    fn default() -> (r: FractalStructure)
        ensures
            r.records() == Seq::<TriangleRecord>::empty(),
            r.spec_genesis_id() is None,
            r.spec_max_depth() == 0,
    {
        FractalStructure::new()
    }
}

impl FractalStructure {
    #[verifier::type_invariant]
    spec fn one_triangle_per_id(self) -> bool {
        distinct(records_of(self.triangles@))
    }

    /// The triangles held, in the order in which their identifiers were
    /// first put in. No identifier occurs twice.
    pub closed spec fn records(self) -> Seq<TriangleRecord> {
        records_of(self.triangles@)
    }

    /// The identifier of the genesis triangle, once one has been set.
    pub closed spec fn spec_genesis_id(self) -> Option<u128> {
        self.genesis_id
    }

    /// The greatest depth among the triangles that were added.
    pub closed spec fn spec_max_depth(self) -> u8 {
        self.max_depth
    }

    /// A structure without triangles.
    pub fn new() -> (r: FractalStructure)
        ensures
            r.records() == Seq::<TriangleRecord>::empty(),
            r.spec_genesis_id() is None,
            r.spec_max_depth() == 0,
    {
        let r = FractalStructure { triangles: Vec::new(), genesis_id: None, max_depth: 0 };
        assert(r.records() =~= Seq::<TriangleRecord>::empty());
        r
    }

    /// The structure that holds `triangles` in their order, with the given
    /// genesis identifier and greatest depth.
    ///
    /// Fails with `HierarchyError` where two of the triangles have the same
    /// identifier.
    pub fn from_parts(
        triangles: Vec<FractalTriangle>,
        genesis_id: Option<u128>,
        max_depth: u8,
    ) -> (r: SierpinskiResult<FractalStructure>)
        ensures
            distinct(records_of(triangles@)) ==> (r matches Ok(s) && s.records() == records_of(triangles@)
                && s.spec_genesis_id() == genesis_id && s.spec_max_depth() == max_depth),
            !distinct(records_of(triangles@)) ==> (r matches Err(SierpinskiError::HierarchyError { reason })
                && reason@ == "Two triangles share an identifier"@),
    {
        let ghost records = records_of(triangles@);
        let mut i: usize = 0;
        while i < triangles.len()
            invariant
                records == records_of(triangles@),
                i <= triangles.len(),
                forall|a: int, b: int| 0 <= a < b < i ==> records[a].id != records[b].id,
            decreases triangles.len() - i,
        {
            let mut j: usize = 0;
            while j < i
                invariant
                    records == records_of(triangles@),
                    j <= i < triangles.len(),
                    forall|a: int| 0 <= a < j ==> records[a].id != records[i as int].id,
                decreases i - j,
            {
                if triangles[j].id == triangles[i].id {
                    assert(records[j as int].id == records[i as int].id);
                    return Err(
                        SierpinskiError::HierarchyError { reason: "Two triangles share an identifier".to_owned() },
                    );
                }
                j = j + 1;
            }
            i = i + 1;
        }
        Ok(FractalStructure { triangles, genesis_id, max_depth })
    }

    /// The identifier of the genesis triangle, once one has been set.
    pub fn genesis_id(&self) -> (r: Option<u128>)
        ensures
            r == self.spec_genesis_id(),
    {
        self.genesis_id
    }

    /// The position of the triangle with identifier `id`, or the number of
    /// triangles where there is none.
    fn find(&self, id: u128) -> (i: usize)
        ensures
            i == position(self.records(), id),
            i <= self.records().len(),
            i < self.records().len() ==> self.records()[i as int].id == id,
            i == self.records().len() ==> forall|k: int|
                0 <= k < self.records().len() ==> self.records()[k].id != id,
    {
        let ghost records = self.records();
        let mut i: usize = 0;
        assert(records.skip(0) =~= records);
        while i < self.triangles.len()
            invariant
                records == self.records(),
                i <= self.triangles.len(),
                self.triangles@.len() == records.len(),
                position(records, id) == i + position(records.skip(i as int), id),
                forall|k: int| 0 <= k < i ==> records[k].id != id,
            decreases self.triangles.len() - i,
        {
            assert(records.skip(i as int)[0] == records[i as int]);
            if self.triangles[i].id == id {
                return i;
            }
            assert(records.skip(i as int).drop_first() =~= records.skip(i + 1));
            i = i + 1;
        }
        i
    }

    /// Puts `triangle` in: in the place of the one with the same identifier,
    /// or at the end.
    fn put(&mut self, triangle: FractalTriangle)
        ensures
            final(self).records() == upsert(old(self).records(), triangle@),
            final(self).genesis_id == old(self).genesis_id,
            final(self).max_depth == old(self).max_depth,
    {
        proof {
            use_type_invariant(&*self);
        }
        let ghost before = self.records();
        let i = self.find(triangle.id);
        proof {
            lemma_upsert_distinct(before, triangle@);
        }
        if i < self.triangles.len() {
            let ghost expected = before.update(i as int, triangle@);
            let mut triangles: Vec<FractalTriangle> = Vec::new();
            std::mem::swap(&mut triangles, &mut self.triangles);
            triangles.set(i, triangle);
            assert(records_of(triangles@) =~= expected);
            self.triangles = triangles;
        } else {
            let ghost expected = before.push(triangle@);
            let mut triangles: Vec<FractalTriangle> = Vec::new();
            std::mem::swap(&mut triangles, &mut self.triangles);
            triangles.push(triangle);
            assert(records_of(triangles@) =~= expected);
            self.triangles = triangles;
        }
    }

    /// Makes `triangle` the genesis triangle of the structure and puts it
    /// in.
    ///
    /// Fails with `ValidationError` where the triangle is not in state
    /// `Genesis`; the structure is then left as it was.
    pub fn set_genesis(&mut self, triangle: FractalTriangle) -> (r: SierpinskiResult<()>)
        ensures
            final(self).spec_max_depth() == old(self).spec_max_depth(),
            triangle.state == TriangleState::Genesis ==> r is Ok && final(self).records() == upsert(
                old(self).records(),
                triangle@,
            ) && final(self).spec_genesis_id() == Some(triangle.id),
            triangle.state != TriangleState::Genesis ==> final(self).records() == old(self).records()
                && final(self).spec_genesis_id() == old(self).spec_genesis_id() && (r matches Err(
                SierpinskiError::ValidationError { message },
            ) && message@ == "Genesis triangle must have Genesis state"@),
    {
        match triangle.state {
            TriangleState::Genesis => {},
            _ => {
                return Err(SierpinskiError::validation("Genesis triangle must have Genesis state"));
            },
        }
        proof {
            use_type_invariant(&*self);
        }
        let id = triangle.id;
        self.put(triangle);
        proof {
            use_type_invariant(&*self);
        }
        self.genesis_id = Some(id);
        Ok(())
    }

    /// Adds `triangle`: the greatest depth follows, the parent of the
    /// triangle, where it is held, gains it as a child, and the triangle is
    /// put in under its identifier, in the place of an earlier one with the
    /// same identifier or at the end.
    pub fn add_triangle(&mut self, triangle: FractalTriangle) -> (r: SierpinskiResult<()>)
        ensures
            r is Ok,
            final(self).records() == added(old(self).records(), triangle@),
            final(self).spec_genesis_id() == old(self).spec_genesis_id(),
            final(self).spec_max_depth() == if triangle.depth > old(self).spec_max_depth() {
                triangle.depth
            } else {
                old(self).spec_max_depth()
            },
    {
        proof {
            use_type_invariant(&*self);
        }
        if triangle.depth > self.max_depth {
            self.max_depth = triangle.depth;
        }
        match triangle.parent_id {
            Some(parent_id) => {
                let p = self.find(parent_id);
                if p < self.triangles.len() {
                    let mut parent = self.triangles[p].clone();
                    parent.add_child(triangle.id);
                    proof {
                        lemma_position_of_present(self.records(), p as int);
                    }
                    self.put(parent);
                }
            },
            None => {},
        }
        self.put(triangle);
        Ok(())
    }

    /// Moves the triangle with identifier `id` to `new_state` and tells
    /// whether there was such a triangle.
    ///
    /// Fails with `StateTransitionError` where the life cycle does not allow
    /// the move; the structure is then left as it was.
    pub fn change_state(&mut self, id: &u128, new_state: TriangleState) -> (r: SierpinskiResult<bool>)
        ensures
            final(self).spec_genesis_id() == old(self).spec_genesis_id(),
            final(self).spec_max_depth() == old(self).spec_max_depth(),
            final(self).records().len() == old(self).records().len(),
            match lookup(old(self).records(), *id) {
                None => r == Ok::<bool, SierpinskiError>(false) && final(self).records() == old(self).records(),
                Some(t) => if legal_transition(t.state, new_state) {
                    &&& r == Ok::<bool, SierpinskiError>(true)
                    &&& final(self).records() == old(self).records().update(
                        position(old(self).records(), *id),
                        (TriangleRecord {
                            state: new_state,
                            updated_at: final(self).records()[position(old(self).records(), *id)].updated_at,
                            ..t
                        }),
                    )
                } else {
                    &&& r matches Err(SierpinskiError::StateTransitionError { from, to }) && from@
                        == t.state.spec_name() && to@ == new_state.spec_name()
                    &&& final(self).records() == old(self).records()
                },
            },
    {
        self.change_state_at(id, new_state, unix_time_now())
    }

    /// Moves the triangle with identifier `id` to `new_state` as
    /// [`FractalStructure::change_state`] does, with `now` as the reading of
    /// the clock.
    pub fn change_state_at(&mut self, id: &u128, new_state: TriangleState, now: u64) -> (r: SierpinskiResult<bool>)
        ensures
            final(self).spec_genesis_id() == old(self).spec_genesis_id(),
            final(self).spec_max_depth() == old(self).spec_max_depth(),
            final(self).records() == with_state(old(self).records(), *id, new_state, now),
            final(self).records().len() == old(self).records().len(),
            state_answer(old(self).records(), *id, new_state, r),
    {
        proof {
            use_type_invariant(&*self);
            lemma_position_range(self.records(), *id);
        }
        let i = self.find(*id);
        if i >= self.triangles.len() {
            return Ok(false);
        }
        let mut triangle = self.triangles[i].clone();
        match triangle.change_state_at(now, new_state) {
            Ok(_) => {},
            Err(e) => {
                return Err(e);
            },
        }
        proof {
            lemma_position_of_present(self.records(), i as int);
        }
        self.put(triangle);
        Ok(true)
    }

    /// The triangle with identifier `id`, if it is held.
    pub fn get_triangle(&self, id: &u128) -> (r: Option<&FractalTriangle>)
        ensures
            match r {
                Some(t) => lookup(self.records(), *id) == Some(t@),
                None => lookup(self.records(), *id) is None,
            },
    {
        let i = self.find(*id);
        if i < self.triangles.len() {
            Some(&self.triangles[i])
        } else {
            None
        }
    }

    /// The genesis triangle, once one has been set.
    pub fn genesis(&self) -> (r: Option<&FractalTriangle>)
        ensures
            match (r, self.spec_genesis_id()) {
                (Some(t), Some(id)) => lookup(self.records(), id) == Some(t@),
                (None, Some(id)) => lookup(self.records(), id) is None,
                (None, None) => true,
                (Some(_), None) => false,
            },
    {
        match self.genesis_id {
            Some(id) => self.get_triangle(&id),
            None => None,
        }
    }

    /// The triangles at depth `depth`, in the order in which they are held.
    pub fn triangles_at_depth(&self, depth: u8) -> (r: Vec<&FractalTriangle>)
        ensures
            records_of_refs(r@) == at_depth(self.records(), depth),
    {
        let ghost records = self.records();
        let ghost wanted = |r: TriangleRecord| r.depth == depth;
        let mut found: Vec<&FractalTriangle> = Vec::new();
        let mut i: usize = 0;
        assert(records_of_refs(found@) =~= kept(records.subrange(0, 0), wanted));
        while i < self.triangles.len()
            invariant
                records == self.records(),
                wanted == |r: TriangleRecord| r.depth == depth,
                i <= self.triangles.len(),
                self.triangles@.len() == records.len(),
                records_of_refs(found@) == kept(records.subrange(0, i as int), wanted),
            decreases self.triangles.len() - i,
        {
            let triangle = &self.triangles[i];
            proof {
                let next = records.subrange(0, i + 1);
                assert(next.drop_last() =~= records.subrange(0, i as int));
                assert(next.last() == triangle@);
            }
            let ghost before = found@;
            if triangle.depth == depth {
                found.push(triangle);
                assert(records_of_refs(found@) =~= records_of_refs(before).push(triangle@));
            }
            i = i + 1;
        }
        assert(records.subrange(0, i as int) =~= records);
        found
    }

    /// The triangles in state `state`, in the order in which they are held.
    pub fn triangles_by_state(&self, state: TriangleState) -> (r: Vec<&FractalTriangle>)
        ensures
            records_of_refs(r@) == in_state(self.records(), state),
    {
        let ghost records = self.records();
        let ghost wanted = |r: TriangleRecord| r.state == state;
        let mut found: Vec<&FractalTriangle> = Vec::new();
        let mut i: usize = 0;
        assert(records_of_refs(found@) =~= kept(records.subrange(0, 0), wanted));
        while i < self.triangles.len()
            invariant
                records == self.records(),
                wanted == |r: TriangleRecord| r.state == state,
                i <= self.triangles.len(),
                self.triangles@.len() == records.len(),
                records_of_refs(found@) == kept(records.subrange(0, i as int), wanted),
            decreases self.triangles.len() - i,
        {
            let triangle = &self.triangles[i];
            proof {
                let next = records.subrange(0, i + 1);
                assert(next.drop_last() =~= records.subrange(0, i as int));
                assert(next.last() == triangle@);
            }
            let ghost before = found@;
            if triangle.state == state {
                found.push(triangle);
                assert(records_of_refs(found@) =~= records_of_refs(before).push(triangle@));
            }
            i = i + 1;
        }
        assert(records.subrange(0, i as int) =~= records);
        found
    }

    /// The number of triangles held, the voids left out.
    pub fn total_triangles(&self) -> (r: usize)
        ensures
            r == count_solid(self.records()),
    {
        let ghost records = self.records();
        let ghost wanted = |r: TriangleRecord| r.state != TriangleState::Void;
        let mut count: usize = 0;
        let mut i: usize = 0;
        while i < self.triangles.len()
            invariant
                records == self.records(),
                wanted == |r: TriangleRecord| r.state != TriangleState::Void,
                i <= self.triangles.len(),
                self.triangles@.len() == records.len(),
                count == kept(records.subrange(0, i as int), wanted).len(),
                count <= i,
            decreases self.triangles.len() - i,
        {
            proof {
                let next = records.subrange(0, i + 1);
                assert(next.drop_last() =~= records.subrange(0, i as int));
                assert(next.last() == self.triangles@[i as int]@);
            }
            match self.triangles[i].state {
                TriangleState::Void => {},
                _ => {
                    count = count + 1;
                },
            }
            i = i + 1;
        }
        assert(records.subrange(0, i as int) =~= records);
        count
    }

    /// The number of triangles held, the voids among them.
    pub fn len(&self) -> (r: usize)
        ensures
            r == self.records().len(),
            distinct(self.records()),
    {
        proof {
            use_type_invariant(self);
        }
        self.triangles.len()
    }

    /// The triangle at position `index` of the order in which the triangles
    /// are held, if there are that many.
    pub fn nth(&self, index: usize) -> (r: Option<&FractalTriangle>)
        ensures
            index < self.records().len() ==> (r matches Some(t) && t@ == self.records()[index as int]),
            index >= self.records().len() ==> r is None,
    {
        if index < self.triangles.len() {
            Some(&self.triangles[index])
        } else {
            None
        }
    }

    /// The greatest depth among the triangles that were added.
    pub fn max_depth(&self) -> (r: u8)
        ensures
            r == self.spec_max_depth(),
    {
        self.max_depth
    }

    /// The area in use: the areas of the active triangles and of the genesis
    /// triangle, added up in the order in which they are held. A subdivided
    /// triangle does not count, its children do.
    ///
    /// Fails with `ArithmeticOverflow` where the sum overflows.
    pub fn total_active_area(&self) -> (r: SierpinskiResult<Decimal>)
        ensures
            r == settled(area_in_use(self.records())),
    {
        let ghost records = self.records();
        let mut total = Some(Decimal::zero());
        let mut i: usize = 0;
        while i < self.triangles.len()
            invariant
                records == self.records(),
                i <= self.triangles.len(),
                self.triangles@.len() == records.len(),
                total == area_in_use(records.subrange(0, i as int)),
            decreases self.triangles.len() - i,
        {
            let triangle = &self.triangles[i];
            proof {
                let next = records.subrange(0, i + 1);
                assert(next.drop_last() =~= records.subrange(0, i as int));
                assert(next.last() == triangle@);
            }
            let counts = match triangle.state {
                TriangleState::Active => true,
                TriangleState::Genesis => true,
                _ => false,
            };
            if counts {
                let area = match triangle.area() {
                    Ok(a) => Some(a),
                    Err(_) => None,
                };
                total = crate::decimal::plus(total, area);
            }
            i = i + 1;
        }
        assert(records.subrange(0, i as int) =~= records);
        settle(total)
    }

    /// The children of the triangle with identifier `parent_id`: the
    /// triangles its child identifiers name, in their order. None where the
    /// parent is not held.
    pub fn children(&self, parent_id: &u128) -> (r: Vec<&FractalTriangle>)
        ensures
            records_of_refs(r@) == children_of(self.records(), *parent_id),
    {
        let ghost records = self.records();
        let mut found: Vec<&FractalTriangle> = Vec::new();
        let parent = match self.get_triangle(parent_id) {
            Some(p) => p,
            None => {
                assert(records_of_refs(found@) =~= Seq::<TriangleRecord>::empty());
                return found;
            },
        };
        let ghost ids = parent.child_ids@;
        let mut i: usize = 0;
        assert(records_of_refs(found@) =~= resolved(records, ids.subrange(0, 0)));
        while i < parent.child_ids.len()
            invariant
                records == self.records(),
                ids == parent.child_ids@,
                i <= parent.child_ids.len(),
                records_of_refs(found@) == resolved(records, ids.subrange(0, i as int)),
            decreases parent.child_ids.len() - i,
        {
            proof {
                let next = ids.subrange(0, i + 1);
                assert(next.drop_last() =~= ids.subrange(0, i as int));
                assert(next.last() == ids[i as int]);
            }
            let ghost before = found@;
            match self.get_triangle(&parent.child_ids[i]) {
                Some(child) => {
                    found.push(child);
                    assert(records_of_refs(found@) =~= records_of_refs(before).push(child@));
                },
                None => {},
            }
            i = i + 1;
        }
        assert(ids.subrange(0, i as int) =~= ids);
        found
    }
}

/// Adding a record never makes the records fewer.
pub proof fn lemma_added_grows(records: Seq<TriangleRecord>, record: TriangleRecord)
    ensures
        added(records, record).len() >= records.len(),
{
}

/// The record at a position is the one its identifier is looked up to,
/// where no identifier occurs twice.
pub proof fn lemma_position_of_present(records: Seq<TriangleRecord>, i: int)
    requires
        distinct(records),
        0 <= i < records.len(),
    ensures
        position(records, records[i].id) == i,
    decreases records.len(),
{
    if i > 0 {
        let rest = records.drop_first();
        assert(records[0].id != records[i].id);
        assert(distinct(rest)) by {
            assert forall|a: int, b: int| 0 <= a < b < rest.len() implies rest[a].id != rest[b].id by {
                assert(rest[a] == records[a + 1] && rest[b] == records[b + 1]);
            }
        }
        assert(rest[i - 1] == records[i]);
        lemma_position_of_present(rest, i - 1);
    }
}

/// The position of an identifier lies within the records or just behind
/// them; a record stands there exactly where the identifier occurs.
pub proof fn lemma_position_range(records: Seq<TriangleRecord>, id: u128)
    ensures
        0 <= position(records, id) <= records.len(),
        position(records, id) < records.len() ==> records[position(records, id)].id == id,
        forall|k: int| 0 <= k < position(records, id) ==> records[k].id != id,
    decreases records.len(),
{
    if records.len() > 0 && records[0].id != id {
        let rest = records.drop_first();
        lemma_position_range(rest, id);
        assert forall|k: int| 0 <= k < position(records, id) implies records[k].id != id by {
            if k > 0 {
                assert(rest[k - 1] == records[k]);
            }
        }
    }
}

/// Putting a record in keeps the identifiers distinct, and the record can
/// then be looked up.
pub proof fn lemma_upsert_distinct(records: Seq<TriangleRecord>, record: TriangleRecord)
    requires
        distinct(records),
    ensures
        distinct(upsert(records, record)),
        lookup(upsert(records, record), record.id) == Some(record),
{
    lemma_position_range(records, record.id);
    let p = position(records, record.id);
    let after = upsert(records, record);
    assert forall|a: int, b: int| 0 <= a < b < after.len() implies after[a].id != after[b].id by {
        if p < records.len() {
            assert(after[a].id == records[a].id && after[b].id == records[b].id);
        } else {
            if b < records.len() {
                assert(after[a] == records[a] && after[b] == records[b]);
            } else {
                assert(after[a] == records[a]);
            }
        }
    }
    assert(after[p] == record);
    lemma_position_of_present(after, p);
}

} // verus!
