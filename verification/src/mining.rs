//! Geometric proof-of-work.
//!
//! The work that a miner shows for a block is a subdivision: the target
//! triangle of a challenge is split into its four parts, the split is
//! checked, and a hash over the parts and the nonce is taken. A block
//! carries that hash in its proof and must still meet its difficulty.

use vstd::prelude::*;
use vstd::bytes::{spec_u64_to_le_bytes, u64_to_le_bytes};
use vstd::string::*;
use crate::address::TriangleAddress;
use crate::block::{clone_transactions, transaction_records, Block, BlockRecord, GeometricProof, TriangleTransaction};
use crate::blockchain::TriadChainBlockchain;
use crate::clock::{processor_count, read_stopwatch, seconds, start_stopwatch, unix_time_now};
use crate::decimal::{magnitude, minus, plus, spec_magnitude, spec_minus, spec_plus, Decimal, MAX_SCALE};
use crate::errors::{SierpinskiError, SierpinskiResult};
use crate::fractal::{lookup, FractalTriangle, TriangleRecord};
use crate::geometry::Point;
use crate::hashing::{append_bytes, append_text, blake3_hex, digest_hex, is_digest_text, text_bytes};
use crate::ident::{big_endian_bytes, id_text, random_id, uuid_text};
use crate::state::TriangleState;
use crate::subdivision::{fresh_part_draws, subdivide_triangle_with, validate_subdivision, PartDraws, SubdivisionResult};
use crate::text::{append_number, number_text};
use crate::triangle::Triangle;

verus! {

/// The most subdivisions a challenge asks for.
pub const MAX_REQUIRED_SUBDIVISIONS: u32 = 10;

/// The number of triangles a subdivision makes.
pub const PARTS_OF_A_SUBDIVISION: usize = 4;

/// A task set to the miners.
#[derive(Debug)]
pub struct GeometricChallenge {
    /// The triangle that is to be subdivided.
    pub target_triangle: Triangle,
    /// The difficulty a block must meet.
    pub difficulty: u32,
    /// The number of subdivisions asked for: half the difficulty, and at
    /// most ten.
    pub required_subdivisions: u8,
    /// The smallest area that counts, if there is a limit.
    pub area_constraint: Option<Decimal>,
    /// When the challenge was set, in seconds since the Unix epoch.
    pub timestamp: u64,
    /// A name for the challenge: the first eight digits of the hash of the
    /// last block, a dash, and the time stamp.
    pub challenge_id: String,
}

/// What a miner found.
#[derive(Debug)]
pub struct MiningResult {
    /// The nonce that was tried.
    pub nonce: u64,
    /// The subdivision that is shown as work.
    pub subdivision_proof: SubdivisionResult,
    /// The hash over the subdivision and the nonce.
    pub geometric_hash: String,
    /// How long the work took.
    pub computation_time: std::time::Duration,
    /// The number of triangles made: four.
    pub triangles_generated: usize,
    /// Whether the parts have the area of the target triangle, within
    /// 10^-10.
    pub total_area_preserved: bool,
}

/// The seconds a mining worker waits where there is nothing to work on.
pub const IDLE_WAIT_SECONDS: u64 = 1;

/// The milliseconds a mining worker pauses between two rounds.
pub const ROUND_PAUSE_MILLIS: u64 = 1;

/// What has happened to a mining worker.
#[derive(Debug, Clone, Copy, PartialEq, Eq)]
pub enum MinerEvent {
    /// No challenge could be set for the chain.
    NoChallenge,
    /// The chain was looked at, and held `pending` pending transactions.
    Snapshot { pending: usize },
    /// The search gave a block.
    Found,
    /// The search gave no block.
    NotFound,
    /// A block was handed to the chain, whatever became of it.
    Applied,
}

/// What a mining worker does next.
#[derive(Debug, Clone, Copy, PartialEq, Eq)]
pub enum MinerAction {
    /// Wait, and look at the chain again.
    Wait { seconds: u64 },
    /// Search for a block, from `start_nonce` on.
    Search { start_nonce: u64 },
    /// Have the chain mine and apply a block of up to `max_transactions`
    /// transactions.
    Apply { max_transactions: usize },
    /// Pause, and look at the chain again.
    Pause { millis: u64 },
}

/// The nonce a mining worker goes on with and what it does next, where it
/// stands at `nonce`, last saw `pending` pending transactions, and `event`
/// has happened.
///
/// Without a challenge or without pending transactions it waits a second.
/// With pending transactions it searches from its nonce on. A block that
/// was found is handed to the chain with the transactions that were seen,
/// and the nonce begins at zero again. A search without result moves the
/// nonce on by one, wrapping round. After either, it pauses a millisecond.
pub open spec fn spec_next_step(nonce: u64, pending: usize, event: MinerEvent) -> (u64, MinerAction) {
    match event {
        MinerEvent::NoChallenge => (nonce, MinerAction::Wait { seconds: IDLE_WAIT_SECONDS }),
        MinerEvent::Snapshot { pending: seen } => if seen == 0 {
            (nonce, MinerAction::Wait { seconds: IDLE_WAIT_SECONDS })
        } else {
            (nonce, MinerAction::Search { start_nonce: nonce })
        },
        MinerEvent::Found => (0, MinerAction::Apply { max_transactions: pending }),
        MinerEvent::NotFound => (
            if nonce == u64::MAX {
                0
            } else {
                (nonce + 1) as u64
            },
            MinerAction::Pause { millis: ROUND_PAUSE_MILLIS },
        ),
        MinerEvent::Applied => (nonce, MinerAction::Pause { millis: ROUND_PAUSE_MILLIS }),
    }
}

/// The next step of a mining worker: see [`spec_next_step`].
pub fn next_step(nonce: u64, pending: usize, event: MinerEvent) -> (r: (u64, MinerAction))
    ensures
        r == spec_next_step(nonce, pending, event),
{
    match event {
        MinerEvent::NoChallenge => (nonce, MinerAction::Wait { seconds: IDLE_WAIT_SECONDS }),
        MinerEvent::Snapshot { pending: seen } => {
            if seen == 0 {
                (nonce, MinerAction::Wait { seconds: IDLE_WAIT_SECONDS })
            } else {
                (nonce, MinerAction::Search { start_nonce: nonce })
            }
        },
        MinerEvent::Found => (0, MinerAction::Apply { max_transactions: pending }),
        MinerEvent::NotFound => {
            let next: u64 = if nonce == u64::MAX {
                0
            } else {
                nonce + 1
            };
            (next, MinerAction::Pause { millis: ROUND_PAUSE_MILLIS })
        },
        MinerEvent::Applied => (nonce, MinerAction::Pause { millis: ROUND_PAUSE_MILLIS }),
    }
}

/// The settings of a miner.
#[derive(Debug, Clone)]
pub struct MinerConfig {
    /// The name of the miner.
    pub miner_id: String,
    /// The number of threads the miner may use.
    pub max_threads: usize,
    /// The time a block should take.
    pub target_block_time: std::time::Duration,
    /// The number of nonces tried for one block.
    pub max_nonce: u64,
    /// The number of digits of the area limit of a challenge.
    pub geometric_precision: u32,
}

impl Default for MinerConfig {
    /// A miner named after a fresh identifier, with as many threads as the
    /// machine has processors, blocks of a minute, a million nonces for a
    /// block, and ten digits of precision.
    fn default() -> (r: MinerConfig)
        ensures
            r.max_threads >= 1,
            r.max_nonce == 1_000_000,
            r.geometric_precision == 10,
            r.miner_id@.subrange(0, 6) == "miner_"@,
    {
        let mut miner_id = "miner_".to_owned();
        let id = id_text(random_id());
        miner_id.append(id.as_str());
        proof {
            reveal_strlit("miner_");
            assert(miner_id@.subrange(0, 6) =~= "miner_"@);
        }
        MinerConfig {
            miner_id,
            max_threads: processor_count(),
            target_block_time: seconds(60),
            max_nonce: 1_000_000,
            geometric_precision: 10,
        }
    }
}

/// The vertices of the triangle a challenge falls back on where the chain
/// has no genesis triangle: `(0, 0)`, `(1, 0)` and `(0.5, 0.866)`.
pub open spec fn fallback_vertices() -> (Point, Point, Point) {
    (
        Point { x: Decimal::from_pair(0, 0), y: Decimal::from_pair(0, 0) },
        Point { x: Decimal::from_pair(1, 0), y: Decimal::from_pair(0, 0) },
        Point { x: Decimal::from_pair(5, 1), y: Decimal::from_pair(866, 3) },
    )
}

/// The number of subdivisions asked for at a difficulty: half of it, and at
/// most ten.
pub open spec fn subdivisions_for(difficulty: u32) -> u8 {
    if difficulty / 2 < MAX_REQUIRED_SUBDIVISIONS {
        (difficulty / 2) as u8
    } else {
        MAX_REQUIRED_SUBDIVISIONS as u8
    }
}

/// The name of the challenge set at `now` on a chain whose last block has
/// the hash `last_hash`.
pub open spec fn challenge_name(last_hash: Seq<char>, now: u64) -> Seq<char> {
    last_hash.subrange(0, 8) + seq!['-'] + number_text(now as nat)
}

/// The bytes that the geometric hash is taken of: the fingerprints of the
/// parent, of the three children and of the void, and the nonce.
pub open spec fn geometric_hash_input(subdivision: SubdivisionResult, nonce: u64) -> Seq<u8> {
    text_bytes(subdivision.parent@.spec_hash()) + text_bytes(subdivision.children@[0]@.spec_hash())
        + text_bytes(subdivision.children@[1]@.spec_hash()) + text_bytes(
        subdivision.children@[2]@.spec_hash(),
    ) + text_bytes(subdivision.void_triangle@.spec_hash()) + spec_u64_to_le_bytes(nonce)
}

/// The smallest difference of areas that counts as a loss: 10^-10.
pub open spec fn area_loss_threshold() -> Decimal {
    Decimal::from_pair(1, 10)
}

/// Whether the parts of a subdivision have the area of the parent: whether
/// the absolute difference between the area of the parent and that of the
/// children, added up from zero, and the void is below 10^-10. `None`
/// where a step overflows.
pub open spec fn area_preserved(
    parent: Decimal,
    c0: Decimal,
    c1: Decimal,
    c2: Decimal,
    void: Decimal,
) -> Option<bool> {
    let children = spec_plus(spec_plus(Decimal::from_pair(0, 0).spec_add(c0), Some(c1)), Some(c2));
    match spec_magnitude(spec_minus(Some(parent), spec_plus(children, Some(void)))) {
        Some(difference) => Some(difference.less_than(area_loss_threshold())),
        None => None,
    }
}

/// Whether four parts have the area of their parent within 10^-10; `None`
/// where a step overflows.
pub fn is_area_preserved(
    parent: Decimal,
    c0: Decimal,
    c1: Decimal,
    c2: Decimal,
    void: Decimal,
) -> (r: Option<bool>)
    ensures
        r == area_preserved(parent, c0, c1, c2, void),
{
    let children = plus(plus(Decimal::zero().checked_add(c0), Some(c1)), Some(c2));
    match magnitude(minus(Some(parent), plus(children, Some(void)))) {
        Some(difference) => Some(difference.lt(&Decimal::new(1, 10))),
        None => None,
    }
}

/// The number of subdivisions asked for at `difficulty`.
pub fn required_subdivisions(difficulty: u32) -> (r: u8)
    ensures
        r == subdivisions_for(difficulty),
        r <= MAX_REQUIRED_SUBDIVISIONS,
{
    if difficulty / 2 < MAX_REQUIRED_SUBDIVISIONS {
        (difficulty / 2) as u8
    } else {
        MAX_REQUIRED_SUBDIVISIONS as u8
    }
}

/// The challenge for the next block of `blockchain`, set now.
///
/// The target is the genesis triangle of the chain's fractal, or the
/// fallback triangle where there is none. Fails with `ValidationError` for
/// a chain without blocks, and with the error of the fallback triangle
/// where that cannot be made.
pub fn generate_challenge(
    blockchain: &TriadChainBlockchain,
    precision: u32,
) -> (r: SierpinskiResult<GeometricChallenge>)
    requires
        precision <= MAX_SCALE,
    ensures
        blockchain.chain().len() == 0 ==> (r matches Err(SierpinskiError::ValidationError { message })
            && message@ == "Empty blockchain"@),
        r matches Ok(c) ==> is_challenge_for(c, *blockchain, precision, c.timestamp),
        blockchain.chain().len() > 0 && blockchain.target() is Some ==> r is Ok,
        blockchain.chain().len() > 0 && blockchain.target() is None ==> (r is Ok <==> crate::triangle::makes_triangle(
            fallback_vertices().0,
            fallback_vertices().1,
            fallback_vertices().2,
        )) && (r matches Err(e) ==> crate::triangle::construction_outcome(
            fallback_vertices().0,
            fallback_vertices().1,
            fallback_vertices().2,
        ) == Err::<(), SierpinskiError>(e)),
{
    generate_challenge_at(unix_time_now(), blockchain, precision)
}

/// Whether `c` is the challenge that is set at `now` for the next block of
/// `blockchain`.
pub open spec fn is_challenge_for(
    c: GeometricChallenge,
    blockchain: TriadChainBlockchain,
    precision: u32,
    now: u64,
) -> bool {
    &&& blockchain.chain().len() > 0
    &&& c.difficulty == blockchain.spec_difficulty()
    &&& c.required_subdivisions == subdivisions_for(blockchain.spec_difficulty())
    &&& c.area_constraint == Some(Decimal::from_pair(1, precision as nat))
    &&& c.timestamp == now
    &&& c.challenge_id@ == challenge_name(blockchain.chain().last().spec_hash(), now)
    &&& match blockchain.target() {
        Some(genesis) => c.target_triangle == genesis.triangle,
        None => (c.target_triangle.a(), c.target_triangle.b(), c.target_triangle.c()) == fallback_vertices(),
    }
}

/// The challenge that [`generate_challenge`] sets when the clock reads
/// `now`.
pub fn generate_challenge_at(
    now: u64,
    blockchain: &TriadChainBlockchain,
    precision: u32,
) -> (r: SierpinskiResult<GeometricChallenge>)
    requires
        precision <= MAX_SCALE,
    ensures
        blockchain.chain().len() == 0 ==> (r matches Err(SierpinskiError::ValidationError { message })
            && message@ == "Empty blockchain"@),
        r matches Ok(c) ==> is_challenge_for(c, *blockchain, precision, now),
        blockchain.chain().len() > 0 && blockchain.target() is Some ==> r is Ok,
        blockchain.chain().len() > 0 && blockchain.target() is None ==> (r is Ok <==> crate::triangle::makes_triangle(
            fallback_vertices().0,
            fallback_vertices().1,
            fallback_vertices().2,
        )) && (r matches Err(e) ==> crate::triangle::construction_outcome(
            fallback_vertices().0,
            fallback_vertices().1,
            fallback_vertices().2,
        ) == Err::<(), SierpinskiError>(e)),
{
    let blocks = blockchain.blocks();
    if blocks.len() == 0 {
        return Err(SierpinskiError::validation("Empty blockchain"));
    }
    let last_hash = blocks[blocks.len() - 1].hash();
    let target_triangle = match blockchain.fractal_state().genesis() {
        Some(genesis) => genesis.triangle,
        None => Triangle::new(
            Point::new(Decimal::new(0, 0), Decimal::new(0, 0)),
            Point::new(Decimal::new(1, 0), Decimal::new(0, 0)),
            Point::new(Decimal::new(5, 1), Decimal::new(866, 3)),
        )?,
    };
    let mut challenge_id = last_hash.as_str().substring_char(0, 8).to_owned();
    challenge_id.append("-");
    append_number(&mut challenge_id, now);
    proof {
        reveal_strlit("-");
        assert(challenge_id@ =~= challenge_name(last_hash@, now));
    }
    let difficulty = blockchain.difficulty();
    Ok(
        GeometricChallenge {
            target_triangle,
            difficulty,
            required_subdivisions: required_subdivisions(difficulty),
            area_constraint: Some(Decimal::new(1, precision)),
            timestamp: now,
            challenge_id,
        },
    )
}

/// The hash over a subdivision and a nonce.
pub fn calculate_geometric_hash(subdivision: &SubdivisionResult, nonce: u64) -> (r: String)
    ensures
        r@ == blake3_hex(geometric_hash_input(*subdivision, nonce)),
        is_digest_text(r@),
{
    let mut buffer: Vec<u8> = Vec::new();
    let parent = subdivision.parent.hash();
    append_text(&mut buffer, parent.as_str());
    let first = subdivision.children[0].hash();
    append_text(&mut buffer, first.as_str());
    let second = subdivision.children[1].hash();
    append_text(&mut buffer, second.as_str());
    let third = subdivision.children[2].hash();
    append_text(&mut buffer, third.as_str());
    let void = subdivision.void_triangle.hash();
    append_text(&mut buffer, void.as_str());
    let tail = u64_to_le_bytes(nonce);
    append_bytes(&mut buffer, &tail);
    assert(buffer@ =~= geometric_hash_input(*subdivision, nonce));
    digest_hex(buffer.as_slice())
}

/// The areas of a triangle and of the four parts it is split into, where
/// it can be split.
pub open spec fn split_areas(t: Triangle) -> Option<(Decimal, Decimal, Decimal, Decimal, Decimal)> {
    match crate::subdivision::split_points(t) {
        Some(points) => match (
            t.spec_area(),
            crate::triangle::spec_area_of(points.part(0).0, points.part(0).1, points.part(0).2),
            crate::triangle::spec_area_of(points.part(1).0, points.part(1).1, points.part(1).2),
            crate::triangle::spec_area_of(points.part(2).0, points.part(2).1, points.part(2).2),
            crate::triangle::spec_area_of(points.part(3).0, points.part(3).1, points.part(3).2),
        ) {
            (Some(p), Some(c0), Some(c1), Some(c2), Some(v)) => Some((p, c0, c1, c2, v)),
            _ => None,
        },
        None => None,
    }
}

/// Whether the work on a triangle succeeds: the triangle can be split, its
/// parts conserve its area within a millionth, and the comparison with the
/// smaller threshold does not overflow.
pub open spec fn work_succeeds(t: Triangle) -> bool {
    &&& crate::subdivision::split_outcome(t) is Ok
    &&& split_areas(t) matches Some((p, c0, c1, c2, v)) && crate::subdivision::area_conserved(p, c0, c1, c2, v)
        == Some(true) && area_preserved(p, c0, c1, c2, v) is Some
}

/// Does the work for `challenge` with `nonce`: the target triangle is
/// subdivided as an active triangle at the genesis address, the subdivision
/// is checked, and the hash over it and the nonce is taken.
///
/// Fails with the error of the subdivision or of its check, and with
/// `ValidationError` where the check says no.
pub fn verify_geometric_work(
    challenge: &GeometricChallenge,
    block: &Block,
    nonce: u64,
) -> (r: SierpinskiResult<MiningResult>)
    ensures
        r is Ok <==> work_succeeds(challenge.target_triangle),
        r matches Ok(found) ==> {
            &&& found.nonce == nonce
            &&& found.triangles_generated == PARTS_OF_A_SUBDIVISION
            &&& found.subdivision_proof.verdict() == Ok::<bool, SierpinskiError>(true)
            &&& found.subdivision_proof.parent.triangle == challenge.target_triangle
            &&& found.subdivision_proof.parent.state == TriangleState::Subdivided
            &&& found.geometric_hash@ == blake3_hex(geometric_hash_input(found.subdivision_proof, nonce))
            &&& found.subdivision_proof.follows(
                TriangleRecord::fresh(
                    found.subdivision_proof.parent.id,
                    found.subdivision_proof.parent.created_at,
                    challenge.target_triangle,
                    TriangleState::Active,
                    Seq::<u8>::empty(),
                    0,
                ),
                crate::subdivision::split_points(challenge.target_triangle)->0,
            )
            &&& found.total_area_preserved == work_preserves(challenge.target_triangle)
            &&& match (
                found.subdivision_proof.parent.triangle.spec_area(),
                found.subdivision_proof.children@[0].triangle.spec_area(),
                found.subdivision_proof.children@[1].triangle.spec_area(),
                found.subdivision_proof.children@[2].triangle.spec_area(),
                found.subdivision_proof.void_triangle.triangle.spec_area(),
            ) {
                (Some(p), Some(c0), Some(c1), Some(c2), Some(v)) => area_preserved(p, c0, c1, c2, v) == Some(
                    found.total_area_preserved,
                ),
                _ => false,
            }
        },
{
    let draws = fresh_work_draws();
    verify_geometric_work_with(challenge, block, nonce, &draws)
}

/// What is drawn for a piece of work: the identifier and the time of making
/// of the triangle that stands for the target, and what is drawn for its
/// subdivision.
#[derive(Debug, Clone, Copy)]
pub struct WorkDraws {
    pub parent_id: u128,
    pub parent_time: u64,
    pub parts: PartDraws,
}

/// What is drawn for one round of a search: the time at which the block is
/// put together, and what is drawn for the work.
#[derive(Debug, Clone, Copy)]
pub struct RoundDraws {
    pub time: u64,
    pub work: WorkDraws,
}

/// A fresh identifier and the reading of the clock for the triangle that
/// stands for the target, and fresh draws for its subdivision.
pub fn fresh_work_draws() -> WorkDraws {
    let parent_id = random_id();
    let parent_time = unix_time_now();
    WorkDraws { parent_id, parent_time, parts: fresh_part_draws() }
}

/// The fingerprint of a triangle of the fractal with the identifier `id`
/// and the given vertices, at `depth`.
pub open spec fn fingerprint_of(id: u128, vertices: (Point, Point, Point), depth: u8) -> Seq<char> {
    blake3_hex(
        big_endian_bytes(id) + text_bytes(
            blake3_hex(
                crate::triangle::point_bytes(vertices.0) + crate::triangle::point_bytes(vertices.1)
                    + crate::triangle::point_bytes(vertices.2),
            ),
        ) + seq![depth],
    )
}

/// The hash of the work on `target` with `nonce`, where `draws` gives the
/// identifiers: the hash over the fingerprints of the target and of its
/// four parts, and the nonce.
pub open spec fn work_hash(target: Triangle, draws: WorkDraws, nonce: u64) -> Seq<char> {
    let points = crate::subdivision::split_points(target)->0;
    blake3_hex(
        text_bytes(fingerprint_of(draws.parent_id, (target.a(), target.b(), target.c()), 0)) + text_bytes(
            fingerprint_of(draws.parts.ids@[0], points.part(0), 1),
        ) + text_bytes(fingerprint_of(draws.parts.ids@[1], points.part(1), 1)) + text_bytes(
            fingerprint_of(draws.parts.ids@[2], points.part(2), 1),
        ) + text_bytes(fingerprint_of(draws.parts.ids@[3], points.part(3), 1)) + spec_u64_to_le_bytes(nonce),
    )
}

/// Whether the parts of `target` have its area within 10^-10.
pub open spec fn work_preserves(target: Triangle) -> bool {
    split_areas(target) matches Some((p, c0, c1, c2, v)) && area_preserved(p, c0, c1, c2, v) == Some(true)
}

/// Does the work as [`verify_geometric_work`] does, with what is drawn
/// taken from `draws`.
pub fn verify_geometric_work_with(
    challenge: &GeometricChallenge,
    block: &Block,
    nonce: u64,
    draws: &WorkDraws,
) -> (r: SierpinskiResult<MiningResult>)
    ensures
        r is Ok <==> work_succeeds(challenge.target_triangle),
        r matches Ok(found) ==> {
            &&& found.nonce == nonce
            &&& found.triangles_generated == PARTS_OF_A_SUBDIVISION
            &&& found.subdivision_proof.verdict() == Ok::<bool, SierpinskiError>(true)
            &&& found.subdivision_proof.parent.triangle == challenge.target_triangle
            &&& found.subdivision_proof.parent.state == TriangleState::Subdivided
            &&& found.geometric_hash@ == blake3_hex(geometric_hash_input(found.subdivision_proof, nonce))
            &&& found.subdivision_proof.follows(
                TriangleRecord::fresh(
                    found.subdivision_proof.parent.id,
                    found.subdivision_proof.parent.created_at,
                    challenge.target_triangle,
                    TriangleState::Active,
                    Seq::<u8>::empty(),
                    0,
                ),
                crate::subdivision::split_points(challenge.target_triangle)->0,
            )
            &&& found.total_area_preserved == work_preserves(challenge.target_triangle)
            &&& found.subdivision_proof.parent.id == draws.parent_id
            &&& found.subdivision_proof.parent.created_at == draws.parent_time
            &&& found.subdivision_proof.drawn(draws.parts)
            &&& found.geometric_hash@ == work_hash(challenge.target_triangle, *draws, nonce)
            &&& match (
                found.subdivision_proof.parent.triangle.spec_area(),
                found.subdivision_proof.children@[0].triangle.spec_area(),
                found.subdivision_proof.children@[1].triangle.spec_area(),
                found.subdivision_proof.children@[2].triangle.spec_area(),
                found.subdivision_proof.void_triangle.triangle.spec_area(),
            ) {
                (Some(p), Some(c0), Some(c1), Some(c2), Some(v)) => area_preserved(p, c0, c1, c2, v) == Some(
                    found.total_area_preserved,
                ),
                _ => false,
            }
        },
{
    let start = start_stopwatch();
    let fractal_triangle = FractalTriangle::with_identity(
        draws.parent_id,
        draws.parent_time,
        challenge.target_triangle,
        TriangleState::Active,
        TriangleAddress::genesis(),
        0,
    );
    let subdivision = subdivide_triangle_with(&fractal_triangle, &draws.parts)?;
    if !validate_subdivision(&subdivision)? {
        return Err(SierpinskiError::validation("Invalid subdivision proof"));
    }
    let geometric_hash = calculate_geometric_hash(&subdivision, nonce);
    let parent_area = subdivision.parent.area()?;
    let a0 = subdivision.children[0].area()?;
    let a1 = subdivision.children[1].area()?;
    let a2 = subdivision.children[2].area()?;
    let void_area = subdivision.void_triangle.area()?;
    let total_area_preserved = match is_area_preserved(parent_area, a0, a1, a2, void_area) {
        Some(b) => b,
        None => {
            return Err(SierpinskiError::ArithmeticOverflow);
        },
    };
    Ok(
        MiningResult {
            nonce,
            subdivision_proof: subdivision,
            geometric_hash,
            computation_time: read_stopwatch(&start),
            triangles_generated: PARTS_OF_A_SUBDIVISION,
            total_area_preserved,
        },
    )
}

/// The block that shows a piece of work, where it does: `block` with the
/// hash of the work, `nonce` and `difficulty` written into its proof, where
/// the work has preserved the area and has made `parts` triangles, not
/// none, and the block then meets its difficulty.
pub open spec fn sealed(
    block: BlockRecord,
    hash: Seq<char>,
    preserved: bool,
    parts: usize,
    nonce: u64,
    difficulty: u32,
) -> Option<BlockRecord> {
    let shown = BlockRecord {
        proof_triangle_hash: hash,
        proof_subdivision_valid: true,
        proof_area_conservation: preserved,
        proof_merkle_root: block.merkle_root,
        proof_nonce: nonce,
        proof_difficulty: difficulty,
        ..block
    };
    if preserved && parts > 0 && shown.meets_target() {
        Some(shown)
    } else {
        None
    }
}

/// The block that a miner hands back for the transactions, put together at
/// the time `now` and tried with `nonce`, where the hash of the work is
/// `hash`: see [`sealed`].
pub open spec fn sealed_candidate(
    transactions: Seq<crate::block::TransactionRecord>,
    miner: Seq<char>,
    difficulty: u32,
    now: u64,
    nonce: u64,
    hash: Seq<char>,
) -> Option<BlockRecord> {
    match BlockRecord::assembled("previous_hash"@, transactions, miner, difficulty, now) {
        Some(block) => sealed(block.with_nonce(nonce), hash, true, PARTS_OF_A_SUBDIVISION, nonce, difficulty),
        None => None,
    }
}

/// Writes the work `found` into the proof of `block` and hands the block
/// back, where it then shows the work and meets its difficulty: see
/// [`sealed`].
pub fn seal_block(block: Block, found: &MiningResult, nonce: u64, difficulty: u32) -> (r: Option<Block>)
    ensures
        match sealed(
            block@,
            found.geometric_hash@,
            found.total_area_preserved,
            found.triangles_generated,
            nonce,
            difficulty,
        ) {
            Some(shown) => r matches Some(b) && b@ == shown,
            None => r is None,
        },
{
    let mut block = block;
    if found.total_area_preserved && found.triangles_generated > 0 {
        block.geometric_proof = GeometricProof {
            triangle_hash: found.geometric_hash.clone(),
            subdivision_valid: true,
            area_conservation: found.total_area_preserved,
            merkle_root: block.header.merkle_root.clone(),
            nonce,
            difficulty,
        };
        if block.meets_difficulty_target() {
            return Some(block);
        }
    }
    None
}

/// The block that one round of a search hands back, if it hands one back:
/// the block of the transactions, put together at the time of `draws` and
/// tried with `nonce`, with the work on `target` written into its proof,
/// where the work succeeds and the block shows it: see [`sealed`].
pub open spec fn round_block(
    target: Triangle,
    difficulty: u32,
    transactions: Seq<crate::block::TransactionRecord>,
    miner: Seq<char>,
    draws: RoundDraws,
    nonce: u64,
) -> Option<BlockRecord> {
    if !work_succeeds(target) {
        None
    } else {
        match BlockRecord::assembled("previous_hash"@, transactions, miner, difficulty, draws.time) {
            Some(block) => sealed(
                block.with_nonce(nonce),
                work_hash(target, draws.work, nonce),
                work_preserves(target),
                PARTS_OF_A_SUBDIVISION,
                nonce,
                difficulty,
            ),
            None => None,
        }
    }
}

/// Whether `used` holds what is drawn in each of `rounds` rounds, and what
/// `draws` holds as far as `draws` goes.
pub open spec fn agree_rounds(draws: Seq<RoundDraws>, used: Seq<RoundDraws>, rounds: u64) -> bool {
    &&& used.len() == rounds
    &&& forall|j: int| 0 <= j < rounds && j < draws.len() ==> used[j] == #[trigger] draws[j]
}

/// Whether `r` is what a search of `rounds` rounds from `start_nonce` on
/// gives, where `used[j]` is drawn in round `j`.
///
/// Round `j` tries the nonce `start_nonce + j`, wrapping round. The first
/// round that hands back a block ends the search, and that block is the
/// result. Where no round does, the result is the `SubdivisionError`
/// "Failed to find valid geometric proof". Where a block of the
/// transactions cannot be put together, the first round ends the search
/// with `ArithmeticOverflow`.
pub open spec fn search_outcome(
    target: Triangle,
    difficulty: u32,
    transactions: Seq<crate::block::TransactionRecord>,
    miner: Seq<char>,
    start_nonce: u64,
    rounds: u64,
    used: Seq<RoundDraws>,
    r: SierpinskiResult<Block>,
) -> bool {
    if rounds > 0 && BlockRecord::assembled("previous_hash"@, transactions, miner, difficulty, 0) is None {
        r == Err::<Block, SierpinskiError>(SierpinskiError::ArithmeticOverflow)
    } else {
        match r {
            Ok(block) => exists|j: int|
                0 <= j < rounds && round_block(
                    target,
                    difficulty,
                    transactions,
                    miner,
                    #[trigger] used[j],
                    start_nonce.wrapping_add(j as u64),
                ) == Some(block@) && forall|i: int|
                    0 <= i < j ==> round_block(
                        target,
                        difficulty,
                        transactions,
                        miner,
                        #[trigger] used[i],
                        start_nonce.wrapping_add(i as u64),
                    ) is None,
            Err(e) => (e matches SierpinskiError::SubdivisionError { reason } && reason@
                == "Failed to find valid geometric proof"@) && forall|j: int|
                0 <= j < rounds ==> round_block(
                    target,
                    difficulty,
                    transactions,
                    miner,
                    #[trigger] used[j],
                    start_nonce.wrapping_add(j as u64),
                ) is None,
        }
    }
}

/// Looks for a block that shows the work for `challenge` and meets its
/// difficulty. The nonces `start_nonce`, `start_nonce + 1` and so on are
/// tried, wrapping round, `max_iterations` of them. For each, a block of
/// the transactions is made, the work is done, the hash of the work is
/// written into the proof of the block, and the block is handed back if its
/// hash meets the difficulty.
///
/// Fails with `SubdivisionError` where no nonce gives such a block, and
/// with `ArithmeticOverflow` where a block cannot be made. A search of at
/// least one round for a challenge of difficulty zero gives the block of
/// the first nonce, where the work succeeds and preserves the area and the
/// block can be made.
pub fn mine_geometric_block(
    challenge: &GeometricChallenge,
    transactions: &Vec<TriangleTransaction>,
    miner_address: &str,
    start_nonce: u64,
    max_iterations: u64,
) -> (r: SierpinskiResult<Block>)
    ensures
        exists|used: Seq<RoundDraws>|
            used.len() == max_iterations && #[trigger] search_outcome(
                challenge.target_triangle,
                challenge.difficulty,
                transaction_records(transactions@),
                miner_address@,
                start_nonce,
                max_iterations,
                used,
                r,
            ),
        max_iterations == 0 || !work_succeeds(challenge.target_triangle) || !work_preserves(
            challenge.target_triangle,
        ) ==> r is Err,
        max_iterations > 0 && challenge.difficulty == 0 && work_succeeds(challenge.target_triangle)
            && work_preserves(challenge.target_triangle) && BlockRecord::assembled(
            "previous_hash"@,
            transaction_records(transactions@),
            miner_address@,
            challenge.difficulty,
            0,
        ) is Some ==> (r matches Ok(block) && block@.nonce == start_nonce),
        r matches Ok(block) ==> exists|k: int|
            0 <= k < max_iterations && block@.nonce == #[trigger] start_nonce.wrapping_add(k as u64),
{
    let draws: Vec<RoundDraws> = Vec::new();
    let r = mine_geometric_block_at(challenge, transactions, miner_address, start_nonce, max_iterations, &draws);
    proof {
        let used = choose|used: Seq<RoundDraws>|
            agree_rounds(draws@, used, max_iterations) && #[trigger] search_outcome(
                challenge.target_triangle,
                challenge.difficulty,
                transaction_records(transactions@),
                miner_address@,
                start_nonce,
                max_iterations,
                used,
                r,
            );
        assert(used.len() == max_iterations);
    }
    r
}

/// Looks for a block as [`mine_geometric_block`] does, with what is drawn
/// in round `j` taken from `draws[j]`; where `draws` ends before the search
/// does, the rest is drawn as [`mine_geometric_block`] draws it.
pub fn mine_geometric_block_at(
    challenge: &GeometricChallenge,
    transactions: &Vec<TriangleTransaction>,
    miner_address: &str,
    start_nonce: u64,
    max_iterations: u64,
    draws: &Vec<RoundDraws>,
) -> (r: SierpinskiResult<Block>)
    ensures
        exists|used: Seq<RoundDraws>|
            agree_rounds(draws@, used, max_iterations) && #[trigger] search_outcome(
                challenge.target_triangle,
                challenge.difficulty,
                transaction_records(transactions@),
                miner_address@,
                start_nonce,
                max_iterations,
                used,
                r,
            ),
        max_iterations == 0 || !work_succeeds(challenge.target_triangle) || !work_preserves(
            challenge.target_triangle,
        ) ==> r is Err,
        max_iterations > 0 && challenge.difficulty == 0 && work_succeeds(challenge.target_triangle)
            && work_preserves(challenge.target_triangle) && BlockRecord::assembled(
            "previous_hash"@,
            transaction_records(transactions@),
            miner_address@,
            challenge.difficulty,
            0,
        ) is Some ==> (r matches Ok(block) && block@.nonce == start_nonce),
        r matches Ok(block) ==> exists|k: int|
            0 <= k < max_iterations && block@.nonce == #[trigger] start_nonce.wrapping_add(k as u64),
{
    let ghost target = challenge.target_triangle;
    let ghost records = transaction_records(transactions@);
    let ghost mut used: Seq<RoundDraws> = Seq::empty();
    let mut offset: u64 = 0;
    while offset < max_iterations
        invariant
            offset <= max_iterations,
            target == challenge.target_triangle,
            records == transaction_records(transactions@),
            used.len() == offset,
            forall|j: int| 0 <= j < offset && j < draws@.len() ==> used[j] == #[trigger] draws@[j],
            forall|j: int|
                0 <= j < offset ==> round_block(
                    target,
                    challenge.difficulty,
                    records,
                    miner_address@,
                    #[trigger] used[j],
                    start_nonce.wrapping_add(j as u64),
                ) is None,
            offset > 0 ==> BlockRecord::assembled("previous_hash"@, records, miner_address@, challenge.difficulty, 0)
                is Some,
            offset > 0 && challenge.difficulty == 0 ==> !(work_succeeds(target) && work_preserves(target)),
        decreases max_iterations - offset,
    {
        let nonce = start_nonce.wrapping_add(offset);
        let round = draw_round(draws, offset);
        let ghost earlier = used;
        proof {
            used = used.push(round);
        }
        let mut block = match Block::assemble(
            round.time,
            "previous_hash".to_owned(),
            clone_transactions(transactions),
            miner_address.to_owned(),
            challenge.difficulty,
        ) {
            Ok(block) => block,
            Err(e) => {
                let r = Err(e);
                proof {
                    let all = padded(draws@, used, max_iterations);
                    assert(agree_rounds(draws@, all, max_iterations));
                    assert(search_outcome(
                        target,
                        challenge.difficulty,
                        records,
                        miner_address@,
                        start_nonce,
                        max_iterations,
                        all,
                        r,
                    ));
                }
                return r;
            },
        };
        block.set_nonce(nonce);
        match verify_geometric_work_with(challenge, &block, nonce, &round.work) {
            Ok(found) => {
                match seal_block(block, &found, nonce, challenge.difficulty) {
                    Some(shown) => {
                        let r = Ok(shown);
                        proof {
                            let all = padded(draws@, used, max_iterations);
                            assert(agree_rounds(draws@, all, max_iterations));
                            assert(all[offset as int] == round);
                            assert(round_block(
                                target,
                                challenge.difficulty,
                                records,
                                miner_address@,
                                all[offset as int],
                                nonce,
                            ) == Some(shown@));
                            assert forall|i: int| 0 <= i < offset implies round_block(
                                target,
                                challenge.difficulty,
                                records,
                                miner_address@,
                                #[trigger] all[i],
                                start_nonce.wrapping_add(i as u64),
                            ) is None by {
                                assert(all[i] == earlier[i]);
                            }
                            assert(search_outcome(
                                target,
                                challenge.difficulty,
                                records,
                                miner_address@,
                                start_nonce,
                                max_iterations,
                                all,
                                r,
                            ));
                            assert(shown@.nonce == start_nonce.wrapping_add(offset as int as u64));
                        }
                        return r;
                    },
                    None => {},
                }
            },
            Err(_) => {},
        }
        proof {
            assert forall|j: int| 0 <= j < offset + 1 implies round_block(
                target,
                challenge.difficulty,
                records,
                miner_address@,
                #[trigger] used[j],
                start_nonce.wrapping_add(j as u64),
            ) is None by {
                if j < offset {
                    assert(used[j] == earlier[j]);
                }
            }
        }
        offset = offset + 1;
    }
    let r = Err(SierpinskiError::subdivision("Failed to find valid geometric proof"));
    proof {
        assert(agree_rounds(draws@, used, max_iterations));
        assert(search_outcome(
            target,
            challenge.difficulty,
            records,
            miner_address@,
            start_nonce,
            max_iterations,
            used,
            r,
        ));
    }
    r
}

/// What is drawn in the rounds of a search that ended early: what was used,
/// then what `draws` holds for the rounds that were not run, and for the
/// others what was used last.
pub open spec fn padded(draws: Seq<RoundDraws>, used: Seq<RoundDraws>, rounds: u64) -> Seq<RoundDraws> {
    Seq::new(
        rounds as nat,
        |j: int|
            if j < used.len() {
                used[j]
            } else if j < draws.len() {
                draws[j]
            } else {
                used.last()
            },
    )
}

/// What is drawn in round `j` of a search: `draws[j]` where `draws` holds
/// it, and otherwise the reading of the clock and fresh draws for the work.
fn draw_round(draws: &Vec<RoundDraws>, j: u64) -> (r: RoundDraws)
    ensures
        j < draws@.len() ==> r == draws@[j as int],
{
    if j < draws.len() as u64 {
        return draws[j as usize];
    }
    let time = unix_time_now();
    RoundDraws { time, work: fresh_work_draws() }
}

} // verus!
