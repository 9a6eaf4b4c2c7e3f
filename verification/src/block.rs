//! Transactions and blocks.
//!
//! A block commits to its transactions by a merkle root, carries a
//! geometric proof, and is accepted once its hash begins with as many zero
//! digits as its difficulty asks for.

use vstd::prelude::*;
use vstd::bytes::{spec_u32_to_le_bytes, spec_u64_to_le_bytes, u32_to_le_bytes, u64_to_le_bytes};
use vstd::string::*;
use crate::address::{address_text, TriangleAddress};
use crate::clock::unix_time_now;
use crate::decimal::{plus, spec_plus, Decimal};
use crate::errors::{SierpinskiError, SierpinskiResult};
use crate::hashing::{append_bytes, append_text, blake3_hex, count_leading_zeros, digest_hex, is_digest_text, leading_zeros, text_bytes, zero_digest, zero_hash};
use crate::ident::{big_endian_bytes, id_bytes, random_id};
use crate::text::texts;
use crate::triangle::Triangle;

verus! {

/// How far ahead of the clock the time stamp of a transaction may be, in
/// seconds: an hour.
pub const TRANSACTION_TIME_SLACK: u64 = 3600;

/// How far ahead of the clock the time stamp of a block may be, in seconds:
/// two hours.
pub const BLOCK_TIME_SLACK: u64 = 7200;

/// The version written into block headers.
pub const BLOCK_VERSION: u32 = 1;

/// What a transaction does.
#[derive(Debug, Clone, Copy, PartialEq)]
pub enum TriangleOperation {
    /// Makes a triangle.
    Create,
    /// Subdivides a triangle.
    Subdivide,
    /// Hands a triangle to another owner.
    Transfer,
    /// Merges triangles.
    Merge,
    /// Stakes tokens on a region.
    Stake { amount: Decimal },
    /// Claims a mining reward.
    ClaimReward { amount: Decimal },
}

/// A transaction as a mathematical value.
pub struct TransactionRecord {
    pub id: u128,
    pub from_address: Option<Seq<u8>>,
    pub to_address: Seq<u8>,
    pub operation: TriangleOperation,
    pub triangle_data: Option<Triangle>,
    pub signature: Seq<u8>,
    pub timestamp: u64,
    pub gas_fee: Decimal,
}

/// An operation on a triangle, as it is submitted to the chain.
#[derive(Debug, PartialEq)]
pub struct TriangleTransaction {
    /// The identifier of the transaction.
    pub id: u128,
    /// The address of the sender, if there is one.
    pub from_address: Option<TriangleAddress>,
    /// The address of the recipient.
    pub to_address: TriangleAddress,
    /// What the transaction does.
    pub operation: TriangleOperation,
    /// The triangle that the transaction carries, if any.
    pub triangle_data: Option<Triangle>,
    /// The signature, as the wallet attached it.
    pub signature: Vec<u8>,
    /// When the transaction was made, in seconds since the Unix epoch.
    pub timestamp: u64,
    /// The fee paid by the sender.
    pub gas_fee: Decimal,
}

/// The geometric proof of a block.
#[derive(Debug, Clone, PartialEq)]
pub struct GeometricProof {
    pub triangle_hash: String,
    pub subdivision_valid: bool,
    pub area_conservation: bool,
    pub merkle_root: String,
    pub nonce: u64,
    pub difficulty: u32,
}

/// The header of a block.
#[derive(Debug, Clone, PartialEq)]
pub struct BlockHeader {
    pub previous_hash: String,
    pub merkle_root: String,
    pub timestamp: u64,
    pub nonce: u64,
    pub difficulty: u32,
    pub version: u32,
    pub triangle_count: usize,
    pub total_area: Decimal,
}

/// A block of the chain.
#[derive(Debug, PartialEq)]
pub struct Block {
    pub header: BlockHeader,
    pub triangle_transactions: Vec<TriangleTransaction>,
    pub geometric_proof: GeometricProof,
    pub miner_address: String,
    pub block_reward: Decimal,
    pub height: u64,
}

/// A block as a mathematical value.
pub struct BlockRecord {
    pub previous_hash: Seq<char>,
    pub merkle_root: Seq<char>,
    pub timestamp: u64,
    pub nonce: u64,
    pub difficulty: u32,
    pub version: u32,
    pub triangle_count: usize,
    pub total_area: Decimal,
    pub transactions: Seq<TransactionRecord>,
    pub proof_triangle_hash: Seq<char>,
    pub proof_subdivision_valid: bool,
    pub proof_area_conservation: bool,
    pub proof_merkle_root: Seq<char>,
    pub proof_nonce: u64,
    pub proof_difficulty: u32,
    pub miner_address: Seq<char>,
    pub block_reward: Decimal,
    pub height: u64,
}

/// The views of an optional address.
pub open spec fn optional_path(address: Option<TriangleAddress>) -> Option<Seq<u8>> {
    match address {
        Some(a) => Some(a@),
        None => None,
    }
}

/// The records of a sequence of transactions.
pub open spec fn transaction_records(transactions: Seq<TriangleTransaction>) -> Seq<TransactionRecord> {
    transactions.map_values(|t: TriangleTransaction| t@)
}

impl View for TriangleTransaction {
    type V = TransactionRecord;

    open spec fn view(&self) -> TransactionRecord {
        TransactionRecord {
            id: self.id,
            from_address: optional_path(self.from_address),
            to_address: self.to_address@,
            operation: self.operation,
            triangle_data: self.triangle_data,
            signature: self.signature@,
            timestamp: self.timestamp,
            gas_fee: self.gas_fee,
        }
    }
}

impl View for Block {
    type V = BlockRecord;

    open spec fn view(&self) -> BlockRecord {
        BlockRecord {
            previous_hash: self.header.previous_hash@,
            merkle_root: self.header.merkle_root@,
            timestamp: self.header.timestamp,
            nonce: self.header.nonce,
            difficulty: self.header.difficulty,
            version: self.header.version,
            triangle_count: self.header.triangle_count,
            total_area: self.header.total_area,
            transactions: transaction_records(self.triangle_transactions@),
            proof_triangle_hash: self.geometric_proof.triangle_hash@,
            proof_subdivision_valid: self.geometric_proof.subdivision_valid,
            proof_area_conservation: self.geometric_proof.area_conservation,
            proof_merkle_root: self.geometric_proof.merkle_root@,
            proof_nonce: self.geometric_proof.nonce,
            proof_difficulty: self.geometric_proof.difficulty,
            miner_address: self.miner_address@,
            block_reward: self.block_reward,
            height: self.height,
        }
    }
}

impl Clone for TriangleTransaction {
    fn clone(&self) -> (r: TriangleTransaction)
        ensures
            r@ == self@,
    {
        let signature = self.signature.clone();
        assert(signature@ =~= self.signature@);
        TriangleTransaction {
            id: self.id,
            from_address: match &self.from_address {
                Some(a) => Some(a.clone()),
                None => None,
            },
            to_address: self.to_address.clone(),
            operation: self.operation,
            triangle_data: self.triangle_data,
            signature,
            timestamp: self.timestamp,
            gas_fee: self.gas_fee,
        }
    }
}

impl Clone for Block {
    fn clone(&self) -> (r: Block)
        ensures
            r@ == self@,
    {
        let transactions = clone_transactions(&self.triangle_transactions);
        Block {
            header: BlockHeader {
                previous_hash: self.header.previous_hash.clone(),
                merkle_root: self.header.merkle_root.clone(),
                timestamp: self.header.timestamp,
                nonce: self.header.nonce,
                difficulty: self.header.difficulty,
                version: self.header.version,
                triangle_count: self.header.triangle_count,
                total_area: self.header.total_area,
            },
            triangle_transactions: transactions,
            geometric_proof: GeometricProof {
                triangle_hash: self.geometric_proof.triangle_hash.clone(),
                subdivision_valid: self.geometric_proof.subdivision_valid,
                area_conservation: self.geometric_proof.area_conservation,
                merkle_root: self.geometric_proof.merkle_root.clone(),
                nonce: self.geometric_proof.nonce,
                difficulty: self.geometric_proof.difficulty,
            },
            miner_address: self.miner_address.clone(),
            block_reward: self.block_reward,
            height: self.height,
        }
    }
}

/// A copy of the transactions.
pub fn clone_transactions(transactions: &Vec<TriangleTransaction>) -> (r: Vec<TriangleTransaction>)
    ensures
        transaction_records(r@) == transaction_records(transactions@),
{
    let mut copy: Vec<TriangleTransaction> = Vec::new();
    let mut i: usize = 0;
    while i < transactions.len()
        invariant
            i <= transactions.len(),
            copy@.len() == i,
            forall|k: int| 0 <= k < i ==> (#[trigger] copy@[k])@ == transactions@[k]@,
        decreases transactions.len() - i,
    {
        copy.push(transactions[i].clone());
        i = i + 1;
    }
    assert(transaction_records(copy@) =~= transaction_records(transactions@));
    copy
}

impl TransactionRecord {
    /// The bytes that the hash of the transaction is taken of: the
    /// identifier, the time stamp, the text of the sender's address where
    /// there is one, the text of the recipient's address, and the
    /// fingerprint of the triangle where one is carried.
    pub open spec fn hash_input(self) -> Seq<u8> {
        big_endian_bytes(self.id) + spec_u64_to_le_bytes(self.timestamp) + (match self.from_address {
            Some(from) => text_bytes(address_text(from)),
            None => Seq::<u8>::empty(),
        }) + text_bytes(address_text(self.to_address)) + (match self.triangle_data {
            Some(triangle) => text_bytes(triangle.spec_hash()),
            None => Seq::<u8>::empty(),
        })
    }

    /// The hash of the transaction.
    pub open spec fn spec_hash(self) -> Seq<char> {
        blake3_hex(self.hash_input())
    }

    /// Whether the time stamp is more than an hour ahead of `now`.
    pub open spec fn too_early(self, now: u64) -> bool {
        self.timestamp > now + TRANSACTION_TIME_SLACK
    }

    /// What is wrong with the transaction at time `now`: the first of the
    /// checks, in their order, that it fails. `None` for a transaction that
    /// is in order.
    pub open spec fn fault(self, now: u64) -> Option<Seq<char>> {
        if self.too_early(now) {
            Some("Transaction timestamp too far in future"@)
        } else {
            self.lasting_fault()
        }
    }

    /// What is wrong with the transaction whatever the time.
    pub open spec fn lasting_fault(self) -> Option<Seq<char>> {
        if self.gas_fee.negative() {
            Some("Gas fee cannot be negative"@)
        } else {
            match self.operation {
                TriangleOperation::Create => if self.triangle_data is None {
                    Some("Create operation requires triangle data"@)
                } else {
                    None
                },
                TriangleOperation::Transfer => if self.from_address is None {
                    Some("Transfer requires from address"@)
                } else {
                    None
                },
                TriangleOperation::Stake { amount } => if !amount.positive() {
                    Some("Stake amount must be positive"@)
                } else {
                    None
                },
                _ => None,
            }
        }
    }

    /// Whether the transaction makes a triangle: whether it is a `Create`
    /// that carries one.
    pub open spec fn creates(self) -> bool {
        self.operation == TriangleOperation::Create && self.triangle_data is Some
    }
}

/// Whether `r` reports `fault`: `Ok(true)` for none, and otherwise a
/// `ValidationError` with the fault as its message.
pub open spec fn reports(r: SierpinskiResult<bool>, fault: Option<Seq<char>>) -> bool {
    match fault {
        None => r == Ok::<bool, SierpinskiError>(true),
        Some(text) => r matches Err(SierpinskiError::ValidationError { message }) && message@ == text,
    }
}

/// The hash of an inner node of the merkle tree: the hash of the texts of
/// its two children, one after the other.
pub open spec fn node_digest(left: Seq<char>, right: Seq<char>) -> Seq<char> {
    blake3_hex(text_bytes(left) + text_bytes(right))
}

/// The level of the merkle tree above `hashes`: the hashes are combined in
/// pairs, and a hash left over at the end is paired with itself.
pub open spec fn next_level(hashes: Seq<Seq<char>>) -> Seq<Seq<char>> {
    Seq::new(
        ((hashes.len() + 1) / 2) as nat,
        |i: int|
            node_digest(
                hashes[2 * i],
                if 2 * i + 1 < hashes.len() {
                    hashes[2 * i + 1]
                } else {
                    hashes[2 * i]
                },
            ),
    )
}

/// The root of the merkle tree over `hashes`: the zero digest for none, the
/// hash itself for one, and otherwise the root over the next level.
pub open spec fn merkle_fold(hashes: Seq<Seq<char>>) -> Seq<char>
    decreases hashes.len(),
{
    if hashes.len() == 0 {
        zero_digest()
    } else if hashes.len() == 1 {
        hashes[0]
    } else {
        merkle_fold(next_level(hashes))
    }
}

/// The hashes of the transactions.
pub open spec fn leaf_hashes(transactions: Seq<TransactionRecord>) -> Seq<Seq<char>> {
    transactions.map_values(|t: TransactionRecord| t.spec_hash())
}

/// The merkle root of the transactions.
pub open spec fn merkle_root_of(transactions: Seq<TransactionRecord>) -> Seq<char> {
    merkle_fold(leaf_hashes(transactions))
}

/// The areas of the triangles that `Create` transactions carry, added up
/// from zero in the order of the transactions.
pub open spec fn created_area(transactions: Seq<TransactionRecord>) -> Option<Decimal>
    decreases transactions.len(),
{
    if transactions.len() == 0 {
        Some(Decimal::from_pair(0, 0))
    } else if transactions.last().creates() {
        spec_plus(created_area(transactions.drop_last()), transactions.last().triangle_data->0.spec_area())
    } else {
        created_area(transactions.drop_last())
    }
}

/// The fingerprints of the triangles that the transactions carry, as bytes,
/// one after the other.
pub open spec fn carried_fingerprints(transactions: Seq<TransactionRecord>) -> Seq<u8>
    decreases transactions.len(),
{
    if transactions.len() == 0 {
        Seq::<u8>::empty()
    } else {
        carried_fingerprints(transactions.drop_last()) + (match transactions.last().triangle_data {
            Some(triangle) => text_bytes(triangle.spec_hash()),
            None => Seq::<u8>::empty(),
        })
    }
}

/// The reward for a block of `count` transactions mined at `difficulty`:
/// fifty, and a hundredth of the difficulty, and a tenth for each
/// transaction. `None` where a step overflows.
pub open spec fn reward_for(difficulty: u32, count: nat) -> Option<Decimal> {
    spec_plus(
        spec_plus(
            Some(Decimal::from_pair(50, 0)),
            Decimal::from_pair(difficulty as int, 0).spec_div(Decimal::from_pair(100, 0)),
        ),
        Some(Decimal::from_pair(count as int, 1)),
    )
}

/// The first fault among the transactions at time `now`, in their order.
pub open spec fn first_fault(transactions: Seq<TransactionRecord>, now: u64) -> Option<Seq<char>>
    decreases transactions.len(),
{
    if transactions.len() == 0 {
        None
    } else {
        match transactions[0].fault(now) {
            Some(text) => Some(text),
            None => first_fault(transactions.drop_first(), now),
        }
    }
}

impl BlockRecord {
    /// The bytes that the hash of the block is taken of: the previous hash,
    /// the merkle root, the time stamp, the nonce, the difficulty, and the
    /// triangle hash of the proof.
    pub open spec fn hash_input(self) -> Seq<u8> {
        text_bytes(self.previous_hash) + text_bytes(self.merkle_root) + spec_u64_to_le_bytes(self.timestamp)
            + spec_u64_to_le_bytes(self.nonce) + spec_u32_to_le_bytes(self.difficulty) + text_bytes(
            self.proof_triangle_hash,
        )
    }

    /// The hash of the block.
    pub open spec fn spec_hash(self) -> Seq<char> {
        blake3_hex(self.hash_input())
    }

    /// Whether the hash of the block begins with at least as many zero
    /// digits as its difficulty asks for.
    pub open spec fn meets_target(self) -> bool {
        leading_zeros(self.spec_hash()) >= self.difficulty
    }

    /// The block with `nonce` in its header and in its proof.
    pub open spec fn with_nonce(self, nonce: u64) -> BlockRecord {
        BlockRecord { nonce, proof_nonce: nonce, ..self }
    }

    /// What is wrong with the block at time `now`: the first fault of a
    /// transaction, a merkle root that is not that of the transactions, a
    /// proof that does not vouch for the subdivision, or a time stamp more
    /// than two hours ahead. `None` for a block that is in order.
    pub open spec fn fault(self, now: u64) -> Option<Seq<char>> {
        match first_fault(self.transactions, now) {
            Some(text) => Some(text),
            None => if merkle_root_of(self.transactions) != self.merkle_root {
                Some("Invalid Merkle root"@)
            } else if !self.proof_subdivision_valid {
                Some("Invalid subdivision proof"@)
            } else if self.timestamp > now + BLOCK_TIME_SLACK {
                Some("Block timestamp too far in future"@)
            } else {
                None
            },
        }
    }

    /// The block that is put together at time `now` from the given parts,
    /// before any nonce has been tried and before it has a height. `None`
    /// where the total area or the reward overflows.
    pub open spec fn assembled(
        previous_hash: Seq<char>,
        transactions: Seq<TransactionRecord>,
        miner_address: Seq<char>,
        difficulty: u32,
        now: u64,
    ) -> Option<BlockRecord> {
        match (created_area(transactions), reward_for(difficulty, transactions.len())) {
            (Some(total_area), Some(block_reward)) => Some(
                BlockRecord {
                    previous_hash,
                    merkle_root: merkle_root_of(transactions),
                    timestamp: now,
                    nonce: 0,
                    difficulty,
                    version: BLOCK_VERSION,
                    triangle_count: transactions.len() as usize,
                    total_area,
                    transactions,
                    proof_triangle_hash: blake3_hex(carried_fingerprints(transactions)),
                    proof_subdivision_valid: true,
                    proof_area_conservation: true,
                    proof_merkle_root: merkle_root_of(transactions),
                    proof_nonce: 0,
                    proof_difficulty: difficulty,
                    miner_address,
                    block_reward,
                    height: 0,
                },
            ),
            _ => None,
        }
    }
}

impl TriangleTransaction {
    /// A transaction with a fresh identifier, made now, not yet signed.
    pub fn new(
        from: Option<TriangleAddress>,
        to: TriangleAddress,
        operation: TriangleOperation,
        triangle: Option<Triangle>,
        gas_fee: Decimal,
    ) -> (r: TriangleTransaction)
        ensures
            r@ == (TransactionRecord {
                id: r.id,
                from_address: optional_path(from),
                to_address: to@,
                operation,
                triangle_data: triangle,
                signature: Seq::<u8>::empty(),
                timestamp: r.timestamp,
                gas_fee,
            }),
    {
        TriangleTransaction::with_identity(random_id(), unix_time_now(), from, to, operation, triangle, gas_fee)
    }

    /// A transaction with the given identifier, made at `now`, not yet
    /// signed.
    pub fn with_identity(
        id: u128,
        now: u64,
        from: Option<TriangleAddress>,
        to: TriangleAddress,
        operation: TriangleOperation,
        triangle: Option<Triangle>,
        gas_fee: Decimal,
    ) -> (r: TriangleTransaction)
        ensures
            r@ == (TransactionRecord {
                id,
                from_address: optional_path(from),
                to_address: to@,
                operation,
                triangle_data: triangle,
                signature: Seq::<u8>::empty(),
                timestamp: now,
                gas_fee,
            }),
    {
        TriangleTransaction {
            id,
            from_address: from,
            to_address: to,
            operation,
            triangle_data: triangle,
            signature: Vec::new(),
            timestamp: now,
            gas_fee,
        }
    }

    /// The hash of the transaction.
    pub fn hash(&self) -> (r: String)
        ensures
            r@ == self@.spec_hash(),
            is_digest_text(r@),
    {
        let mut buffer = id_bytes(self.id);
        let stamp = u64_to_le_bytes(self.timestamp);
        append_bytes(&mut buffer, &stamp);
        match &self.from_address {
            Some(from) => {
                let text = from.to_string_representation();
                append_text(&mut buffer, text.as_str());
            },
            None => {},
        }
        let to = self.to_address.to_string_representation();
        append_text(&mut buffer, to.as_str());
        match &self.triangle_data {
            Some(triangle) => {
                let fingerprint = triangle.hash();
                append_text(&mut buffer, fingerprint.as_str());
            },
            None => {},
        }
        assert(buffer@ =~= self@.hash_input());
        digest_hex(buffer.as_slice())
    }

    /// Checks the transaction against the clock: its time stamp may be at
    /// most an hour ahead, its fee may not be negative, a `Create` must
    /// carry a triangle, a `Transfer` must name a sender, and a `Stake` must
    /// stake a positive amount. The signature is not looked at.
    ///
    /// Fails with `ValidationError`, which names the first check that
    /// failed.
    pub fn validate(&self) -> (r: SierpinskiResult<bool>)
        ensures
            exists|now: u64| reports(r, #[trigger] self@.fault(now)),
            r is Ok ==> self@.lasting_fault() is None,
    {
        self.validate_at(unix_time_now())
    }

    /// Checks the transaction as [`TriangleTransaction::validate`] does,
    /// with `now` as the reading of the clock.
    pub fn validate_at(&self, now: u64) -> (r: SierpinskiResult<bool>)
        ensures
            reports(r, self@.fault(now)),
    {
        if now <= u64::MAX - TRANSACTION_TIME_SLACK && self.timestamp > now + TRANSACTION_TIME_SLACK {
            return Err(SierpinskiError::validation("Transaction timestamp too far in future"));
        }
        if self.gas_fee.is_negative() {
            return Err(SierpinskiError::validation("Gas fee cannot be negative"));
        }
        match self.operation {
            TriangleOperation::Create => {
                if self.triangle_data.is_none() {
                    return Err(SierpinskiError::validation("Create operation requires triangle data"));
                }
            },
            TriangleOperation::Transfer => {
                if self.from_address.is_none() {
                    return Err(SierpinskiError::validation("Transfer requires from address"));
                }
            },
            TriangleOperation::Stake { amount } => {
                if !amount.is_positive() {
                    return Err(SierpinskiError::validation("Stake amount must be positive"));
                }
            },
            _ => {},
        }
        Ok(true)
    }
}

/// Combines the hashes of two children into the hash of their parent.
pub fn combine_hashes(left: &str, right: &str) -> (r: String)
    ensures
        r@ == node_digest(left@, right@),
        is_digest_text(r@),
{
    let mut buffer: Vec<u8> = Vec::new();
    append_text(&mut buffer, left);
    append_text(&mut buffer, right);
    assert(buffer@ =~= text_bytes(left@) + text_bytes(right@));
    digest_hex(buffer.as_slice())
}

/// The merkle root over the given leaf hashes.
pub fn fold_merkle(leaves: Vec<String>) -> (r: String)
    ensures
        r@ == merkle_fold(texts(leaves@)),
{
    let ghost start = texts(leaves@);
    let mut hashes = leaves;
    while hashes.len() > 1
        invariant
            merkle_fold(texts(hashes@)) == merkle_fold(start),
        decreases hashes.len(),
    {
        let ghost level = texts(hashes@);
        let len = hashes.len();
        let pairs = len / 2 + len % 2;
        let mut next: Vec<String> = Vec::new();
        let mut k: usize = 0;
        while k < pairs
            invariant
                len == hashes.len(),
                len > 1,
                level == texts(hashes@),
                pairs == (len + 1) / 2,
                k <= pairs,
                next@.len() == k,
                forall|i: int| 0 <= i < k ==> (#[trigger] next@[i])@ == next_level(level)[i],
            decreases pairs - k,
        {
            let left = 2 * k;
            let node = if left + 1 < len {
                combine_hashes(hashes[left].as_str(), hashes[left + 1].as_str())
            } else {
                combine_hashes(hashes[left].as_str(), hashes[left].as_str())
            };
            next.push(node);
            k = k + 1;
        }
        assert(texts(next@) =~= next_level(level));
        hashes = next;
    }
    if hashes.len() == 0 {
        zero_hash()
    } else {
        hashes[0].clone()
    }
}

/// The reward for a block of `count` transactions mined at `difficulty`:
/// fifty tokens, a hundredth of the difficulty, and a tenth of a token for
/// each transaction. `None` where a step overflows.
pub fn block_reward(difficulty: u32, count: usize) -> (r: Option<Decimal>)
    ensures
        r == reward_for(difficulty, count as nat),
{
    let base = Decimal::new(50, 0);
    let share = Decimal::from_unsigned(difficulty as u64, 0).checked_div(Decimal::new(100, 0));
    let bonus = Decimal::from_unsigned(count as u64, 1);
    plus(plus(Some(base), share), Some(bonus))
}

impl Block {
    /// A block made now from the given transactions, chained to
    /// `previous_hash`. Its nonce is zero and its height is zero until the
    /// chain sets them.
    ///
    /// Fails with `ArithmeticOverflow` where the total area or the reward
    /// overflows.
    pub fn new(
        previous_hash: String,
        transactions: Vec<TriangleTransaction>,
        miner_address: String,
        difficulty: u32,
    ) -> (r: SierpinskiResult<Block>)
        ensures
            match r {
                Ok(block) => BlockRecord::assembled(
                    previous_hash@,
                    transaction_records(transactions@),
                    miner_address@,
                    difficulty,
                    block.header.timestamp,
                ) == Some(block@),
                Err(e) => e == SierpinskiError::ArithmeticOverflow && BlockRecord::assembled(
                    previous_hash@,
                    transaction_records(transactions@),
                    miner_address@,
                    difficulty,
                    0,
                ) is None,
            },
    {
        Block::assemble(unix_time_now(), previous_hash, transactions, miner_address, difficulty)
    }

    /// The block that [`Block::new`] makes when the clock reads `now`.
    pub fn assemble(
        now: u64,
        previous_hash: String,
        transactions: Vec<TriangleTransaction>,
        miner_address: String,
        difficulty: u32,
    ) -> (r: SierpinskiResult<Block>)
        ensures
            match BlockRecord::assembled(
                previous_hash@,
                transaction_records(transactions@),
                miner_address@,
                difficulty,
                now,
            ) {
                Some(record) => r matches Ok(block) && block@ == record,
                None => r == Err::<Block, SierpinskiError>(SierpinskiError::ArithmeticOverflow),
            },
    {
        let merkle_root = Block::calculate_merkle_root(&transactions);
        let triangle_count = transactions.len();
        let total_area = Block::calculate_total_area(&transactions);
        let reward = block_reward(difficulty, triangle_count);
        let triangle_hash = Block::calculate_triangle_hash(&transactions);
        match (total_area, reward) {
            (Some(total_area), Some(reward)) => Ok(
                Block {
                    header: BlockHeader {
                        previous_hash,
                        merkle_root: merkle_root.clone(),
                        timestamp: now,
                        nonce: 0,
                        difficulty,
                        version: BLOCK_VERSION,
                        triangle_count,
                        total_area,
                    },
                    triangle_transactions: transactions,
                    geometric_proof: GeometricProof {
                        triangle_hash,
                        subdivision_valid: true,
                        area_conservation: true,
                        merkle_root,
                        nonce: 0,
                        difficulty,
                    },
                    miner_address,
                    block_reward: reward,
                    height: 0,
                },
            ),
            _ => Err(SierpinskiError::ArithmeticOverflow),
        }
    }

    /// The merkle root of the transactions: their hashes are the leaves,
    /// pairs are hashed together level by level, a leaf left over being
    /// paired with itself, until one hash is left. No transactions give the
    /// text of 64 zeros.
    pub fn calculate_merkle_root(transactions: &Vec<TriangleTransaction>) -> (r: String)
        ensures
            r@ == merkle_root_of(transaction_records(transactions@)),
    {
        let ghost records = transaction_records(transactions@);
        let mut leaves: Vec<String> = Vec::new();
        let mut i: usize = 0;
        while i < transactions.len()
            invariant
                records == transaction_records(transactions@),
                i <= transactions.len(),
                leaves@.len() == i,
                forall|k: int| 0 <= k < i ==> (#[trigger] leaves@[k])@ == records[k].spec_hash(),
            decreases transactions.len() - i,
        {
            leaves.push(transactions[i].hash());
            i = i + 1;
        }
        assert(texts(leaves@) =~= leaf_hashes(records));
        fold_merkle(leaves)
    }

    /// The areas of the triangles that `Create` transactions carry, added
    /// up; `None` where the sum overflows.
    pub fn calculate_total_area(transactions: &Vec<TriangleTransaction>) -> (r: Option<Decimal>)
        ensures
            r == created_area(transaction_records(transactions@)),
    {
        let ghost records = transaction_records(transactions@);
        let mut total = Some(Decimal::zero());
        let mut i: usize = 0;
        while i < transactions.len()
            invariant
                records == transaction_records(transactions@),
                i <= transactions.len(),
                total == created_area(records.subrange(0, i as int)),
            decreases transactions.len() - i,
        {
            proof {
                let next = records.subrange(0, i + 1);
                assert(next.drop_last() =~= records.subrange(0, i as int));
                assert(next.last() == transactions@[i as int]@);
            }
            let transaction = &transactions[i];
            match (transaction.operation, &transaction.triangle_data) {
                (TriangleOperation::Create, Some(triangle)) => {
                    let area = match triangle.area() {
                        Ok(a) => Some(a),
                        Err(_) => None,
                    };
                    total = plus(total, area);
                },
                _ => {},
            }
            i = i + 1;
        }
        assert(records.subrange(0, i as int) =~= records);
        total
    }

    /// The hash of the fingerprints of all triangles that the transactions
    /// carry.
    pub fn calculate_triangle_hash(transactions: &Vec<TriangleTransaction>) -> (r: String)
        ensures
            r@ == blake3_hex(carried_fingerprints(transaction_records(transactions@))),
            is_digest_text(r@),
    {
        let ghost records = transaction_records(transactions@);
        let mut buffer: Vec<u8> = Vec::new();
        let mut i: usize = 0;
        while i < transactions.len()
            invariant
                records == transaction_records(transactions@),
                i <= transactions.len(),
                buffer@ == carried_fingerprints(records.subrange(0, i as int)),
            decreases transactions.len() - i,
        {
            proof {
                let next = records.subrange(0, i + 1);
                assert(next.drop_last() =~= records.subrange(0, i as int));
                assert(next.last() == transactions@[i as int]@);
            }
            match &transactions[i].triangle_data {
                Some(triangle) => {
                    let fingerprint = triangle.hash();
                    append_text(&mut buffer, fingerprint.as_str());
                },
                None => {
                    assert(buffer@ + Seq::<u8>::empty() =~= buffer@);
                },
            }
            i = i + 1;
        }
        assert(records.subrange(0, i as int) =~= records);
        digest_hex(buffer.as_slice())
    }

    /// The hash of the block: of its previous hash, its merkle root, its
    /// time stamp, its nonce, its difficulty, and the triangle hash of its
    /// proof.
    pub fn hash(&self) -> (r: String)
        ensures
            r@ == self@.spec_hash(),
            is_digest_text(r@),
    {
        let mut buffer: Vec<u8> = Vec::new();
        append_text(&mut buffer, self.header.previous_hash.as_str());
        append_text(&mut buffer, self.header.merkle_root.as_str());
        let stamp = u64_to_le_bytes(self.header.timestamp);
        append_bytes(&mut buffer, &stamp);
        let nonce = u64_to_le_bytes(self.header.nonce);
        append_bytes(&mut buffer, &nonce);
        let difficulty = u32_to_le_bytes(self.header.difficulty);
        append_bytes(&mut buffer, &difficulty);
        append_text(&mut buffer, self.geometric_proof.triangle_hash.as_str());
        assert(buffer@ =~= self@.hash_input());
        digest_hex(buffer.as_slice())
    }

    /// Checks the block against the clock: every transaction must be in
    /// order, the merkle root must be that of the transactions, the proof
    /// must vouch for the subdivision, and the time stamp may be at most two
    /// hours ahead.
    ///
    /// Fails with `ValidationError`, which names the first check that
    /// failed.
    pub fn validate(&self) -> (r: SierpinskiResult<bool>)
        ensures
            exists|now: u64| reports(r, #[trigger] self@.fault(now)),
    {
        self.validate_at(unix_time_now())
    }

    /// Checks the block as [`Block::validate`] does, with `now` as the
    /// reading of the clock.
    pub fn validate_at(&self, now: u64) -> (r: SierpinskiResult<bool>)
        ensures
            reports(r, self@.fault(now)),
    {
        let ghost records = self@.transactions;
        let mut i: usize = 0;
        assert(records.skip(0) =~= records);
        while i < self.triangle_transactions.len()
            invariant
                records == transaction_records(self.triangle_transactions@),
                i <= self.triangle_transactions.len(),
                first_fault(records, now) == first_fault(records.skip(i as int), now),
            decreases self.triangle_transactions.len() - i,
        {
            assert(records.skip(i as int)[0] == self.triangle_transactions@[i as int]@);
            assert(records.skip(i as int).drop_first() =~= records.skip(i + 1));
            match self.triangle_transactions[i].validate_at(now) {
                Ok(_) => {},
                Err(e) => {
                    return Err(e);
                },
            }
            i = i + 1;
        }
        let merkle_root = Block::calculate_merkle_root(&self.triangle_transactions);
        if merkle_root != self.header.merkle_root {
            return Err(SierpinskiError::validation("Invalid Merkle root"));
        }
        if !self.geometric_proof.subdivision_valid {
            return Err(SierpinskiError::validation("Invalid subdivision proof"));
        }
        if now <= u64::MAX - BLOCK_TIME_SLACK && self.header.timestamp > now + BLOCK_TIME_SLACK {
            return Err(SierpinskiError::validation("Block timestamp too far in future"));
        }
        Ok(true)
    }

    /// Whether the hash of the block begins with at least as many `0`
    /// characters as the difficulty of the block asks for. The difficulty
    /// counts hexadecimal digits, not bits.
    pub fn meets_difficulty_target(&self) -> (r: bool)
        ensures
            r == self@.meets_target(),
            r == (leading_zeros(self@.spec_hash()) >= self.header.difficulty),
    {
        let hash = self.hash();
        count_leading_zeros(hash.as_str()) >= self.header.difficulty as usize
    }

    /// Tries the nonces from zero up to `limit` and stops at the first for
    /// which the hash of the block meets its difficulty. Tells whether there
    /// was one; where there was none, the block is left with the nonce
    /// `limit`.
    pub fn search_nonce(&mut self, limit: u64) -> (found: bool)
        ensures
            final(self)@ == old(self)@.with_nonce(final(self)@.nonce),
            final(self)@.nonce <= limit,
            found == final(self)@.meets_target(),
            forall|n: u64| n < final(self)@.nonce ==> !(#[trigger] old(self)@.with_nonce(n)).meets_target(),
            !found ==> final(self)@.nonce == limit,
    {
        let mut nonce: u64 = 0;
        loop
            invariant
                nonce <= limit,
                self@.with_nonce(nonce) == old(self)@.with_nonce(nonce),
                forall|n: u64| n < nonce ==> !(#[trigger] old(self)@.with_nonce(n)).meets_target(),
            decreases limit - nonce,
        {
            self.set_nonce(nonce);
            if self.meets_difficulty_target() {
                return true;
            }
            if nonce >= limit {
                return false;
            }
            nonce = nonce + 1;
        }
    }

    /// Writes `nonce` into the header and into the proof.
    pub fn set_nonce(&mut self, nonce: u64)
        ensures
            final(self)@ == old(self)@.with_nonce(nonce),
    {
        self.header.nonce = nonce;
        self.geometric_proof.nonce = nonce;
    }
}

} // verus!
