//! The chain of blocks and the state it carries.
//!
//! The chain begins with a genesis block and grows by one block at a time.
//! Every block names the hash of the block before it, and its height is its
//! place in the chain. Both hold of every chain, whatever was done to it.

use vstd::prelude::*;
use vstd::string::*;
use crate::address::{address_text, TriangleAddress};
use crate::block::{clone_transactions, transaction_records, Block, BlockRecord, TransactionRecord, TriangleOperation, TriangleTransaction};
use crate::clock::unix_time_now;
use crate::decimal::Decimal;
use crate::errors::{SierpinskiError, SierpinskiResult};
use crate::fractal::{added, is_refusal, lookup, state_answer, with_state, FractalStructure, FractalTriangle, TriangleRecord};
use crate::genesis::genesis_fractal_triangle;
use crate::hashing::{zero_digest, zero_hash};
use crate::ident::random_id;
use crate::ledger::{balance_of, owned_by, written, Ledger, Registry};
use crate::state::{legal_transition, TriangleState};

verus! {

/// The difficulty a new chain begins with.
pub const INITIAL_DIFFICULTY: u32 = 4;

/// The least difficulty.
pub const MIN_DIFFICULTY: u32 = 1;

/// The greatest difficulty.
pub const MAX_DIFFICULTY: u32 = 20;

/// The number of blocks between two adjustments of the difficulty, and the
/// number of blocks an adjustment looks back over.
pub const RETARGET_INTERVAL: u64 = 10;

/// The time that the blocks of one interval should take, in seconds.
pub const TARGET_WINDOW: u64 = 600;

/// The greatest nonce that is tried for a block.
pub const MAX_NONCE: u64 = 100_000;

/// The number of tokens the genesis block hands out.
pub const GENESIS_SUPPLY: i64 = 1_000_000;

/// The records of a sequence of blocks.
pub open spec fn block_records(blocks: Seq<Block>) -> Seq<BlockRecord> {
    blocks.map_values(|b: Block| b@)
}

/// Whether the blocks form a chain: the first block names the zero digest
/// as its predecessor; every later block names the hash of the block before
/// it; and the height of every block is its place.
pub open spec fn chain_linked(blocks: Seq<BlockRecord>) -> bool {
    &&& blocks.len() > 0 ==> blocks[0].previous_hash == zero_digest()
    &&& forall|i: int| 0 < i < blocks.len() ==> (#[trigger] blocks[i]).previous_hash == blocks[i - 1].spec_hash()
    &&& forall|i: int| 0 <= i < blocks.len() ==> (#[trigger] blocks[i]).height == i
}

/// The difficulty after an adjustment over a window that began at `first`
/// and ended at `last`: one more, and at most 20, where the window took less
/// than half the target time; one less, and at least 1, where it took more
/// than twice the target time; and otherwise the same.
pub open spec fn retargeted(difficulty: u32, first: u64, last: u64) -> u32 {
    if last - first < TARGET_WINDOW / 2 {
        if difficulty >= MAX_DIFFICULTY {
            MAX_DIFFICULTY
        } else {
            (difficulty + 1) as u32
        }
    } else if last - first > TARGET_WINDOW * 2 {
        if difficulty <= MIN_DIFFICULTY + 1 {
            MIN_DIFFICULTY
        } else {
            (difficulty - 1) as u32
        }
    } else {
        difficulty
    }
}

/// The difficulty after a block of height `height` has been applied to a
/// chain of `blocks`: every tenth block adjusts it over the last ten blocks
/// of the chain.
pub open spec fn difficulty_after(difficulty: u32, blocks: Seq<BlockRecord>, height: u64) -> u32 {
    if height % RETARGET_INTERVAL == 0 && height > 0 && blocks.len() >= RETARGET_INTERVAL {
        retargeted(difficulty, blocks[blocks.len() - RETARGET_INTERVAL].timestamp, blocks.last().timestamp)
    } else {
        difficulty
    }
}

/// The law of the adjustment. A window of less than half the time that ten
/// blocks should take raises the difficulty by one, up to the greatest; a
/// window of more than twice that time lowers it by one, down to the
/// least; any other window leaves it. So a difficulty within its bounds
/// stays within them and moves by one at most, on every chain and at every
/// height.
pub proof fn lemma_adjustment(difficulty: u32, first: u64, last: u64, blocks: Seq<BlockRecord>, height: u64)
    requires
        MIN_DIFFICULTY <= difficulty <= MAX_DIFFICULTY,
    ensures
        last - first < 300 ==> retargeted(difficulty, first, last) == if difficulty == 20 {
            20u32
        } else {
            (difficulty + 1) as u32
        },
        last - first > 1200 ==> retargeted(difficulty, first, last) == if difficulty == 1 {
            1u32
        } else {
            (difficulty - 1) as u32
        },
        300 <= last - first <= 1200 ==> retargeted(difficulty, first, last) == difficulty,
        MIN_DIFFICULTY <= retargeted(difficulty, first, last) <= MAX_DIFFICULTY,
        difficulty - 1 <= retargeted(difficulty, first, last) <= difficulty + 1,
        MIN_DIFFICULTY <= difficulty_after(difficulty, blocks, height) <= MAX_DIFFICULTY,
        difficulty - 1 <= difficulty_after(difficulty, blocks, height) <= difficulty + 1,
        blocks.len() < RETARGET_INTERVAL ==> difficulty_after(difficulty, blocks, height) == difficulty,
{
}

/// The name under which the sender of a transaction holds a balance: the
/// text of the sender's address.
pub open spec fn sender_name(transaction: TransactionRecord) -> Option<Seq<char>> {
    match transaction.from_address {
        Some(from) => Some(address_text(from)),
        None => None,
    }
}

/// Why a transaction is not admitted to the mempool at time `now`: its
/// first fault, or a sender whose balance does not cover the fee. `None` for
/// a transaction that is admitted.
pub open spec fn admission_fault(
    transaction: TransactionRecord,
    now: u64,
    balances: Seq<(Seq<char>, Decimal)>,
) -> Option<Seq<char>> {
    match transaction.fault(now) {
        Some(text) => Some(text),
        None => match sender_name(transaction) {
            Some(name) => if balance_of(balances, name).less_than(transaction.gas_fee) {
                Some("Insufficient balance for gas fee"@)
            } else {
                None
            },
            None => None,
        },
    }
}

/// Whether `after` and `r` are what taking `transaction` into the mempool
/// of the chain `before` gives at the time `now`. A transaction that is
/// admitted joins the pending transactions at their end. One that is not is
/// refused with its fault. Nothing else changes either way.
pub open spec fn taken_in(
    before: ChainState,
    after: ChainState,
    transaction: TransactionRecord,
    now: u64,
    r: SierpinskiResult<()>,
) -> bool {
    &&& after == (ChainState { pending: after.pending, ..before })
    &&& match admission_fault(transaction, now, before.accounts) {
        None => r is Ok && after.pending == before.pending.push(transaction),
        Some(text) => after.pending == before.pending && (r matches Err(
            SierpinskiError::ValidationError { message },
        ) && message@ == text),
    }
}

/// The balances after the stake of a transaction has been taken: a `Stake`
/// with a sender whose balance covers the amount lowers that balance by it.
/// `None` where the difference overflows.
pub open spec fn after_stake(
    balances: Seq<(Seq<char>, Decimal)>,
    transaction: TransactionRecord,
) -> Option<Seq<(Seq<char>, Decimal)>> {
    match (transaction.operation, sender_name(transaction)) {
        (TriangleOperation::Stake { amount }, Some(name)) => if amount.at_most(balance_of(balances, name)) {
            match balance_of(balances, name).spec_sub(amount) {
                Some(rest) => Some(written(balances, name, rest)),
                None => None,
            }
        } else {
            Some(balances)
        },
        _ => Some(balances),
    }
}

/// The balances after the fee of a transaction has been taken from its
/// sender, whether or not the balance covers it. `None` where the
/// difference overflows.
pub open spec fn after_fee(
    balances: Seq<(Seq<char>, Decimal)>,
    transaction: TransactionRecord,
) -> Option<Seq<(Seq<char>, Decimal)>> {
    match sender_name(transaction) {
        Some(name) => match balance_of(balances, name).spec_sub(transaction.gas_fee) {
            Some(rest) => Some(written(balances, name, rest)),
            None => None,
        },
        None => Some(balances),
    }
}

/// The balances after a transaction has been applied: first the stake, then
/// the fee.
pub open spec fn balances_after(
    balances: Seq<(Seq<char>, Decimal)>,
    transaction: TransactionRecord,
) -> Option<Seq<(Seq<char>, Decimal)>> {
    match after_stake(balances, transaction) {
        Some(staked) => after_fee(staked, transaction),
        None => None,
    }
}

/// The owners after a transaction has been applied: a `Create` that carries
/// a triangle and a `Transfer` write the sender as the owner of the
/// recipient address.
pub open spec fn owners_after(
    owners: Seq<(Seq<u8>, Seq<char>)>,
    transaction: TransactionRecord,
) -> Seq<(Seq<u8>, Seq<char>)> {
    match sender_name(transaction) {
        Some(name) => if transaction.creates() || transaction.operation == TriangleOperation::Transfer {
            written(owners, transaction.to_address, name)
        } else {
            owners
        },
        None => owners,
    }
}

/// The balances after the transactions have been applied in their order.
pub open spec fn balances_after_all(
    balances: Seq<(Seq<char>, Decimal)>,
    transactions: Seq<TransactionRecord>,
) -> Option<Seq<(Seq<char>, Decimal)>>
    decreases transactions.len(),
{
    if transactions.len() == 0 {
        Some(balances)
    } else {
        match balances_after_all(balances, transactions.drop_last()) {
            Some(before) => balances_after(before, transactions.last()),
            None => None,
        }
    }
}

/// The owners after the transactions have been applied in their order.
pub open spec fn owners_after_all(
    owners: Seq<(Seq<u8>, Seq<char>)>,
    transactions: Seq<TransactionRecord>,
) -> Seq<(Seq<u8>, Seq<char>)>
    decreases transactions.len(),
{
    if transactions.len() == 0 {
        owners
    } else {
        owners_after(owners_after_all(owners, transactions.drop_last()), transactions.last())
    }
}

/// The balances after `reward` has been added to the balance of `miner`.
pub open spec fn credited(
    balances: Seq<(Seq<char>, Decimal)>,
    miner: Seq<char>,
    reward: Decimal,
) -> Option<Seq<(Seq<char>, Decimal)>> {
    match balance_of(balances, miner).spec_add(reward) {
        Some(sum) => Some(written(balances, miner, sum)),
        None => None,
    }
}

/// Whether one of the transactions is a `Subdivide`.
#[verifier::opaque]
pub open spec fn subdivides(transactions: Seq<TransactionRecord>) -> bool {
    exists|k: int|
        0 <= k < transactions.len() && (#[trigger] transactions[k]).operation == TriangleOperation::Subdivide
}

/// Whether the books can take a block: whether neither a stake nor a fee
/// of its transactions overflows, nor the balance of its miner with the
/// reward, nor the supply with the reward.
#[verifier::opaque]
pub open spec fn settles(balances: Seq<(Seq<char>, Decimal)>, supply: Decimal, block: BlockRecord) -> bool {
    &&& supply.spec_add(block.block_reward) is Some
    &&& match balances_after_all(balances, block.transactions) {
        Some(paid) => credited(paid, block.miner_address, block.block_reward) is Some,
        None => false,
    }
}

/// Once a stake or a fee has overflowed, the transactions that follow do
/// not mend it.
pub proof fn lemma_overflow_stays(
    balances: Seq<(Seq<char>, Decimal)>,
    transactions: Seq<TransactionRecord>,
    n: int,
)
    requires
        0 <= n <= transactions.len(),
        balances_after_all(balances, transactions.subrange(0, n)) is None,
    ensures
        balances_after_all(balances, transactions) is None,
    decreases transactions.len() - n,
{
    if n < transactions.len() {
        assert(transactions.subrange(0, n + 1).drop_last() =~= transactions.subrange(0, n));
        lemma_overflow_stays(balances, transactions, n + 1);
    } else {
        assert(transactions.subrange(0, n) =~= transactions);
    }
}

/// Whether `id` is the identifier of one of the transactions.
pub open spec fn names_one_of(transactions: Seq<TransactionRecord>, id: u128) -> bool {
    exists|k: int| 0 <= k < transactions.len() && (#[trigger] transactions[k]).id == id
}

/// The pending transactions without those whose identifier is that of a
/// mined one, in their order.
pub open spec fn without_mined(
    pending: Seq<TransactionRecord>,
    mined: Seq<TransactionRecord>,
) -> Seq<TransactionRecord>
    decreases pending.len(),
{
    if pending.len() == 0 {
        Seq::<TransactionRecord>::empty()
    } else if names_one_of(mined, pending.last().id) {
        without_mined(pending.drop_last(), mined)
    } else {
        without_mined(pending.drop_last(), mined).push(pending.last())
    }
}

/// The number of transactions in the blocks, as far as `usize` holds it.
pub open spec fn transactions_in(blocks: Seq<BlockRecord>) -> int
    decreases blocks.len(),
{
    if blocks.len() == 0 {
        0
    } else {
        let sum = transactions_in(blocks.drop_last()) + blocks.last().transactions.len();
        if sum > usize::MAX {
            usize::MAX as int
        } else {
            sum
        }
    }
}

/// The greater of two depths.
pub open spec fn deeper(a: u8, b: u8) -> u8 {
    if b > a {
        b
    } else {
        a
    }
}

/// The greatest depth of the fractal after a transaction has been applied:
/// a `Create` that carries a triangle adds it at the depth of the recipient
/// address.
pub open spec fn depth_after(depth: u8, transaction: TransactionRecord) -> u8 {
    if transaction.creates() {
        deeper(depth, (transaction.to_address.len() % 256) as u8)
    } else {
        depth
    }
}

/// The greatest depth of the fractal after the transactions have been
/// applied.
pub open spec fn depth_after_all(depth: u8, transactions: Seq<TransactionRecord>) -> u8
    decreases transactions.len(),
{
    if transactions.len() == 0 {
        depth
    } else {
        depth_after(depth_after_all(depth, transactions.drop_last()), transactions.last())
    }
}

/// The triangles of the fractal after a transaction has been applied for
/// which the identifier `id` was drawn at the time `now`. A `Create` that
/// carries a triangle adds it as an active triangle at the recipient
/// address, under that identifier. A `Subdivide` marks the triangle with
/// that identifier as subdivided, where the fractal holds it and its state
/// allows that; as the identifier is fresh, it will as a rule hold none.
/// Every other transaction leaves the triangles alone.
pub open spec fn triangles_after(
    triangles: Seq<TriangleRecord>,
    transaction: TransactionRecord,
    id: u128,
    now: u64,
) -> Seq<TriangleRecord> {
    if transaction.creates() {
        added(
            triangles,
            TriangleRecord::fresh(
                id,
                now,
                transaction.triangle_data->0,
                TriangleState::Active,
                transaction.to_address,
                (transaction.to_address.len() % 256) as u8,
            ),
        )
    } else if transaction.operation == TriangleOperation::Subdivide {
        with_state(triangles, id, TriangleState::Subdivided, now)
    } else {
        triangles
    }
}

/// Whether a `Subdivide` for which the identifier `id` was drawn is
/// refused: whether the fractal holds a triangle with that identifier in a
/// state that cannot become `Subdivided`.
pub open spec fn subdivide_refused(triangles: Seq<TriangleRecord>, transaction: TransactionRecord, id: u128) -> bool {
    &&& transaction.operation == TriangleOperation::Subdivide
    &&& lookup(triangles, id) matches Some(t) && !legal_transition(t.state, TriangleState::Subdivided)
}

/// A chain as a mathematical value.
pub struct ChainState {
    /// The blocks, the genesis block first.
    pub chain: Seq<BlockRecord>,
    /// The pending transactions, the oldest first.
    pub pending: Seq<TransactionRecord>,
    /// The difficulty the next block is mined at.
    pub difficulty: u32,
    /// The number of tokens handed out.
    pub supply: Decimal,
    /// The balances by account.
    pub accounts: Seq<(Seq<char>, Decimal)>,
    /// The owners by triangle address.
    pub owners: Seq<(Seq<u8>, Seq<char>)>,
    /// The triangles of the fractal.
    pub triangles: Seq<TriangleRecord>,
    /// The identifier of the genesis triangle of the fractal, if it has one.
    pub genesis: Option<u128>,
    /// The greatest depth of a triangle that was added to the fractal.
    pub depth: u8,
}

/// Why a transaction or a block cannot be applied.
pub enum Failure {
    /// A balance or the supply overflows.
    Overflow,
    /// A `Subdivide` names a triangle in the state `from`, which cannot
    /// become `Subdivided`.
    Refused { from: TriangleState },
}

/// Whether `e` is the error for `failure`: `ArithmeticOverflow` for an
/// overflow, and the `StateTransitionError` that names both states for a
/// refusal.
pub open spec fn is_failure(e: SierpinskiError, failure: Failure) -> bool {
    match failure {
        Failure::Overflow => e == SierpinskiError::ArithmeticOverflow,
        Failure::Refused { from } => is_refusal(e, from, TriangleState::Subdivided),
    }
}

/// Whether `r` tells of `failure`: `Ok` for none, and otherwise its error.
pub open spec fn tells(r: SierpinskiResult<()>, failure: Option<Failure>) -> bool {
    match failure {
        None => r is Ok,
        Some(f) => r matches Err(e) && is_failure(e, f),
    }
}

/// The chain after a transaction has been applied to `before`, where the
/// identifier `id` was drawn for it at the time `now`, and why it could not
/// be applied in full, if it could not.
///
/// The blocks, the pending transactions, the difficulty and the supply stay.
/// A `Subdivide` that is refused changes nothing. Every other transaction
/// takes effect on the triangles and on the owners; then the stake is taken
/// and then the fee. Where one of the two overflows, the balances are as
/// they were before that step.
pub open spec fn transaction_result(
    before: ChainState,
    transaction: TransactionRecord,
    id: u128,
    now: u64,
) -> (ChainState, Option<Failure>) {
    if subdivide_refused(before.triangles, transaction, id) {
        (before, Some(Failure::Refused { from: lookup(before.triangles, id)->0.state }))
    } else {
        let moved = ChainState {
            owners: owners_after(before.owners, transaction),
            triangles: triangles_after(before.triangles, transaction, id, now),
            depth: depth_after(before.depth, transaction),
            ..before
        };
        match after_stake(before.accounts, transaction) {
            None => (moved, Some(Failure::Overflow)),
            Some(staked) => match after_fee(staked, transaction) {
                None => (ChainState { accounts: staked, ..moved }, Some(Failure::Overflow)),
                Some(paid) => (ChainState { accounts: paid, ..moved }, None),
            },
        }
    }
}

/// Whether `after` and `r` are what applying a transaction to `before`
/// gives, where the identifier `id` was drawn for it at the time `now`.
pub open spec fn transaction_outcome(
    before: ChainState,
    after: ChainState,
    transaction: TransactionRecord,
    id: u128,
    now: u64,
    r: SierpinskiResult<()>,
) -> bool {
    &&& after == transaction_result(before, transaction, id, now).0
    &&& tells(r, transaction_result(before, transaction, id, now).1)
}

/// The chain after the transactions have been applied to `before` in their
/// order, up to the first that could not be applied in full, and why that
/// one could not. For the transaction at place `k`, the identifier `ids[k]`
/// was drawn at the time `times[k]`.
pub open spec fn transactions_result(
    before: ChainState,
    transactions: Seq<TransactionRecord>,
    ids: Seq<u128>,
    times: Seq<u64>,
) -> (ChainState, Option<Failure>)
    decreases transactions.len(),
{
    if transactions.len() == 0 {
        (before, None)
    } else {
        let earlier = transactions_result(before, transactions.drop_last(), ids, times);
        if earlier.1 is Some {
            earlier
        } else {
            transaction_result(
                earlier.0,
                transactions.last(),
                ids[transactions.len() - 1],
                times[transactions.len() - 1],
            )
        }
    }
}

/// The chain after `block` has been applied to `before`, and why it could
/// not be applied in full, if it could not: its transactions take effect in
/// their order; then the miner is credited with the reward, the supply
/// grows by it, and the difficulty is adjusted where the height of the
/// block is a multiple of ten. Where the credit or the supply overflows,
/// neither is written and the difficulty stays.
pub open spec fn block_result(
    before: ChainState,
    block: BlockRecord,
    ids: Seq<u128>,
    times: Seq<u64>,
) -> (ChainState, Option<Failure>) {
    let applied = transactions_result(before, block.transactions, ids, times);
    if applied.1 is Some {
        applied
    } else {
        match (
            credited(applied.0.accounts, block.miner_address, block.block_reward),
            applied.0.supply.spec_add(block.block_reward),
        ) {
            (Some(accounts), Some(supply)) => (
                ChainState {
                    accounts,
                    supply,
                    difficulty: difficulty_after(applied.0.difficulty, applied.0.chain, block.height),
                    ..applied.0
                },
                None,
            ),
            _ => (applied.0, Some(Failure::Overflow)),
        }
    }
}

/// Whether `after` and `r` are what applying `block` to `before` gives:
/// the chain of [`block_result`], and an error where it could not be
/// applied in full.
pub open spec fn block_outcome(
    before: ChainState,
    after: ChainState,
    block: BlockRecord,
    ids: Seq<u128>,
    times: Seq<u64>,
    r: SierpinskiResult<()>,
) -> bool {
    &&& after == block_result(before, block, ids, times).0
    &&& tells(r, block_result(before, block, ids, times).1)
}

/// Whether `ids` and `times` hold an identifier and a time for each of `n`
/// transactions, and those of `draws` as far as `draws` goes.
pub open spec fn agree(draws: Seq<(u128, u64)>, ids: Seq<u128>, times: Seq<u64>, n: nat) -> bool {
    &&& ids.len() == n
    &&& times.len() == n
    &&& forall|k: int| 0 <= k < n && k < draws.len() ==> ids[k] == (#[trigger] draws[k]).0 && times[k] == draws[k].1
}

/// What is applied depends on the identifiers and times of the
/// transactions that are applied, and on no others.
pub proof fn lemma_result_prefix(
    before: ChainState,
    transactions: Seq<TransactionRecord>,
    ids: Seq<u128>,
    times: Seq<u64>,
    other_ids: Seq<u128>,
    other_times: Seq<u64>,
)
    requires
        forall|k: int| 0 <= k < transactions.len() ==> ids[k] == other_ids[k] && times[k] == other_times[k],
    ensures
        transactions_result(before, transactions, ids, times) == transactions_result(
            before,
            transactions,
            other_ids,
            other_times,
        ),
    decreases transactions.len(),
{
    if transactions.len() > 0 {
        lemma_result_prefix(before, transactions.drop_last(), ids, times, other_ids, other_times);
    }
}

/// Once a transaction could not be applied, those that follow change
/// nothing.
pub proof fn lemma_failure_stays(
    before: ChainState,
    transactions: Seq<TransactionRecord>,
    n: int,
    ids: Seq<u128>,
    times: Seq<u64>,
)
    requires
        0 <= n <= transactions.len(),
        transactions_result(before, transactions.subrange(0, n), ids, times).1 is Some,
    ensures
        transactions_result(before, transactions, ids, times) == transactions_result(
            before,
            transactions.subrange(0, n),
            ids,
            times,
        ),
    decreases transactions.len() - n,
{
    if n < transactions.len() {
        assert(transactions.subrange(0, n + 1).drop_last() =~= transactions.subrange(0, n));
        lemma_failure_stays(before, transactions, n + 1, ids, times);
    } else {
        assert(transactions.subrange(0, n) =~= transactions);
    }
}

/// Whether `r` is the `ValidationError` with the message `text`.
pub open spec fn refuses(r: SierpinskiResult<Block>, text: Seq<char>) -> bool {
    r matches Err(SierpinskiError::ValidationError { message }) && message@ == text
}

/// The pending transactions that a block of at most `max` transactions
/// takes: the oldest.
pub open spec fn selection(pending: Seq<TransactionRecord>, max: usize) -> Seq<TransactionRecord> {
    pending.subrange(
        0,
        if max < pending.len() {
            max as int
        } else {
            pending.len() as int
        },
    )
}

/// The block that is put together at the time `now` for the next place in
/// the chain, before any nonce has been tried. `None` where its total area
/// or its reward overflows.
pub open spec fn candidate(state: ChainState, miner: Seq<char>, max: usize, now: u64) -> Option<BlockRecord> {
    match BlockRecord::assembled(
        state.chain.last().spec_hash(),
        selection(state.pending, max),
        miner,
        state.difficulty,
        now,
    ) {
        Some(block) => Some(BlockRecord { height: state.chain.len() as u64, ..block }),
        None => None,
    }
}

/// Whether `block` meets its difficulty with none of the nonces that are
/// tried.
pub open spec fn search_fails(block: BlockRecord) -> bool {
    forall|n: u64| n <= MAX_NONCE ==> !(#[trigger] block.with_nonce(n)).meets_target()
}

/// Whether `nonce` is the first of the nonces that are tried with which
/// `block` meets its difficulty.
pub open spec fn is_least_nonce(block: BlockRecord, nonce: u64) -> bool {
    &&& nonce <= MAX_NONCE
    &&& block.with_nonce(nonce).meets_target()
    &&& forall|n: u64| n < nonce ==> !(#[trigger] block.with_nonce(n)).meets_target()
}

/// The first of the nonces that are tried with which `block` meets its
/// difficulty, where there is one.
pub open spec fn least_nonce(block: BlockRecord) -> u64 {
    choose|nonce: u64| is_least_nonce(block, nonce)
}

/// There is one first nonce at most.
pub proof fn lemma_least_nonce(block: BlockRecord, nonce: u64)
    requires
        is_least_nonce(block, nonce),
    ensures
        least_nonce(block) == nonce,
        !search_fails(block),
{
    let other = least_nonce(block);
    assert(is_least_nonce(block, other));
    if other < nonce {
        assert(!block.with_nonce(other).meets_target());
    }
    if nonce < other {
        assert(!block.with_nonce(nonce).meets_target());
    }
}

/// Whether `after` is the chain `before` with `block` applied and put at
/// its end: the block is chained to the last block, every transaction of
/// the block has taken effect and left the mempool, the miner has the reward, the supply has grown by it, and the
/// difficulty has been adjusted where the height of the block is a
/// multiple of ten.
pub open spec fn joined(before: ChainState, after: ChainState, block: BlockRecord) -> bool {
    &&& block.height == before.chain.len()
    &&& block.previous_hash == before.chain.last().spec_hash()
    &&& after.chain == before.chain.push(block)
    &&& after.pending == without_mined(before.pending, block.transactions)
    &&& before.supply.spec_add(block.block_reward) == Some(after.supply)
    &&& after.difficulty == difficulty_after(before.difficulty, before.chain, block.height)
    &&& after.owners == owners_after_all(before.owners, block.transactions)
    &&& match balances_after_all(before.accounts, block.transactions) {
        Some(paid) => credited(paid, block.miner_address, block.block_reward) == Some(after.accounts),
        None => false,
    }
    &&& after.genesis == before.genesis
    &&& after.depth == depth_after_all(before.depth, block.transactions)
}

/// Whether `after` and `r` are what the chain `before` makes of a block
/// that was found for it, where the clock reads `checked_at` and the
/// identifier `ids[k]` is drawn at the time `times[k]` for the transaction
/// at place `k`.
///
/// A block with a fault is refused with that fault, and nothing changes.
/// A block in order is applied as [`block_result`] tells. Where it cannot
/// be applied in full, the chain is left as it is at that point, and the
/// result is the error. Otherwise the transactions of the block leave the
/// mempool, the block is put at the end of the chain, and it is the result.
///
/// So the application fails with `ArithmeticOverflow` only where the books
/// cannot take the block, and with `StateTransitionError` only where it
/// holds a `Subdivide`; the blocks and the mempool are then as they were.
pub open spec fn accepted(
    before: ChainState,
    after: ChainState,
    block: BlockRecord,
    checked_at: u64,
    ids: Seq<u128>,
    times: Seq<u64>,
    r: SierpinskiResult<Block>,
) -> bool {
    match block.fault(checked_at) {
        Some(text) => after == before && refuses(r, text),
        None => {
            &&& match block_result(before, block, ids, times).1 {
                Some(failure) => after == block_result(before, block, ids, times).0 && (r matches Err(e)
                    && is_failure(e, failure)),
                None => (r matches Ok(mined) && mined@ == block) && after == (ChainState {
                    chain: before.chain.push(block),
                    pending: without_mined(before.pending, block.transactions),
                    ..block_result(before, block, ids, times).0
                }),
            }
            &&& r is Ok ==> joined(before, after, block)
            &&& r matches Err(e) ==> {
                &&& after.chain == before.chain
                &&& after.pending == before.pending
                &&& after.genesis == before.genesis
                &&& (e == SierpinskiError::ArithmeticOverflow && !settles(before.accounts, before.supply, block)) || (e
                    is StateTransitionError && subdivides(block.transactions))
            }
        },
    }
}

/// Whether `after` and `r` are what mining a block of at most `max`
/// pending transactions for `miner` gives on the chain `before`, where the
/// clock reads `now` when the block is put together and `checked_at` when
/// it is checked, and the identifier `ids[k]` is drawn at the time
/// `times[k]` for the transaction at place `k` of the block.
///
/// A chain without blocks and a selection without transactions are refused.
/// The block is the [`candidate`] with the first nonce that meets its
/// difficulty; where there is none, the mining times out. Up to there a
/// failure changes nothing. What becomes of the block is told by
/// [`accepted`].
pub open spec fn mining_outcome(
    before: ChainState,
    after: ChainState,
    miner: Seq<char>,
    max: usize,
    now: u64,
    checked_at: u64,
    ids: Seq<u128>,
    times: Seq<u64>,
    r: SierpinskiResult<Block>,
) -> bool {
    if before.chain.len() == 0 {
        after == before && refuses(r, "Cannot mine without genesis block"@)
    } else if selection(before.pending, max).len() == 0 {
        after == before && refuses(r, "No transactions to mine"@)
    } else {
        match candidate(before, miner, max, now) {
            None => after == before && r == Err::<Block, SierpinskiError>(SierpinskiError::ArithmeticOverflow),
            Some(block) => if search_fails(block) {
                after == before && refuses(r, "Mining timeout"@)
            } else {
                &&& is_least_nonce(block, least_nonce(block))
                &&& accepted(before, after, block.with_nonce(least_nonce(block)), checked_at, ids, times, r)
            },
        }
    }
}

/// Whether `state` is a chain that has just been begun. Its fractal holds
/// the canonical genesis triangle and nothing else. Its one block was put
/// together for the account `genesis_miner` at the first difficulty, names
/// the zero digest as its predecessor, and holds one transaction: a
/// `Create` of the genesis triangle at the genesis address, without sender
/// and without fee. That account holds the whole supply and owns the
/// genesis address. Nothing is pending.
pub open spec fn begun(state: ChainState) -> bool {
    &&& state.chain.len() == 1
    &&& state.chain[0].transactions.len() == 1
    &&& state.triangles.len() == 1
    &&& state.chain[0].transactions[0] == (TransactionRecord {
        id: state.chain[0].transactions[0].id,
        from_address: None,
        to_address: Seq::<u8>::empty(),
        operation: TriangleOperation::Create,
        triangle_data: Some(state.triangles[0].triangle),
        signature: Seq::<u8>::empty(),
        timestamp: state.chain[0].transactions[0].timestamp,
        gas_fee: Decimal::from_pair(0, 0),
    })
    &&& BlockRecord::assembled(
        zero_digest(),
        state.chain[0].transactions,
        "genesis_miner"@,
        INITIAL_DIFFICULTY,
        state.chain[0].timestamp,
    ) == Some(state.chain[0])
    &&& state.triangles[0] == TriangleRecord::fresh(
        state.triangles[0].id,
        state.triangles[0].created_at,
        state.triangles[0].triangle,
        TriangleState::Genesis,
        Seq::<u8>::empty(),
        0,
    )
    &&& crate::genesis::canonical_vertices() == Some(
        (state.triangles[0].triangle.a(), state.triangles[0].triangle.b(), state.triangles[0].triangle.c()),
    )
    &&& state.genesis == Some(state.triangles[0].id)
    &&& state.depth == 0
    &&& state.pending.len() == 0
    &&& state.difficulty == INITIAL_DIFFICULTY
    &&& state.supply == Decimal::from_pair(GENESIS_SUPPLY as int, 0)
    &&& state.accounts == seq![("genesis_miner"@, Decimal::from_pair(GENESIS_SUPPLY as int, 0))]
    &&& state.owners == seq![(Seq::<u8>::empty(), "genesis_miner"@)]
}

/// Whether a chain can be begun: the canonical genesis triangle can be
/// made, and the area and the reward of the genesis block do not overflow.
pub open spec fn can_begin() -> bool {
    match crate::genesis::canonical_vertices() {
        Some((p1, p2, p3)) => crate::triangle::makes_triangle(p1, p2, p3) && Decimal::from_pair(0, 0).spec_add(
            crate::triangle::spec_area_of(p1, p2, p3)->0,
        ) is Some && crate::block::reward_for(INITIAL_DIFFICULTY, 1) is Some,
        None => false,
    }
}

/// Counts of what a chain holds.
#[derive(Debug, Clone, Copy)]
pub struct BlockchainStats {
    /// The number of blocks.
    pub total_blocks: usize,
    /// The number of transactions in the blocks.
    pub total_transactions: usize,
    /// The number of tokens handed out.
    pub total_supply: Decimal,
    /// The difficulty the next block is mined at.
    pub current_difficulty: u32,
    /// The number of pending transactions.
    pub mempool_size: usize,
    /// The number of triangles of the fractal, the voids left out.
    pub total_triangles: usize,
    /// The number of accounts.
    pub unique_addresses: usize,
}

/// The difficulty after an adjustment over a window of ten blocks that
/// began at `first` and ended at `last`. A window of less than 300 seconds
/// raises the difficulty by one, up to 20; one of more than 1200 seconds
/// lowers it by one, down to 1; any other leaves it.
pub fn retarget_difficulty(difficulty: u32, first: u64, last: u64) -> (r: u32)
    ensures
        r == retargeted(difficulty, first, last),
        MIN_DIFFICULTY <= difficulty <= MAX_DIFFICULTY ==> MIN_DIFFICULTY <= r <= MAX_DIFFICULTY,
{
    if last < first || last - first < TARGET_WINDOW / 2 {
        if difficulty >= MAX_DIFFICULTY {
            MAX_DIFFICULTY
        } else {
            difficulty + 1
        }
    } else if last - first > TARGET_WINDOW * 2 {
        if difficulty <= MIN_DIFFICULTY + 1 {
            MIN_DIFFICULTY
        } else {
            difficulty - 1
        }
    } else {
        difficulty
    }
}

/// The chain, with the fractal, the pending transactions, the difficulty,
/// the supply, the balances and the owners that belong to it.
#[derive(Debug)]
pub struct TriadChainBlockchain {
    blocks: Vec<Block>,
    fractal_state: FractalStructure,
    mempool: Vec<TriangleTransaction>,
    difficulty: u32,
    total_supply: Decimal,
    balances: Ledger,
    triangle_owners: Registry,
}

impl View for TriadChainBlockchain {
    type V = ChainState;

    closed spec fn view(&self) -> ChainState {
        ChainState {
            chain: block_records(self.blocks@),
            pending: transaction_records(self.mempool@),
            difficulty: self.difficulty,
            supply: self.total_supply,
            accounts: self.balances@,
            owners: self.triangle_owners@,
            triangles: self.fractal_state.records(),
            genesis: self.fractal_state.spec_genesis_id(),
            depth: self.fractal_state.spec_max_depth(),
        }
    }
}

impl TriadChainBlockchain {
    #[verifier::type_invariant]
    spec fn sound(self) -> bool {
        &&& chain_linked(block_records(self.blocks@))
        &&& MIN_DIFFICULTY <= self.difficulty <= MAX_DIFFICULTY
    }

    /// The blocks, the genesis block first. They form a chain.
    pub open spec fn chain(self) -> Seq<BlockRecord> {
        self@.chain
    }

    /// The pending transactions, the oldest first.
    pub open spec fn pending(self) -> Seq<TransactionRecord> {
        self@.pending
    }

    /// The difficulty the next block is mined at.
    pub open spec fn spec_difficulty(self) -> u32 {
        self@.difficulty
    }

    /// The number of tokens handed out.
    pub open spec fn supply(self) -> Decimal {
        self@.supply
    }

    /// The balances by account.
    pub open spec fn accounts(self) -> Seq<(Seq<char>, Decimal)> {
        self@.accounts
    }

    /// The owners by triangle address.
    pub open spec fn owners(self) -> Seq<(Seq<u8>, Seq<char>)> {
        self@.owners
    }

    /// The triangles of the fractal.
    pub open spec fn triangles(self) -> Seq<TriangleRecord> {
        self@.triangles
    }

    /// The genesis triangle of the fractal, if it has one.
    pub open spec fn target(self) -> Option<TriangleRecord> {
        match self@.genesis {
            Some(id) => lookup(self@.triangles, id),
            None => None,
        }
    }

    /// A chain with its genesis block: the canonical genesis triangle, made
    /// by a `Create` transaction without fee, in a block that names the zero
    /// digest as its predecessor. The account `genesis_miner` holds the
    /// whole supply of a million tokens and owns the genesis triangle.
    ///
    /// Fails where the genesis triangle or the genesis block cannot be
    /// computed.
    pub fn new() -> (r: SierpinskiResult<TriadChainBlockchain>)
        ensures
            r is Ok <==> can_begin(),
            r matches Ok(c) ==> begun(c@) && chain_linked(c.chain()),
    {
        let genesis = genesis_fractal_triangle()?;
        let address = genesis.address.clone();
        let triangle = genesis.triangle;
        let mut fractal_state = FractalStructure::new();
        fractal_state.set_genesis(genesis)?;

        let transaction = TriangleTransaction::new(
            None,
            address.clone(),
            TriangleOperation::Create,
            Some(triangle),
            Decimal::zero(),
        );
        let mut transactions: Vec<TriangleTransaction> = Vec::new();
        transactions.push(transaction);
        proof {
            let records = transaction_records(transactions@);
            assert(records.len() == 1);
            assert(records.drop_last() =~= Seq::<TransactionRecord>::empty());
            assert(records.last().creates());
            assert(crate::block::created_area(records) == Decimal::from_pair(0, 0).spec_add(
                triangle.spec_area()->0,
            )) by {
                reveal_with_fuel(crate::block::created_area, 2);
            }
        }
        let block = Block::new(zero_hash(), transactions, "genesis_miner".to_owned(), INITIAL_DIFFICULTY)?;
        assert(block@.transactions.len() == 1);

        let supply = Decimal::new(GENESIS_SUPPLY, 0);
        let mut balances = Ledger::new();
        balances.set_balance("genesis_miner", supply);
        let mut triangle_owners = Registry::new();
        triangle_owners.set_owner(&address, "genesis_miner");

        let mut blocks: Vec<Block> = Vec::new();
        blocks.push(block);
        assert(chain_linked(block_records(blocks@)));
        assert(block_records(blocks@).len() == 1);
        Ok(
            TriadChainBlockchain {
                blocks,
                fractal_state,
                mempool: Vec::new(),
                difficulty: INITIAL_DIFFICULTY,
                total_supply: supply,
                balances,
                triangle_owners,
            },
        )
    }

    /// Takes `transaction` into the mempool, as the clock stands.
    ///
    /// Fails with `ValidationError` where the transaction is not in order or
    /// its sender's balance does not cover the fee; the chain is then left
    /// as it was.
    pub fn add_transaction(&mut self, transaction: TriangleTransaction) -> (r: SierpinskiResult<()>)
        ensures
            final(self)@ == (ChainState { pending: final(self)@.pending, ..old(self)@ }),
            r is Err ==> final(self)@ == old(self)@,
            r is Ok ==> final(self).pending() == old(self).pending().push(transaction@),
            r is Ok ==> transaction@.lasting_fault() is None,
            exists|now: u64| #[trigger] taken_in(old(self)@, final(self)@, transaction@, now, r),
    {
        let now = unix_time_now();
        let r = self.add_transaction_at(now, transaction);
        assert(taken_in(old(self)@, self@, transaction@, now, r));
        r
    }

    /// Takes `transaction` into the mempool as
    /// [`TriadChainBlockchain::add_transaction`] does, with `now` as the
    /// reading of the clock.
    pub fn add_transaction_at(
        &mut self,
        now: u64,
        transaction: TriangleTransaction,
    ) -> (r: SierpinskiResult<()>)
        ensures
            taken_in(old(self)@, final(self)@, transaction@, now, r),
    {
        proof {
            use_type_invariant(&*self);
        }
        match transaction.validate_at(now) {
            Ok(_) => {},
            Err(e) => {
                return Err(e);
            },
        }
        match &transaction.from_address {
            Some(from) => {
                let name = from.to_string_representation();
                let balance = self.balances.balance(name.as_str());
                if balance.lt(&transaction.gas_fee) {
                    return Err(SierpinskiError::validation("Insufficient balance for gas fee"));
                }
            },
            None => {},
        }
        let ghost before = self.pending();
        let mut mempool: Vec<TriangleTransaction> = Vec::new();
        std::mem::swap(&mut mempool, &mut self.mempool);
        mempool.push(transaction);
        assert(transaction_records(mempool@) =~= before.push(transaction@));
        self.mempool = mempool;
        Ok(())
    }

    /// Writes `balance` as the balance of `name`.
    fn write_balance(&mut self, name: &str, balance: Decimal)
        ensures
            final(self)@ == (ChainState { accounts: written(old(self)@.accounts, name@, balance), ..old(self)@ }),
    {
        proof {
            use_type_invariant(&*self);
        }
        let mut balances = Ledger::new();
        std::mem::swap(&mut balances, &mut self.balances);
        balances.set_balance(name, balance);
        self.balances = balances;
    }

    /// Writes `name` as the owner of the triangle at `address`.
    fn write_owner(&mut self, address: &TriangleAddress, name: &str)
        ensures
            final(self)@ == (ChainState { owners: written(old(self)@.owners, address@, name@), ..old(self)@ }),
    {
        proof {
            use_type_invariant(&*self);
        }
        let mut owners = Registry::new();
        std::mem::swap(&mut owners, &mut self.triangle_owners);
        owners.set_owner(address, name);
        self.triangle_owners = owners;
    }

    /// Adds `triangle` to the fractal.
    fn add_to_fractal(&mut self, triangle: FractalTriangle)
        ensures
            final(self)@ == (ChainState {
                triangles: added(old(self)@.triangles, triangle@),
                depth: deeper(old(self)@.depth, triangle.depth),
                ..old(self)@
            }),
            final(self)@.triangles.len() >= old(self)@.triangles.len(),
    {
        proof {
            crate::fractal::lemma_added_grows(self@.triangles, triangle@);
        }
        proof {
            use_type_invariant(&*self);
        }
        let mut fractal = FractalStructure::new();
        std::mem::swap(&mut fractal, &mut self.fractal_state);
        let _ = fractal.add_triangle(triangle);
        self.fractal_state = fractal;
    }

    /// Marks the triangle with identifier `id` as subdivided at the time
    /// `now`, if the fractal holds it: `true` where it was marked, `false`
    /// where the fractal holds no such triangle.
    ///
    /// Fails with `StateTransitionError`, and changes nothing, where the
    /// triangle is in a state that cannot become `Subdivided`.
    fn mark_subdivided(&mut self, id: u128, now: u64) -> (r: SierpinskiResult<bool>)
        ensures
            final(self)@ == (ChainState {
                triangles: with_state(old(self)@.triangles, id, TriangleState::Subdivided, now),
                ..old(self)@
            }),
            final(self)@.triangles.len() == old(self)@.triangles.len(),
            state_answer(old(self)@.triangles, id, TriangleState::Subdivided, r),
    {
        proof {
            use_type_invariant(&*self);
        }
        let mut fractal = FractalStructure::new();
        std::mem::swap(&mut fractal, &mut self.fractal_state);
        let r = fractal.change_state_at(&id, TriangleState::Subdivided, now);
        self.fractal_state = fractal;
        r
    }

    /// The first `max_transactions` pending transactions, or all of them
    /// where there are fewer.
    fn select(&self, max_transactions: usize) -> (r: Vec<TriangleTransaction>)
        ensures
            transaction_records(r@) == self.pending().subrange(
                0,
                if max_transactions < self.pending().len() {
                    max_transactions as int
                } else {
                    self.pending().len() as int
                },
            ),
    {
        let count = if max_transactions < self.mempool.len() {
            max_transactions
        } else {
            self.mempool.len()
        };
        let mut selected: Vec<TriangleTransaction> = Vec::new();
        let mut i: usize = 0;
        while i < count
            invariant
                i <= count <= self.mempool.len(),
                selected@.len() == i,
                forall|k: int| 0 <= k < i ==> (#[trigger] selected@[k])@ == self.mempool@[k]@,
            decreases count - i,
        {
            selected.push(self.mempool[i].clone());
            i = i + 1;
        }
        assert(transaction_records(selected@) =~= self.pending().subrange(0, count as int));
        selected
    }

    /// Mines a block of up to `max_transactions` pending transactions for
    /// `miner_address`, as the clock stands.
    ///
    /// The block is chained to the last block. Nonces are tried from zero
    /// upwards, up to 100000, until the hash of the block meets the
    /// difficulty. The block is then checked and applied: every transaction
    /// takes effect, the miner is credited with the reward, the supply grows
    /// by it, and every tenth block adjusts the difficulty. The mined
    /// transactions leave the mempool, and the block joins the chain.
    ///
    /// Fails with `ValidationError` where the chain has no genesis block,
    /// where there is nothing to mine, where no nonce is found, or where the
    /// block does not pass its check, and with `ArithmeticOverflow` where
    /// the block cannot be put together; the chain is then left as it was.
    /// Fails with the error of a transaction that cannot be applied; the
    /// blocks and the mempool are then left as they were. The clock is read
    /// when the block is put together and again when it is checked.
    pub fn mine_block(
        &mut self,
        miner_address: String,
        max_transactions: usize,
    ) -> (r: SierpinskiResult<Block>)
        ensures
            chain_linked(final(self).chain()),
            final(self).triangles().len() >= old(self).triangles().len(),
            exists|now: u64, checked_at: u64, ids: Seq<u128>, times: Seq<u64>| #[trigger]
                mining_outcome(
                    old(self)@,
                    final(self)@,
                    miner_address@,
                    max_transactions,
                    now,
                    checked_at,
                    ids,
                    times,
                    r,
                ),
    {
        let now = unix_time_now();
        let block = match self.prepare(now, miner_address, max_transactions) {
            Ok(block) => block,
            Err(e) => {
                let r = Err(e);
                assert(mining_outcome(
                    old(self)@,
                    self@,
                    miner_address@,
                    max_transactions,
                    now,
                    0,
                    Seq::<u128>::empty(),
                    Seq::<u64>::empty(),
                    r,
                ));
                proof {
                    use_type_invariant(&*self);
                }
                return r;
            },
        };
        let checked_at = unix_time_now();
        let draws: Vec<(u128, u64)> = Vec::new();
        let ghost found = block@;
        let r = self.accept(checked_at, block, &draws);
        proof {
            let (ids, times) = choose|ids: Seq<u128>, times: Seq<u64>| #[trigger]
                accepted(old(self)@, self@, found, checked_at, ids, times, r);
            assert(mining_outcome(
                old(self)@,
                self@,
                miner_address@,
                max_transactions,
                now,
                checked_at,
                ids,
                times,
                r,
            ));
        }
        r
    }

    /// Mines a block as [`TriadChainBlockchain::mine_block`] does, where the
    /// clock reads `now` when the block is put together and `checked_at`
    /// when it is checked. For the transaction at place `k` of the block,
    /// `draws[k]` gives the identifier that is drawn and the time at which
    /// it is; where `draws` ends before the block does, the rest is drawn as
    /// [`TriadChainBlockchain::mine_block`] draws it.
    pub fn mine_block_at(
        &mut self,
        now: u64,
        checked_at: u64,
        draws: &Vec<(u128, u64)>,
        miner_address: String,
        max_transactions: usize,
    ) -> (r: SierpinskiResult<Block>)
        ensures
            chain_linked(final(self).chain()),
            final(self).triangles().len() >= old(self).triangles().len(),
            exists|ids: Seq<u128>, times: Seq<u64>|
                agree(draws@, ids, times, selection(old(self).pending(), max_transactions).len()) && #[trigger]
                mining_outcome(
                    old(self)@,
                    final(self)@,
                    miner_address@,
                    max_transactions,
                    now,
                    checked_at,
                    ids,
                    times,
                    r,
                ),
    {
        let ghost n = selection(self.pending(), max_transactions).len();
        let ghost ids = Seq::new(n, |k: int| if k < draws@.len() { draws@[k].0 } else { 0u128 });
        let ghost times = Seq::new(n, |k: int| if k < draws@.len() { draws@[k].1 } else { 0u64 });
        let block = match self.prepare(now, miner_address, max_transactions) {
            Ok(block) => block,
            Err(e) => {
                let r = Err(e);
                proof {
                    use_type_invariant(&*self);
                    assert(agree(draws@, ids, times, n));
                    assert(mining_outcome(
                        old(self)@,
                        self@,
                        miner_address@,
                        max_transactions,
                        now,
                        checked_at,
                        ids,
                        times,
                        r,
                    ));
                }
                return r;
            },
        };
        let ghost found = block@;
        let r = self.accept(checked_at, block, draws);
        proof {
            let (ids, times) = choose|ids: Seq<u128>, times: Seq<u64>|
                agree(draws@, ids, times, found.transactions.len()) && #[trigger] accepted(
                    old(self)@,
                    self@,
                    found,
                    checked_at,
                    ids,
                    times,
                    r,
                );
            assert(mining_outcome(
                old(self)@,
                self@,
                miner_address@,
                max_transactions,
                now,
                checked_at,
                ids,
                times,
                r,
            ));
        }
        r
    }

    /// Puts the next block together at the time `now` and looks for its
    /// nonce.
    fn prepare(&self, now: u64, miner_address: String, max_transactions: usize) -> (r: SierpinskiResult<Block>)
        ensures
            if self.chain().len() == 0 {
                refuses(r, "Cannot mine without genesis block"@)
            } else if selection(self.pending(), max_transactions).len() == 0 {
                refuses(r, "No transactions to mine"@)
            } else {
                match candidate(self@, miner_address@, max_transactions, now) {
                    None => r == Err::<Block, SierpinskiError>(SierpinskiError::ArithmeticOverflow),
                    Some(block) => if search_fails(block) {
                        refuses(r, "Mining timeout"@)
                    } else {
                        &&& is_least_nonce(block, least_nonce(block))
                        &&& r matches Ok(found) && found@ == block.with_nonce(least_nonce(block))
                    },
                }
            },
            r matches Ok(found) ==> self.chain().len() > 0 && found@.height == self.chain().len()
                && found@.previous_hash == self.chain().last().spec_hash(),
    {
        proof {
            use_type_invariant(self);
        }
        if self.blocks.len() == 0 {
            return Err(SierpinskiError::validation("Cannot mine without genesis block"));
        }
        let transactions = self.select(max_transactions);
        if transactions.len() == 0 {
            return Err(SierpinskiError::validation("No transactions to mine"));
        }
        let previous_hash = self.blocks[self.blocks.len() - 1].hash();
        let mut block = match Block::assemble(now, previous_hash, transactions, miner_address, self.difficulty) {
            Ok(block) => block,
            Err(e) => {
                return Err(e);
            },
        };
        block.height = self.blocks.len() as u64;
        let ghost start = block@;
        if !block.search_nonce(MAX_NONCE) {
            assert forall|n: u64| n <= MAX_NONCE implies !(#[trigger] start.with_nonce(n)).meets_target() by {
                if n == MAX_NONCE {
                    assert(block@ == start.with_nonce(n));
                }
            }
            return Err(SierpinskiError::validation("Mining timeout"));
        }
        proof {
            assert(block@ == start.with_nonce(block@.nonce));
            lemma_least_nonce(start, block@.nonce);
        }
        Ok(block)
    }

    /// Checks `block` at the time `checked_at`, applies it, takes its
    /// transactions out of the mempool and puts it at the end of the chain.
    /// What is drawn for its transactions is taken from `draws` as far as
    /// that goes.
    fn accept(&mut self, checked_at: u64, block: Block, draws: &Vec<(u128, u64)>) -> (r: SierpinskiResult<Block>)
        requires
            old(self).chain().len() > 0,
            block@.height == old(self).chain().len(),
            block@.previous_hash == old(self).chain().last().spec_hash(),
        ensures
            chain_linked(final(self).chain()),
            final(self).triangles().len() >= old(self).triangles().len(),
            exists|ids: Seq<u128>, times: Seq<u64>|
                agree(draws@, ids, times, block@.transactions.len()) && #[trigger] accepted(
                    old(self)@,
                    final(self)@,
                    block@,
                    checked_at,
                    ids,
                    times,
                    r,
                ),
    {
        proof {
            use_type_invariant(&*self);
        }
        let ghost n = block@.transactions.len();
        match block.validate_at(checked_at) {
            Ok(_) => {},
            Err(e) => {
                let r = Err(e);
                proof {
                    let ids = Seq::new(n, |k: int| if k < draws@.len() { draws@[k].0 } else { 0u128 });
                    let times = Seq::new(n, |k: int| if k < draws@.len() { draws@[k].1 } else { 0u64 });
                    assert(agree(draws@, ids, times, n));
                    assert(accepted(old(self)@, self@, block@, checked_at, ids, times, r));
                }
                return r;
            },
        }
        let ghost record = block@;
        let outcome = self.apply_block(&block, draws);
        let ghost applied = self@;
        let ghost picked = choose|ids: Seq<u128>, times: Seq<u64>|
            agree(draws@, ids, times, n) && #[trigger] block_outcome(old(self)@, applied, record, ids, times, outcome);
        let ghost ids = picked.0;
        let ghost times = picked.1;
        assert(agree(draws@, ids, times, n) && block_outcome(old(self)@, applied, record, ids, times, outcome));
        match outcome {
            Ok(_) => {},
            Err(e) => {
                let r = Err(e);
                proof {
                    use_type_invariant(&*self);
                    assert(accepted(old(self)@, self@, record, checked_at, ids, times, r));
                }
                return r;
            },
        }
        assert(joined(old(self)@, (ChainState {
            chain: old(self)@.chain.push(record),
            pending: without_mined(old(self)@.pending, record.transactions),
            ..applied
        }), record));
        self.remove_mined(&block.triangle_transactions);
        let mined = block.clone();
        self.append(block);
        let r = Ok(mined);
        proof {
            use_type_invariant(&*self);
            assert(block_result(old(self)@, record, ids, times).1 is None);
            assert(self@ == (ChainState {
                chain: old(self)@.chain.push(record),
                pending: without_mined(old(self)@.pending, record.transactions),
                ..applied
            }));
            assert(accepted(old(self)@, self@, record, checked_at, ids, times, r));
        }
        r
    }

    /// Puts `block` at the end of the chain.
    fn append(&mut self, block: Block)
        requires
            old(self).chain().len() > 0,
            block@.height == old(self).chain().len(),
            block@.previous_hash == old(self).chain().last().spec_hash(),
        ensures
            final(self)@ == (ChainState { chain: old(self)@.chain.push(block@), ..old(self)@ }),
    {
        proof {
            use_type_invariant(&*self);
        }
        let ghost before = self.chain();
        let mut blocks: Vec<Block> = Vec::new();
        std::mem::swap(&mut blocks, &mut self.blocks);
        blocks.push(block);
        proof {
            let after = block_records(blocks@);
            assert(after =~= before.push(block@));
            assert forall|i: int| 0 < i < after.len() implies (#[trigger] after[i]).previous_hash == after[i
                - 1].spec_hash() by {
                if i < before.len() {
                    assert(after[i] == before[i] && after[i - 1] == before[i - 1]);
                }
            }
            assert forall|i: int| 0 <= i < after.len() implies (#[trigger] after[i]).height == i by {
                if i < before.len() {
                    assert(after[i] == before[i]);
                }
            }
        }
        self.blocks = blocks;
    }

    /// Takes the transactions with the identifiers of the mined ones out of
    /// the mempool.
    fn remove_mined(&mut self, mined: &Vec<TriangleTransaction>)
        ensures
            final(self)@ == (ChainState {
                pending: without_mined(old(self)@.pending, transaction_records(mined@)),
                ..old(self)@
            }),
    {
        proof {
            use_type_invariant(&*self);
        }
        let ghost pending = self.pending();
        let ghost gone = transaction_records(mined@);
        let mut kept: Vec<TriangleTransaction> = Vec::new();
        let mut i: usize = 0;
        assert(transaction_records(kept@) =~= without_mined(pending.subrange(0, 0), gone));
        while i < self.mempool.len()
            invariant
                pending == transaction_records(self.mempool@),
                gone == transaction_records(mined@),
                i <= self.mempool.len(),
                transaction_records(kept@) == without_mined(pending.subrange(0, i as int), gone),
            decreases self.mempool.len() - i,
        {
            proof {
                let next = pending.subrange(0, i + 1);
                assert(next.drop_last() =~= pending.subrange(0, i as int));
                assert(next.last() == self.mempool@[i as int]@);
            }
            let ghost before = kept@;
            if !has_id(mined, self.mempool[i].id) {
                kept.push(self.mempool[i].clone());
                assert(transaction_records(kept@) =~= transaction_records(before).push(self.mempool@[i as int]@));
            }
            i = i + 1;
        }
        assert(pending.subrange(0, i as int) =~= pending);
        self.mempool = kept;
    }

    /// Applies a block: every transaction takes effect, the miner is
    /// credited with the reward, the supply grows by it, and every tenth
    /// block adjusts the difficulty.
    ///
    /// Fails with `ArithmeticOverflow` where the books cannot take the
    /// block, and with `StateTransitionError` where a `Subdivide` among its
    /// transactions is refused. A block without a `Subdivide` that the books
    /// can take is applied.
    fn apply_block(&mut self, block: &Block, draws: &Vec<(u128, u64)>) -> (r: SierpinskiResult<()>)
        ensures
            final(self).chain() == old(self).chain(),
            final(self).pending() == old(self).pending(),
            final(self)@.genesis == old(self)@.genesis,
            final(self).triangles().len() >= old(self).triangles().len(),
            settles(old(self).accounts(), old(self).supply(), block@) && !subdivides(block@.transactions) ==> r is Ok,
            r matches Err(e) ==> {
                ||| (e == SierpinskiError::ArithmeticOverflow && !settles(
                    old(self).accounts(),
                    old(self).supply(),
                    block@,
                ))
                ||| (e is StateTransitionError && subdivides(block@.transactions))
            },
            r is Ok ==> {
                &&& old(self).supply().spec_add(block@.block_reward) == Some(final(self).supply())
                &&& final(self).spec_difficulty() == difficulty_after(
                    old(self).spec_difficulty(),
                    old(self).chain(),
                    block@.height,
                )
                &&& final(self).owners() == owners_after_all(old(self).owners(), block@.transactions)
                &&& match balances_after_all(old(self).accounts(), block@.transactions) {
                    Some(paid) => credited(paid, block@.miner_address, block@.block_reward) == Some(
                        final(self).accounts(),
                    ),
                    None => false,
                }
                &&& final(self)@.depth == depth_after_all(old(self)@.depth, block@.transactions)
            },
            exists|ids: Seq<u128>, times: Seq<u64>|
                agree(draws@, ids, times, block@.transactions.len()) && #[trigger] block_outcome(
                    old(self)@,
                    final(self)@,
                    block@,
                    ids,
                    times,
                    r,
                ),
    {
        proof {
            reveal(settles);
        }
        let ghost start = self@;
        let ghost records = block@.transactions;
        let ghost accounts = self.accounts();
        let ghost owners = self.owners();
        let ghost mut ids: Seq<u128> = Seq::empty();
        let ghost mut times: Seq<u64> = Seq::empty();
        let mut i: usize = 0;
        while i < block.triangle_transactions.len()
            invariant
                start == old(self)@,
                self@.genesis == old(self)@.genesis,
                self@.depth == depth_after_all(old(self)@.depth, records.subrange(0, i as int)),
                ids.len() == i,
                times.len() == i,
                forall|k: int| 0 <= k < i && k < draws@.len() ==> ids[k] == (#[trigger] draws@[k]).0 && times[k]
                    == draws@[k].1,
                transactions_result(start, records.subrange(0, i as int), ids, times) == (self@, None::<Failure>),
                records == transaction_records(block.triangle_transactions@),
                records == block@.transactions,
                accounts == old(self).accounts(),
                owners == old(self).owners(),
                i <= block.triangle_transactions.len(),
                self.chain() == old(self).chain(),
                self.pending() == old(self).pending(),
                self.supply() == old(self).supply(),
                self.spec_difficulty() == old(self).spec_difficulty(),
                self.triangles().len() >= old(self).triangles().len(),
                balances_after_all(accounts, records.subrange(0, i as int)) == Some(self.accounts()),
                self.owners() == owners_after_all(owners, records.subrange(0, i as int)),
            decreases block.triangle_transactions.len() - i,
        {
            proof {
                let next = records.subrange(0, i + 1);
                assert(next.drop_last() =~= records.subrange(0, i as int));
                assert(next.last() == block.triangle_transactions@[i as int]@);
            }
            let ghost before = self@;
            let (id, now) = draw(draws, i, &block.triangle_transactions[i]);
            let ghost earlier_ids = ids;
            let ghost earlier_times = times;
            proof {
                ids = ids.push(id);
                times = times.push(now);
                lemma_result_prefix(start, records.subrange(0, i as int), earlier_ids, earlier_times, ids, times);
            }
            match self.apply_transaction(&block.triangle_transactions[i], id, now) {
                Ok(_) => {},
                Err(e) => {
                    proof {
                        if e is StateTransitionError {
                            reveal(subdivides);
                            assert(records[i as int].operation == TriangleOperation::Subdivide);
                        } else {
                            reveal(settles);
                            lemma_overflow_stays(accounts, records, i + 1);
                        }
                        let n = records.len();
                        let all_ids = Seq::new(
                            n,
                            |k: int|
                                if k <= i {
                                    ids[k]
                                } else if k < draws@.len() {
                                    draws@[k].0
                                } else {
                                    0u128
                                },
                        );
                        let all_times = Seq::new(
                            n,
                            |k: int|
                                if k <= i {
                                    times[k]
                                } else if k < draws@.len() {
                                    draws@[k].1
                                } else {
                                    0u64
                                },
                        );
                        lemma_result_prefix(start, records.subrange(0, i + 1), ids, times, all_ids, all_times);
                        lemma_failure_stays(start, records, i + 1, all_ids, all_times);
                        assert(agree(draws@, all_ids, all_times, n));
                        assert(block_outcome(start, self@, block@, all_ids, all_times, Err::<(), SierpinskiError>(e)));
                    }
                    return Err(e);
                },
            }
            i = i + 1;
        }
        assert(records.subrange(0, i as int) =~= records);
        proof {
            use_type_invariant(&*self);
            assert(agree(draws@, ids, times, records.len()));
        }
        let balance = self.balances.balance(block.miner_address.as_str());
        let sum = match balance.checked_add(block.block_reward) {
            Some(s) => s,
            None => {
                let r = Err(SierpinskiError::ArithmeticOverflow);
                assert(block_outcome(start, self@, block@, ids, times, r));
                return r;
            },
        };
        let supply = match self.total_supply.checked_add(block.block_reward) {
            Some(s) => s,
            None => {
                let r = Err(SierpinskiError::ArithmeticOverflow);
                assert(block_outcome(start, self@, block@, ids, times, r));
                return r;
            },
        };
        self.write_balance(block.miner_address.as_str(), sum);
        proof {
            use_type_invariant(&*self);
        }
        self.total_supply = supply;
        if block.height % RETARGET_INTERVAL == 0 && block.height > 0 {
            self.adjust_difficulty();
        }
        let r = Ok(());
        assert(block_outcome(start, self@, block@, ids, times, r));
        r
    }

    /// Applies one transaction, for which the identifier `id` was drawn at
    /// the time `now`: what it does to the fractal, to the owners and to the
    /// balances. The fee is taken from the sender at the end, whether or not
    /// the balance covers it.
    ///
    /// Fails with `ArithmeticOverflow` where the stake or the fee cannot be
    /// taken, and with `StateTransitionError` where a `Subdivide` is refused.
    fn apply_transaction(&mut self, transaction: &TriangleTransaction, id: u128, now: u64) -> (r: SierpinskiResult<()>)
        ensures
            final(self).triangles().len() >= old(self).triangles().len(),
            transaction_outcome(old(self)@, final(self)@, transaction@, id, now, r),
    {
        proof {
            use_type_invariant(&*self);
        }
        let sender = match &transaction.from_address {
            Some(from) => Some(from.to_string_representation()),
            None => None,
        };
        match transaction.operation {
            TriangleOperation::Create => {
                match transaction.triangle_data {
                    Some(triangle) => {
                        let made = FractalTriangle::with_identity(
                            id,
                            now,
                            triangle,
                            TriangleState::Active,
                            transaction.to_address.clone(),
                            transaction.to_address.depth(),
                        );
                        self.add_to_fractal(made);
                        match &sender {
                            Some(name) => {
                                self.write_owner(&transaction.to_address, name.as_str());
                            },
                            None => {},
                        }
                    },
                    None => {},
                }
            },
            TriangleOperation::Subdivide => {
                match self.mark_subdivided(id, now) {
                    Ok(_) => {},
                    Err(e) => {
                        return Err(e);
                    },
                }
            },
            TriangleOperation::Transfer => {
                match &sender {
                    Some(name) => {
                        self.write_owner(&transaction.to_address, name.as_str());
                    },
                    None => {},
                }
            },
            TriangleOperation::Stake { amount } => {
                match &sender {
                    Some(name) => {
                        let balance = self.balances.balance(name.as_str());
                        if amount.le(&balance) {
                            let rest = match balance.checked_sub(amount) {
                                Some(r) => r,
                                None => {
                                    return Err(SierpinskiError::ArithmeticOverflow);
                                },
                            };
                            self.write_balance(name.as_str(), rest);
                        }
                    },
                    None => {},
                }
            },
            _ => {},
        }
        match &sender {
            Some(name) => {
                let balance = self.balances.balance(name.as_str());
                let rest = match balance.checked_sub(transaction.gas_fee) {
                    Some(r) => r,
                    None => {
                        return Err(SierpinskiError::ArithmeticOverflow);
                    },
                };
                self.write_balance(name.as_str(), rest);
            },
            None => {},
        }
        Ok(())
    }

    /// Adjusts the difficulty over the last ten blocks, where the chain has
    /// that many.
    fn adjust_difficulty(&mut self)
        ensures
            final(self)@ == (ChainState { difficulty: final(self)@.difficulty, ..old(self)@ }),
            final(self).spec_difficulty() == if old(self).chain().len() >= RETARGET_INTERVAL {
                retargeted(
                    old(self).spec_difficulty(),
                    old(self).chain()[old(self).chain().len() - RETARGET_INTERVAL].timestamp,
                    old(self).chain().last().timestamp,
                )
            } else {
                old(self).spec_difficulty()
            },
    {
        proof {
            use_type_invariant(&*self);
        }
        let len = self.blocks.len();
        if len < RETARGET_INTERVAL as usize {
            return ;
        }
        let first = self.blocks[len - RETARGET_INTERVAL as usize].header.timestamp;
        let last = self.blocks[len - 1].header.timestamp;
        self.difficulty = retarget_difficulty(self.difficulty, first, last);
    }

    /// Checks every block after the genesis block against the clock. That
    /// the blocks are linked holds of every chain and needs no check.
    ///
    /// Fails with `ValidationError` for a chain without blocks, and
    /// otherwise names the first fault of the first block that has one.
    pub fn validate_chain(&self) -> (r: SierpinskiResult<bool>)
        ensures
            chain_linked(self.chain()),
            exists|now: u64| crate::block::reports(r, #[trigger] chain_fault(self.chain(), now)),
    {
        self.validate_chain_at(unix_time_now())
    }

    /// Checks the chain as [`TriadChainBlockchain::validate_chain`] does,
    /// with `now` as the reading of the clock.
    pub fn validate_chain_at(&self, now: u64) -> (r: SierpinskiResult<bool>)
        ensures
            chain_linked(self.chain()),
            crate::block::reports(r, chain_fault(self.chain(), now)),
    {
        proof {
            use_type_invariant(self);
        }
        if self.blocks.len() == 0 {
            return Err(SierpinskiError::validation("Empty blockchain"));
        }
        check_later_blocks(&self.blocks, now)
    }

    /// Counts of what the chain holds.
    pub fn stats(&self) -> (r: BlockchainStats)
        ensures
            r.total_blocks == self.chain().len(),
            r.total_transactions == transactions_in(self.chain()),
            r.total_supply == self.supply(),
            r.current_difficulty == self.spec_difficulty(),
            r.mempool_size == self.pending().len(),
            r.total_triangles == crate::fractal::count_solid(self.triangles()),
            r.unique_addresses == self.accounts().len(),
    {
        let ghost records = self.chain();
        let mut total: usize = 0;
        let mut i: usize = 0;
        while i < self.blocks.len()
            invariant
                records == block_records(self.blocks@),
                i <= self.blocks.len(),
                total == transactions_in(records.subrange(0, i as int)),
            decreases self.blocks.len() - i,
        {
            proof {
                let next = records.subrange(0, i + 1);
                assert(next.drop_last() =~= records.subrange(0, i as int));
                assert(next.last() == self.blocks@[i as int]@);
            }
            let count = self.blocks[i].triangle_transactions.len();
            total = if total > usize::MAX - count {
                usize::MAX
            } else {
                total + count
            };
            i = i + 1;
        }
        assert(records.subrange(0, i as int) =~= records);
        BlockchainStats {
            total_blocks: self.blocks.len(),
            total_transactions: total,
            total_supply: self.total_supply,
            current_difficulty: self.difficulty,
            mempool_size: self.mempool.len(),
            total_triangles: self.fractal_state.total_triangles(),
            unique_addresses: self.balances.len(),
        }
    }

    /// The balance of the account `address`: zero for an account that has
    /// none.
    pub fn get_balance(&self, address: &str) -> (r: Decimal)
        ensures
            r == balance_of(self.accounts(), address@),
    {
        self.balances.balance(address)
    }

    /// The addresses of the triangles that `owner` owns.
    pub fn get_owned_triangles(&self, owner: &str) -> (r: Vec<TriangleAddress>)
        ensures
            r@.map_values(|a: TriangleAddress| a@) == owned_by(self.owners(), owner@),
    {
        self.triangle_owners.owned_by(owner)
    }

    /// The blocks of the chain, the genesis block first.
    pub fn blocks(&self) -> (r: &Vec<Block>)
        ensures
            block_records(r@) == self.chain(),
            chain_linked(self.chain()),
    {
        proof {
            use_type_invariant(self);
        }
        &self.blocks
    }

    /// The pending transactions, the oldest first.
    pub fn mempool(&self) -> (r: &Vec<TriangleTransaction>)
        ensures
            transaction_records(r@) == self.pending(),
    {
        &self.mempool
    }

    /// The fractal.
    pub fn fractal_state(&self) -> (r: &FractalStructure)
        ensures
            r.records() == self.triangles(),
            crate::validation::genesis_of(r.records(), r.spec_genesis_id()) == self.target(),
    {
        &self.fractal_state
    }

    /// The difficulty the next block is mined at, between 1 and 20.
    pub fn difficulty(&self) -> (r: u32)
        ensures
            r == self.spec_difficulty(),
            MIN_DIFFICULTY <= r <= MAX_DIFFICULTY,
    {
        proof {
            use_type_invariant(self);
        }
        self.difficulty
    }

    /// The number of tokens handed out.
    pub fn total_supply(&self) -> (r: Decimal)
        ensures
            r == self.supply(),
    {
        self.total_supply
    }
}

/// The first fault among the blocks at time `now`, in their order.
pub open spec fn faults_from(blocks: Seq<BlockRecord>, now: u64) -> Option<Seq<char>>
    decreases blocks.len(),
{
    if blocks.len() == 0 {
        None
    } else {
        match blocks[0].fault(now) {
            Some(text) => Some(text),
            None => faults_from(blocks.drop_first(), now),
        }
    }
}

/// What is wrong with a chain at time `now`: that it is empty, or the first
/// fault of the first block after the genesis block that has one.
pub open spec fn chain_fault(blocks: Seq<BlockRecord>, now: u64) -> Option<Seq<char>> {
    if blocks.len() == 0 {
        Some("Empty blockchain"@)
    } else {
        faults_from(blocks.drop_first(), now)
    }
}

/// The identifier that is drawn for the transaction at place `i` of a
/// block and the time at which it is: those of `draws` where it holds them.
/// Otherwise a fresh identifier and the reading of the clock, where the
/// transaction makes a triangle or subdivides one, which alone look at
/// them.
fn draw(draws: &Vec<(u128, u64)>, i: usize, transaction: &TriangleTransaction) -> (r: (u128, u64))
    ensures
        i < draws@.len() ==> r == draws@[i as int],
{
    if i < draws.len() {
        return draws[i];
    }
    let needed = match transaction.operation {
        TriangleOperation::Create => transaction.triangle_data.is_some(),
        TriangleOperation::Subdivide => true,
        _ => false,
    };
    if needed {
        (random_id(), unix_time_now())
    } else {
        (0, 0)
    }
}

/// Checks every block after the first at the time `now`, in their order,
/// and answers with the first fault.
fn check_later_blocks(blocks: &Vec<Block>, now: u64) -> (r: SierpinskiResult<bool>)
    requires
        blocks@.len() > 0,
    ensures
        crate::block::reports(r, faults_from(block_records(blocks@).drop_first(), now)),
{
    let ghost records = block_records(blocks@);
    let mut i: usize = 1;
    assert(records.skip(1) =~= records.drop_first());
    while i < blocks.len()
        invariant
            records == block_records(blocks@),
            1 <= i <= blocks.len(),
            faults_from(records.drop_first(), now) == faults_from(records.skip(i as int), now),
        decreases blocks.len() - i,
    {
        proof {
            let rest = records.skip(i as int);
            assert(rest.len() > 0);
            assert(rest[0] == blocks@[i as int]@);
            assert(rest.drop_first() =~= records.skip(i + 1));
            assert(faults_from(rest, now) == match rest[0].fault(now) {
                Some(text) => Some(text),
                None => faults_from(rest.drop_first(), now),
            });
        }
        match blocks[i].validate_at(now) {
            Ok(_) => {},
            Err(e) => {
                return Err(e);
            },
        }
        i = i + 1;
    }
    assert(records.skip(i as int).len() == 0);
    Ok(true)
}

/// Whether one of `transactions` has the identifier `id`.
pub fn has_id(transactions: &Vec<TriangleTransaction>, id: u128) -> (r: bool)
    ensures
        r == names_one_of(transaction_records(transactions@), id),
{
    let mut i: usize = 0;
    while i < transactions.len()
        invariant
            i <= transactions.len(),
            forall|k: int| 0 <= k < i ==> transaction_records(transactions@)[k].id != id,
        decreases transactions.len() - i,
    {
        if transactions[i].id == id {
            assert(transaction_records(transactions@)[i as int].id == id);
            return true;
        }
        i = i + 1;
    }
    false
}

} // verus!
