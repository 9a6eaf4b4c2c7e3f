use triadchain::address::TriangleAddress;
use triadchain::block::{
    block_reward, combine_hashes, fold_merkle, Block, TriangleOperation, TriangleTransaction,
};
use triadchain::blockchain::{retarget_difficulty, TriadChainBlockchain};
use triadchain::decimal::Decimal;
use triadchain::errors::SierpinskiError;
use triadchain::geometry::Point;
use triadchain::hashing::{count_leading_zeros, hash_meets_difficulty, zero_hash};
use triadchain::state::TriangleState;
use triadchain::triangle::Triangle;

fn dec(num: i64, scale: u32) -> Decimal {
    Decimal::new(num, scale)
}

fn test_triangle() -> Triangle {
    Triangle::new(
        Point::new(dec(0, 0), dec(0, 0)),
        Point::new(dec(1, 0), dec(0, 0)),
        Point::new(dec(5, 1), dec(866, 3)),
    )
    .unwrap()
}

fn create_test_transaction() -> TriangleTransaction {
    TriangleTransaction::new(
        None,
        TriangleAddress::genesis(),
        TriangleOperation::Create,
        Some(test_triangle()),
        Decimal::new(1, 2), // 0.01 gas fee
    )
}

fn now() -> u64 {
    std::time::SystemTime::now().duration_since(std::time::UNIX_EPOCH).unwrap().as_secs()
}

fn message_of<T: std::fmt::Debug>(r: Result<T, SierpinskiError>) -> String {
    match r {
        Err(SierpinskiError::ValidationError { message }) => message,
        other => panic!("{:?}", other),
    }
}

#[test]
fn test_transaction_creation() {
    let tx = create_test_transaction();
    assert!(!tx.hash().is_empty());
    assert!(tx.validate().unwrap());
}

#[test]
fn test_block_creation() {
    let transactions = vec![create_test_transaction()];
    let block = Block::new(
        "previous_hash".to_string(),
        transactions,
        "miner_address".to_string(),
        4,
    )
    .unwrap();

    assert!(!block.hash().is_empty());
    assert!(block.validate().unwrap());
    assert_eq!(block.header.triangle_count, 1);
}

#[test]
fn test_merkle_root_calculation() {
    let tx1 = create_test_transaction();
    let tx2 = create_test_transaction();

    let root1 = Block::calculate_merkle_root(&vec![tx1.clone()]);
    let root2 = Block::calculate_merkle_root(&vec![tx1, tx2]);

    assert_ne!(root1, root2);
    assert!(!root1.is_empty());
    assert!(!root2.is_empty());
}

#[test]
fn test_blockchain_creation() {
    let blockchain = TriadChainBlockchain::new().unwrap();
    assert_eq!(blockchain.blocks().len(), 1); // Genesis block
    assert!(blockchain.total_supply() > Decimal::zero());
}

#[test]
fn test_blockchain_validation() {
    let blockchain = TriadChainBlockchain::new().unwrap();
    assert!(blockchain.validate_chain().unwrap());
}

#[test]
fn fresh_chain_scenario() {
    let chain = TriadChainBlockchain::new().unwrap();
    assert_eq!(chain.blocks().len(), 1);
    assert_eq!(chain.total_supply(), dec(1_000_000, 0));
    assert!(chain.validate_chain().unwrap());
    assert_eq!(chain.blocks()[0].header.previous_hash, "0".repeat(64));
    assert_eq!(chain.blocks()[0].height, 0);
    assert_eq!(chain.blocks()[0].miner_address, "genesis_miner");
    assert_eq!(chain.blocks()[0].triangle_transactions.len(), 1);
    assert_eq!(chain.difficulty(), 4);
    assert!(chain.mempool().is_empty());
    assert_eq!(chain.get_balance("genesis_miner"), dec(1_000_000, 0));
    assert_eq!(chain.get_balance("nobody"), Decimal::zero());
    assert_eq!(chain.get_owned_triangles("genesis_miner"), vec![TriangleAddress::genesis()]);
    assert!(chain.get_owned_triangles("nobody").is_empty());
    assert_eq!(chain.fractal_state().total_triangles(), 1);
    assert_eq!(chain.fractal_state().genesis().unwrap().state, TriangleState::Genesis);
    let stats = chain.stats();
    assert_eq!(stats.total_blocks, 1);
    assert_eq!(stats.total_transactions, 1);
    assert_eq!(stats.total_supply, dec(1_000_000, 0));
    assert_eq!(stats.current_difficulty, 4);
    assert_eq!(stats.mempool_size, 0);
    assert_eq!(stats.total_triangles, 1);
    assert_eq!(stats.unique_addresses, 1);
}

#[test]
fn mining_an_empty_mempool_changes_nothing() {
    let mut chain = TriadChainBlockchain::new().unwrap();
    let before = chain.blocks()[0].hash();
    let result = chain.mine_block("miner".to_string(), 10);
    assert_eq!(message_of(result), "No transactions to mine");
    assert_eq!(chain.blocks().len(), 1);
    assert_eq!(chain.blocks()[0].hash(), before);
    assert_eq!(chain.total_supply(), dec(1_000_000, 0));
    assert_eq!(chain.get_balance("miner"), Decimal::zero());
    assert_eq!(chain.difficulty(), 4);
    assert!(chain.mempool().is_empty());
    assert_eq!(chain.fractal_state().len(), 1);

    // a limit of zero selects nothing either
    chain.add_transaction(create_test_transaction()).unwrap();
    let result = chain.mine_block("miner".to_string(), 0);
    assert_eq!(message_of(result), "No transactions to mine");
    assert_eq!(chain.blocks().len(), 1);
    assert_eq!(chain.mempool().len(), 1);
}

#[test]
fn mempool_takes_transactions_that_are_in_order() {
    let mut chain = TriadChainBlockchain::new().unwrap();
    chain.add_transaction(create_test_transaction()).unwrap();
    assert_eq!(chain.mempool().len(), 1);

    // a Create without a triangle is refused
    let empty = TriangleTransaction::new(
        None,
        TriangleAddress::genesis(),
        TriangleOperation::Create,
        None,
        Decimal::new(1, 2),
    );
    assert_eq!(message_of(chain.add_transaction(empty)), "Create operation requires triangle data");
    assert_eq!(chain.mempool().len(), 1);

    // a sender without funds cannot pay the fee
    let poor = TriangleTransaction::new(
        Some(TriangleAddress::new(vec![1]).unwrap()),
        TriangleAddress::new(vec![2]).unwrap(),
        TriangleOperation::Transfer,
        None,
        Decimal::new(1, 2),
    );
    assert_eq!(message_of(chain.add_transaction(poor)), "Insufficient balance for gas fee");
    assert_eq!(chain.mempool().len(), 1);

    // a fee of nothing is covered by a balance of nothing
    let free = TriangleTransaction::new(
        Some(TriangleAddress::new(vec![1]).unwrap()),
        TriangleAddress::new(vec![2]).unwrap(),
        TriangleOperation::Transfer,
        None,
        Decimal::zero(),
    );
    chain.add_transaction(free).unwrap();
    assert_eq!(chain.mempool().len(), 2);
}

#[test]
fn transaction_faults_in_their_order() {
    let to = TriangleAddress::genesis();
    let from = Some(TriangleAddress::new(vec![0]).unwrap());
    let t = Some(test_triangle());
    let tx = |operation, from: &Option<TriangleAddress>, triangle, stamp, fee| {
        TriangleTransaction {
            timestamp: stamp,
            ..TriangleTransaction::with_identity(1, 0, from.clone(), to.clone(), operation, triangle, fee)
        }
    };
    let fee = dec(1, 2);
    assert!(tx(TriangleOperation::Create, &None, t, 4600, fee).validate_at(1000).unwrap());
    assert_eq!(
        message_of(tx(TriangleOperation::Create, &None, None, 4601, dec(-1, 0)).validate_at(1000)),
        "Transaction timestamp too far in future"
    );
    assert_eq!(
        message_of(tx(TriangleOperation::Create, &None, None, 0, dec(-1, 2)).validate_at(1000)),
        "Gas fee cannot be negative"
    );
    assert_eq!(
        message_of(tx(TriangleOperation::Create, &None, None, 0, fee).validate_at(1000)),
        "Create operation requires triangle data"
    );
    assert_eq!(
        message_of(tx(TriangleOperation::Transfer, &None, None, 0, fee).validate_at(1000)),
        "Transfer requires from address"
    );
    assert!(tx(TriangleOperation::Transfer, &from, None, 0, fee).validate_at(1000).unwrap());
    assert_eq!(
        message_of(
            tx(TriangleOperation::Stake { amount: Decimal::zero() }, &from, None, 0, fee).validate_at(1000)
        ),
        "Stake amount must be positive"
    );
    assert!(tx(TriangleOperation::Stake { amount: dec(1, 1) }, &from, None, 0, fee)
        .validate_at(1000)
        .unwrap());
    assert!(tx(TriangleOperation::Subdivide, &None, None, 0, Decimal::zero()).validate_at(1000).unwrap());
    assert!(tx(TriangleOperation::Merge, &None, None, 0, fee).validate_at(1000).unwrap());
    assert!(tx(TriangleOperation::ClaimReward { amount: dec(-5, 0) }, &None, None, 0, fee)
        .validate_at(1000)
        .unwrap());
    assert!(tx(TriangleOperation::Merge, &None, None, u64::MAX, fee).validate_at(u64::MAX - 10).unwrap());
}

#[test]
fn transaction_hash_covers_its_parts() {
    let t = test_triangle();
    let from = TriangleAddress::new(vec![0, 3]).unwrap();
    let to = TriangleAddress::new(vec![1]).unwrap();
    let tx = TriangleTransaction::with_identity(
        0x0102030405060708090a0b0c0d0e0f10,
        0x1122334455667788,
        Some(from),
        to.clone(),
        TriangleOperation::Create,
        Some(t),
        dec(1, 2),
    );
    let mut bytes: Vec<u8> = (1u8..=16).collect();
    // the bytes of the identifier are those that its UUID holds
    assert_eq!(&bytes[..], uuid::Uuid::from_u128(0x0102030405060708090a0b0c0d0e0f10).as_bytes());
    bytes.extend_from_slice(&[0x88, 0x77, 0x66, 0x55, 0x44, 0x33, 0x22, 0x11]);
    bytes.extend_from_slice(b"0.3");
    bytes.extend_from_slice(b"1");
    bytes.extend_from_slice(t.hash().as_bytes());
    assert_eq!(tx.hash(), blake3::hash(&bytes).to_hex().to_string());

    let bare = TriangleTransaction::with_identity(
        0x0102030405060708090a0b0c0d0e0f10,
        0x1122334455667788,
        None,
        TriangleAddress::genesis(),
        TriangleOperation::Merge,
        None,
        dec(1, 2),
    );
    let mut bytes: Vec<u8> = (1u8..=16).collect();
    bytes.extend_from_slice(&[0x88, 0x77, 0x66, 0x55, 0x44, 0x33, 0x22, 0x11]);
    bytes.extend_from_slice(b"genesis");
    assert_eq!(bare.hash(), blake3::hash(&bytes).to_hex().to_string());
    assert!(bare.signature.is_empty());
    assert_eq!(bare.clone(), bare);
}

#[test]
fn merkle_root_pairs_the_leaves() {
    let h = |s: &str| blake3::hash(s.as_bytes()).to_hex().to_string();
    let node = |a: &str, b: &str| h(&format!("{}{}", a, b));
    let leaves: Vec<String> = vec![h("a"), h("b"), h("c"), h("d"), h("e")];

    assert_eq!(fold_merkle(vec![]), "0".repeat(64));
    assert_eq!(zero_hash(), "0".repeat(64));
    assert_eq!(fold_merkle(vec![leaves[0].clone()]), leaves[0]);
    assert_eq!(combine_hashes(&leaves[0], &leaves[1]), node(&leaves[0], &leaves[1]));
    assert_eq!(fold_merkle(leaves[..2].to_vec()), node(&leaves[0], &leaves[1]));
    // three leaves: the third is paired with itself
    let ab = node(&leaves[0], &leaves[1]);
    let cc = node(&leaves[2], &leaves[2]);
    assert_eq!(fold_merkle(leaves[..3].to_vec()), node(&ab, &cc));
    // five leaves
    let cd = node(&leaves[2], &leaves[3]);
    let ee = node(&leaves[4], &leaves[4]);
    let abcd = node(&ab, &cd);
    let eeee = node(&ee, &ee);
    assert_eq!(fold_merkle(leaves.clone()), node(&abcd, &eeee));

    let tx1 = create_test_transaction();
    let tx2 = create_test_transaction();
    assert_eq!(Block::calculate_merkle_root(&vec![]), "0".repeat(64));
    assert_eq!(Block::calculate_merkle_root(&vec![tx1.clone()]), tx1.hash());
    assert_eq!(
        Block::calculate_merkle_root(&vec![tx1.clone(), tx2.clone()]),
        node(&tx1.hash(), &tx2.hash())
    );
}

#[test]
fn block_reward_formula() {
    // 50 + difficulty / 100 + 0.1 for each transaction
    assert_eq!(block_reward(4, 1), Some(dec(5014, 2)));
    assert_eq!(block_reward(0, 0), Some(dec(50, 0)));
    assert_eq!(block_reward(20, 10), Some(dec(512, 1)));
    assert_eq!(block_reward(100, 3), Some(dec(513, 1)));
    assert_eq!(block_reward(4, 1).unwrap().to_text(), "50.14");
}

#[test]
fn block_is_assembled_from_its_transactions() {
    let t = test_triangle();
    let create = create_test_transaction();
    let transfer = TriangleTransaction::new(
        Some(TriangleAddress::new(vec![1]).unwrap()),
        TriangleAddress::new(vec![2]).unwrap(),
        TriangleOperation::Transfer,
        Some(t),
        dec(1, 2),
    );
    let merge = TriangleTransaction::new(
        None,
        TriangleAddress::new(vec![2]).unwrap(),
        TriangleOperation::Merge,
        None,
        dec(1, 2),
    );
    let transactions = vec![create.clone(), transfer, merge];
    let block = Block::assemble(1234, "abc".to_string(), transactions.clone(), "me".to_string(), 7).unwrap();
    assert_eq!(block.header.previous_hash, "abc");
    assert_eq!(block.header.timestamp, 1234);
    assert_eq!(block.header.nonce, 0);
    assert_eq!(block.header.difficulty, 7);
    assert_eq!(block.header.version, 1);
    assert_eq!(block.header.triangle_count, 3);
    assert_eq!(block.header.merkle_root, Block::calculate_merkle_root(&transactions));
    // only the triangle of the Create counts towards the area
    assert_eq!(block.header.total_area, t.area().unwrap());
    assert_eq!(Block::calculate_total_area(&transactions), Some(t.area().unwrap()));
    // both carried triangles go into the triangle hash
    let both = format!("{}{}", t.hash(), t.hash());
    assert_eq!(block.geometric_proof.triangle_hash, blake3::hash(both.as_bytes()).to_hex().to_string());
    assert_eq!(Block::calculate_triangle_hash(&vec![]), blake3::hash(b"").to_hex().to_string());
    assert!(block.geometric_proof.subdivision_valid);
    assert!(block.geometric_proof.area_conservation);
    assert_eq!(block.geometric_proof.merkle_root, block.header.merkle_root);
    assert_eq!(block.geometric_proof.nonce, 0);
    assert_eq!(block.geometric_proof.difficulty, 7);
    assert_eq!(block.miner_address, "me");
    assert_eq!(block.block_reward, dec(5037, 2));
    assert_eq!(block.height, 0);
    assert_eq!(block.triangle_transactions, transactions);
    assert_eq!(block.clone(), block);

    let mut bytes: Vec<u8> = Vec::new();
    bytes.extend_from_slice(b"abc");
    bytes.extend_from_slice(block.header.merkle_root.as_bytes());
    bytes.extend_from_slice(&1234u64.to_le_bytes());
    bytes.extend_from_slice(&0u64.to_le_bytes());
    bytes.extend_from_slice(&7u32.to_le_bytes());
    bytes.extend_from_slice(block.geometric_proof.triangle_hash.as_bytes());
    assert_eq!(block.hash(), blake3::hash(&bytes).to_hex().to_string());
}

#[test]
fn block_faults_in_their_order() {
    let good = create_test_transaction();
    let stamp = good.timestamp;
    let block = Block::assemble(stamp, zero_hash(), vec![good.clone()], "m".to_string(), 1).unwrap();
    assert!(block.validate_at(stamp).unwrap());
    assert!(block.validate_at(stamp.saturating_sub(3600)).unwrap());

    let mut late = block.clone();
    late.header.timestamp = stamp + 7201;
    assert_eq!(message_of(late.validate_at(stamp)), "Block timestamp too far in future");
    late.header.timestamp = stamp + 7200;
    assert!(late.validate_at(stamp).unwrap());

    let mut unproved = block.clone();
    unproved.geometric_proof.subdivision_valid = false;
    unproved.header.timestamp = stamp + 9000;
    assert_eq!(message_of(unproved.validate_at(stamp)), "Invalid subdivision proof");

    let mut forged = unproved.clone();
    forged.header.merkle_root = "0".repeat(64);
    assert_eq!(message_of(forged.validate_at(stamp)), "Invalid Merkle root");

    let mut bad = forged.clone();
    bad.triangle_transactions[0].gas_fee = dec(-1, 0);
    assert_eq!(message_of(bad.validate_at(stamp)), "Gas fee cannot be negative");
}

#[test]
fn difficulty_counts_leading_zero_characters() {
    assert_eq!(count_leading_zeros(""), 0);
    assert_eq!(count_leading_zeros("abc"), 0);
    assert_eq!(count_leading_zeros("0abc0"), 1);
    assert_eq!(count_leading_zeros("000f00"), 3);
    assert_eq!(count_leading_zeros("0000"), 4);
    assert!(hash_meets_difficulty("000f", 3));
    assert!(hash_meets_difficulty("000f", 0));
    assert!(!hash_meets_difficulty("000f", 4));
    // a leading 1 has three zero bits, and counts as no zero character
    assert!(!hash_meets_difficulty("1000", 1));

    let mut block =
        Block::assemble(1, zero_hash(), vec![create_test_transaction()], "m".to_string(), 2).unwrap();
    let found = block.search_nonce(1_000_000);
    assert!(found);
    assert!(block.meets_difficulty_target());
    assert!(block.hash().starts_with("00"));
    assert_eq!(block.geometric_proof.nonce, block.header.nonce);
    let winner = block.header.nonce;
    // it is the first nonce that meets the target
    for nonce in 0..winner.min(2000) {
        block.set_nonce(nonce);
        assert!(!block.meets_difficulty_target());
        assert_eq!(block.meets_difficulty_target(), block.hash().starts_with("00"));
    }
    block.header.difficulty = 64;
    assert!(!block.search_nonce(10));
    assert_eq!(block.header.nonce, 10);
    block.header.difficulty = 0;
    assert!(block.search_nonce(10));
    assert_eq!(block.header.nonce, 0);
}

#[test]
fn difficulty_retargeting() {
    // a window of less than 300 seconds raises the difficulty, up to 20
    assert_eq!(retarget_difficulty(4, 1000, 1299), 5);
    assert_eq!(retarget_difficulty(19, 1000, 1000), 20);
    assert_eq!(retarget_difficulty(20, 1000, 1100), 20);
    // one of more than 1200 seconds lowers it, down to 1
    assert_eq!(retarget_difficulty(4, 1000, 2201), 3);
    assert_eq!(retarget_difficulty(2, 1000, 5000), 1);
    assert_eq!(retarget_difficulty(1, 1000, 5000), 1);
    // anything between leaves it
    assert_eq!(retarget_difficulty(4, 1000, 1300), 4);
    assert_eq!(retarget_difficulty(4, 1000, 2200), 4);
    assert_eq!(retarget_difficulty(4, 1000, 1600), 4);
    // a clock that went backwards counts as a short window
    assert_eq!(retarget_difficulty(4, 2000, 1000), 5);
}

fn mine(chain: &mut TriadChainBlockchain, miner: &str, max: usize) -> Block {
    // a search can run out of nonces; the transactions stay pending, and a
    // new attempt gets a new time stamp
    for _ in 0..12 {
        match chain.mine_block(miner.to_string(), max) {
            Ok(block) => return block,
            Err(SierpinskiError::ValidationError { message }) => {
                assert_eq!(message, "Mining timeout");
                let second = now();
                while now() == second {
                    std::hint::spin_loop();
                }
            }
            Err(other) => panic!("{:?}", other),
        }
    }
    panic!("no block found");
}

#[test]
fn mined_block_joins_the_chain() {
    let mut chain = TriadChainBlockchain::new().unwrap();
    let genesis_hash = chain.blocks()[0].hash();
    let owner = TriangleAddress::genesis();
    let target = TriangleAddress::new(vec![0]).unwrap();
    let first = create_test_transaction();
    let second = TriangleTransaction::new(
        Some(owner.clone()),
        target.clone(),
        TriangleOperation::Create,
        Some(test_triangle()),
        Decimal::zero(),
    );
    let third = create_test_transaction();
    let third_id = third.id;
    chain.add_transaction(first.clone()).unwrap();
    chain.add_transaction(second.clone()).unwrap();
    chain.add_transaction(third).unwrap();

    let block = mine(&mut chain, "alice", 2);
    assert_eq!(chain.blocks().len(), 2);
    assert_eq!(chain.blocks()[1], block);
    assert_eq!(block.height, 1);
    assert_eq!(block.header.previous_hash, genesis_hash);
    assert_eq!(block.header.difficulty, 4);
    assert!(block.meets_difficulty_target());
    assert!(block.hash().starts_with("0000"));
    assert!(block.header.nonce <= 100_000);
    assert_eq!(block.triangle_transactions, vec![first, second]);
    assert_eq!(block.block_reward, dec(5024, 2));
    assert_eq!(block.miner_address, "alice");
    // the mined transactions have left the mempool, the third is pending
    assert_eq!(chain.mempool().len(), 1);
    assert_eq!(chain.mempool()[0].id, third_id);
    // the miner has the reward, and the supply has grown by it
    assert_eq!(chain.get_balance("alice"), dec(5024, 2));
    assert_eq!(chain.total_supply(), dec(100005024, 2));
    // the sender of the Create owns the new triangle and has paid no fee
    assert_eq!(chain.get_owned_triangles("genesis"), vec![target]);
    assert_eq!(chain.get_balance("genesis"), Decimal::zero());
    // two triangles were made
    assert_eq!(chain.fractal_state().len(), 3);
    assert_eq!(chain.fractal_state().triangles_by_state(TriangleState::Active).len(), 2);
    assert_eq!(chain.difficulty(), 4);
    assert!(chain.validate_chain().unwrap());
    assert!(chain.validate_chain_at(now()).unwrap());
    let stats = chain.stats();
    assert_eq!(stats.total_blocks, 2);
    assert_eq!(stats.total_transactions, 3);
    assert_eq!(stats.mempool_size, 1);
    assert_eq!(stats.unique_addresses, 3);

    // the chain stays linked as it grows
    let next = mine(&mut chain, "alice", 10);
    assert_eq!(next.height, 2);
    assert_eq!(next.header.previous_hash, block.hash());
    assert_eq!(chain.get_balance("alice"), dec(5024 + 5014, 2));
    assert!(chain.mempool().is_empty());
    for i in 1..chain.blocks().len() {
        assert_eq!(chain.blocks()[i].header.previous_hash, chain.blocks()[i - 1].hash());
        assert_eq!(chain.blocks()[i].height, i as u64);
    }
    assert!(chain.validate_chain().unwrap());
    // a chain validated in the past sees its blocks more than two hours ahead
    assert_eq!(message_of(chain.validate_chain_at(0)), "Transaction timestamp too far in future");
}

#[test]
fn transactions_of_a_block_take_effect_in_their_order() {
    let mut chain = TriadChainBlockchain::new().unwrap();
    let owner = TriangleAddress::genesis();
    let target = TriangleAddress::new(vec![2]).unwrap();
    assert_eq!(chain.get_balance("genesis"), Decimal::zero());
    let stake = TriangleTransaction::new(
        Some(owner.clone()),
        target.clone(),
        TriangleOperation::Stake { amount: dec(100, 0) },
        None,
        Decimal::zero(),
    );
    let subdivide = TriangleTransaction::new(
        Some(owner.clone()),
        target.clone(),
        TriangleOperation::Subdivide,
        None,
        Decimal::zero(),
    );
    let transfer = TriangleTransaction::new(
        Some(owner.clone()),
        target.clone(),
        TriangleOperation::Transfer,
        None,
        Decimal::zero(),
    );
    chain.add_transaction(stake).unwrap();
    chain.add_transaction(subdivide).unwrap();
    chain.add_transaction(transfer).unwrap();
    let triangles = chain.fractal_state().len();
    let subdivided = chain.fractal_state().triangles_by_state(TriangleState::Subdivided).len();
    assert!(!chain.get_owned_triangles("genesis").contains(&target));

    let block = mine(&mut chain, "bob", 10);
    assert_eq!(block.triangle_transactions.len(), 3);
    // a stake that the balance does not cover is not taken
    assert_eq!(chain.get_balance("genesis"), Decimal::zero());
    // the identifier drawn for the Subdivide names no triangle
    assert_eq!(chain.fractal_state().len(), triangles);
    assert_eq!(chain.fractal_state().triangles_by_state(TriangleState::Subdivided).len(), subdivided);
    // the Transfer has made the sender the owner of the address
    assert!(chain.get_owned_triangles("genesis").contains(&target));
    assert_eq!(chain.get_balance("bob"), block.block_reward);
    assert!(chain.mempool().is_empty());
}

#[test]
fn test_mempool_operations() {
    let mut blockchain = TriadChainBlockchain::new().unwrap();

    // a Create has to carry its triangle to be taken in
    let tx = TriangleTransaction::new(
        None,
        TriangleAddress::genesis(),
        TriangleOperation::Create,
        Some(test_triangle()),
        Decimal::new(1, 2),
    );

    blockchain.add_transaction(tx).unwrap();
    assert_eq!(blockchain.mempool().len(), 1);
}

#[test]
fn a_create_without_its_triangle_is_not_taken_in() {
    let mut blockchain = TriadChainBlockchain::new().unwrap();
    let tx = TriangleTransaction::new(
        None,
        TriangleAddress::genesis(),
        TriangleOperation::Create,
        None,
        Decimal::new(1, 2),
    );
    assert!(matches!(blockchain.add_transaction(tx), Err(SierpinskiError::ValidationError { .. })));
    assert_eq!(blockchain.mempool().len(), 0);
    assert_eq!(blockchain.difficulty(), 4);
    assert_eq!(blockchain.total_supply(), dec(1_000_000, 0));
}

#[test]
fn a_new_chain_holds_the_genesis_transaction() {
    let chain = TriadChainBlockchain::new().unwrap();
    let block = &chain.blocks()[0];
    assert_eq!(block.height, 0);
    assert_eq!(block.header.nonce, 0);
    assert_eq!(block.header.previous_hash, zero_hash());
    assert_eq!(block.miner_address, "genesis_miner");
    assert_eq!(block.triangle_transactions.len(), 1);
    let tx = &block.triangle_transactions[0];
    assert_eq!(tx.operation, TriangleOperation::Create);
    assert_eq!(tx.from_address, None);
    assert_eq!(tx.to_address, TriangleAddress::genesis());
    assert_eq!(tx.gas_fee, Decimal::zero());
    assert!(tx.signature.is_empty());
    let genesis = chain.fractal_state().genesis().unwrap();
    assert_eq!(tx.triangle_data, Some(genesis.triangle));
    assert_eq!(genesis.state, TriangleState::Genesis);
    assert_eq!(genesis.depth, 0);
    assert_eq!(chain.fractal_state().len(), 1);
    assert_eq!(chain.fractal_state().max_depth(), 0);
}

#[test]
fn mining_at_given_times() {
    let mut chain = TriadChainBlockchain::new().unwrap();
    let base = now();
    let tx = TriangleTransaction::with_identity(
        7,
        base,
        None,
        TriangleAddress::new(vec![1, 2]).unwrap(),
        TriangleOperation::Create,
        Some(test_triangle()),
        Decimal::zero(),
    );
    chain.add_transaction_at(base, tx.clone()).unwrap();

    // a block that is checked long before its time is refused, and nothing
    // changes; so it is where no nonce is found
    let mut found = None;
    for step in 0..12u64 {
        let at = base + step;
        match chain.mine_block_at(at, 0, &vec![(42, 99)], "carol".to_string(), 1) {
            Err(SierpinskiError::ValidationError { message }) => {
                assert_eq!(chain.blocks().len(), 1);
                assert_eq!(chain.mempool().len(), 1);
                assert_eq!(chain.get_balance("carol"), Decimal::zero());
                assert_eq!(chain.fractal_state().len(), 1);
                if message == "Mining timeout" {
                    continue;
                }
                assert_eq!(message, "Transaction timestamp too far in future");
                found = Some(at);
                break;
            }
            other => panic!("{:?}", other),
        }
    }
    let at = found.expect("no block found");

    // the same block at the same time, checked in time, joins the chain
    let block = chain.mine_block_at(at, at, &vec![(42, 99)], "carol".to_string(), 1).unwrap();
    assert_eq!(block.header.timestamp, at);
    assert_eq!(block.height, 1);
    assert_eq!(block.header.nonce, block.geometric_proof.nonce);
    assert!(block.header.nonce <= 100_000);
    assert!(block.meets_difficulty_target());
    assert!(block.validate_at(at).unwrap());
    assert_eq!(block.triangle_transactions, vec![tx]);
    assert_eq!(block.block_reward, block_reward(4, 1).unwrap());
    for nonce in 0..block.header.nonce.min(50) {
        let mut earlier = block.clone();
        earlier.set_nonce(nonce);
        assert!(!earlier.meets_difficulty_target());
    }
    assert_eq!(chain.blocks().len(), 2);
    assert_eq!(chain.blocks()[1], block);
    assert!(chain.mempool().is_empty());
    assert_eq!(chain.get_balance("carol"), block.block_reward);
    assert_eq!(chain.fractal_state().len(), 2);
    // the triangle was made at the depth of its address
    assert_eq!(chain.fractal_state().max_depth(), 2);
    // under the identifier and at the time that were handed in
    let made = chain.fractal_state().get_triangle(&42).unwrap();
    assert_eq!(made.created_at, 99);
    assert_eq!(made.updated_at, 99);
    assert_eq!(made.state, TriangleState::Active);
    assert_eq!(made.address, TriangleAddress::new(vec![1, 2]).unwrap());
    assert_eq!(made.triangle, test_triangle());
    assert_eq!(made.parent_id, None);
}

#[test]
fn a_subdivide_marks_the_triangle_that_is_drawn() {
    let mut chain = TriadChainBlockchain::new().unwrap();
    let base = now();
    let genesis_id = chain.fractal_state().genesis().unwrap().id;
    let subdivide = |id: u128| {
        TriangleTransaction::with_identity(
            id,
            base,
            None,
            TriangleAddress::genesis(),
            TriangleOperation::Subdivide,
            None,
            Decimal::zero(),
        )
    };
    let mine_with = |chain: &mut TriadChainBlockchain, draws: Vec<(u128, u64)>| {
        for step in 0..12u64 {
            match chain.mine_block_at(base + step, base + step, &draws, "dave".to_string(), 1) {
                Err(SierpinskiError::ValidationError { message }) => assert_eq!(message, "Mining timeout"),
                other => return other,
            }
        }
        panic!("no block found");
    };

    // an identifier that names no triangle changes nothing in the fractal
    chain.add_transaction_at(base, subdivide(1)).unwrap();
    mine_with(&mut chain, vec![(12345, 5)]).unwrap();
    assert_eq!(chain.fractal_state().genesis().unwrap().state, TriangleState::Genesis);

    // the identifier of the genesis triangle marks it, at the time given
    chain.add_transaction_at(base, subdivide(2)).unwrap();
    mine_with(&mut chain, vec![(genesis_id, 6)]).unwrap();
    let genesis = chain.fractal_state().genesis().unwrap();
    assert_eq!(genesis.state, TriangleState::Subdivided);
    assert_eq!(genesis.updated_at, 6);
    assert_eq!(chain.blocks().len(), 3);

    // a triangle that is subdivided already refuses; the block does not
    // join the chain, and its transaction stays pending
    chain.add_transaction_at(base, subdivide(3)).unwrap();
    match mine_with(&mut chain, vec![(genesis_id, 7)]) {
        Err(SierpinskiError::StateTransitionError { from, to }) => {
            assert_eq!(from, "Subdivided");
            assert_eq!(to, "Subdivided");
        }
        other => panic!("{:?}", other),
    }
    assert_eq!(chain.blocks().len(), 3);
    assert_eq!(chain.mempool().len(), 1);
    assert_eq!(chain.fractal_state().genesis().unwrap().updated_at, 6);
}
