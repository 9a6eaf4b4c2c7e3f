use triadchain::address::TriangleAddress;
use triadchain::block::{Block, TriangleOperation, TriangleTransaction};
use triadchain::blockchain::TriadChainBlockchain;
use triadchain::decimal::Decimal;
use triadchain::errors::SierpinskiError;
use triadchain::genesis::genesis_triangle;
use triadchain::mining::{
    calculate_geometric_hash, generate_challenge, generate_challenge_at, is_area_preserved,
    mine_geometric_block, mine_geometric_block_at, next_step, required_subdivisions, seal_block,
    verify_geometric_work, verify_geometric_work_with, GeometricChallenge, MinerAction, MinerConfig,
    MinerEvent, RoundDraws, WorkDraws,
};
use triadchain::subdivision::PartDraws;
use triadchain::state::TriangleState;

fn dec(num: i64, scale: u32) -> Decimal {
    Decimal::new(num, scale)
}

fn create_transaction() -> TriangleTransaction {
    TriangleTransaction::new(
        None,
        TriangleAddress::genesis(),
        TriangleOperation::Create,
        Some(genesis_triangle().unwrap()),
        Decimal::new(1, 2),
    )
}

fn challenge_of(difficulty: u32) -> GeometricChallenge {
    GeometricChallenge {
        target_triangle: genesis_triangle().unwrap(),
        difficulty,
        required_subdivisions: required_subdivisions(difficulty),
        area_constraint: None,
        timestamp: 0,
        challenge_id: "test".to_string(),
    }
}

#[test]
fn test_geometric_challenge_generation() {
    let blockchain = TriadChainBlockchain::new().unwrap();
    let challenge = generate_challenge(&blockchain, 10).unwrap();

    assert!(!challenge.challenge_id.is_empty());
    assert!(challenge.difficulty > 0);
}

#[test]
fn challenge_follows_the_chain() {
    let blockchain = TriadChainBlockchain::new().unwrap();
    let challenge = generate_challenge_at(1_700_000_000, &blockchain, 10).unwrap();
    let hash = blockchain.blocks()[0].hash();
    assert_eq!(challenge.challenge_id, format!("{}-1700000000", &hash[..8]));
    assert_eq!(challenge.timestamp, 1_700_000_000);
    assert_eq!(challenge.difficulty, 4);
    assert_eq!(challenge.required_subdivisions, 2);
    assert_eq!(challenge.area_constraint, Some(dec(1, 10)));
    assert_eq!(challenge.target_triangle, genesis_triangle().unwrap());
    assert_eq!(required_subdivisions(0), 0);
    assert_eq!(required_subdivisions(7), 3);
    assert_eq!(required_subdivisions(20), 10);
    assert_eq!(required_subdivisions(21), 10);
    assert_eq!(required_subdivisions(u32::MAX), 10);
}

#[test]
fn miner_settings_by_default() {
    let config = MinerConfig::default();
    assert!(config.miner_id.starts_with("miner_"));
    assert_eq!(config.miner_id.len(), 6 + 36);
    assert!(config.max_threads >= 1);
    assert_eq!(config.target_block_time, std::time::Duration::from_secs(60));
    assert_eq!(config.max_nonce, 1_000_000);
    assert_eq!(config.geometric_precision, 10);
    assert_ne!(MinerConfig::default().miner_id, config.clone().miner_id);
}

#[test]
fn work_is_a_checked_subdivision() {
    let challenge = challenge_of(1);
    let block = Block::new("p".to_string(), vec![create_transaction()], "m".to_string(), 1).unwrap();
    let found = verify_geometric_work(&challenge, &block, 42).unwrap();
    assert_eq!(found.nonce, 42);
    assert_eq!(found.triangles_generated, 4);
    assert!(found.total_area_preserved);
    assert_eq!(found.subdivision_proof.parent.state, TriangleState::Subdivided);
    assert_eq!(found.subdivision_proof.parent.triangle, challenge.target_triangle);
    assert_eq!(found.geometric_hash, calculate_geometric_hash(&found.subdivision_proof, 42));
    assert_ne!(found.geometric_hash, calculate_geometric_hash(&found.subdivision_proof, 43));

    let proof = &found.subdivision_proof;
    let mut bytes: Vec<u8> = Vec::new();
    bytes.extend_from_slice(proof.parent.hash().as_bytes());
    for child in proof.children.iter() {
        bytes.extend_from_slice(child.hash().as_bytes());
    }
    bytes.extend_from_slice(proof.void_triangle.hash().as_bytes());
    bytes.extend_from_slice(&42u64.to_le_bytes());
    assert_eq!(found.geometric_hash, blake3::hash(&bytes).to_hex().to_string());
}

#[test]
fn area_is_preserved_within_a_small_threshold() {
    let quarter = dec(25, 2);
    assert_eq!(is_area_preserved(dec(1, 0), quarter, quarter, quarter, quarter), Some(true));
    assert_eq!(
        is_area_preserved(dec(1, 0), quarter, quarter, quarter, dec(2500000000999, 13)),
        Some(true)
    );
    assert_eq!(is_area_preserved(dec(1, 0), quarter, quarter, quarter, dec(2500000001, 10)), Some(false));
    assert_eq!(is_area_preserved(dec(1, 0), quarter, quarter, quarter, dec(2499999999, 10)), Some(false));
}

#[test]
fn geometric_mining_finds_a_block() {
    let transactions = vec![create_transaction(), create_transaction()];
    let challenge = challenge_of(1);
    let block = mine_geometric_block(&challenge, &transactions, "miner", u64::MAX - 3, 2000).unwrap();
    assert!(block.meets_difficulty_target());
    assert!(block.hash().starts_with('0'));
    assert_eq!(block.header.difficulty, 1);
    assert_eq!(block.triangle_transactions, transactions);
    assert_eq!(block.miner_address, "miner");
    assert_eq!(block.header.previous_hash, "previous_hash");
    assert_eq!(block.geometric_proof.nonce, block.header.nonce);
    assert!(block.geometric_proof.subdivision_valid);
    assert!(block.geometric_proof.area_conservation);
    assert_eq!(block.geometric_proof.merkle_root, block.header.merkle_root);
    assert_eq!(block.geometric_proof.triangle_hash.len(), 64);

    match mine_geometric_block(&challenge, &transactions, "miner", 0, 0) {
        Err(SierpinskiError::SubdivisionError { reason }) => {
            assert_eq!(reason, "Failed to find valid geometric proof")
        }
        other => panic!("{:?}", other),
    }
    // a difficulty of 64 digits is out of reach
    assert!(mine_geometric_block(&challenge_of(64), &transactions, "miner", 0, 20).is_err());
}

#[test]
fn a_worker_decides_its_next_step() {
    // nothing to work on: wait a second, and keep the nonce
    assert_eq!(next_step(7, 0, MinerEvent::NoChallenge), (7, MinerAction::Wait { seconds: 1 }));
    assert_eq!(next_step(7, 0, MinerEvent::Snapshot { pending: 0 }), (7, MinerAction::Wait { seconds: 1 }));
    // pending transactions: search from the nonce on
    assert_eq!(next_step(7, 0, MinerEvent::Snapshot { pending: 3 }), (7, MinerAction::Search { start_nonce: 7 }));
    // a block: hand the transactions that were seen to the chain, and begin at zero
    assert_eq!(next_step(7, 3, MinerEvent::Found), (0, MinerAction::Apply { max_transactions: 3 }));
    assert_eq!(next_step(0, 3, MinerEvent::Applied), (0, MinerAction::Pause { millis: 1 }));
    // no block: move on by one, wrapping round
    assert_eq!(next_step(7, 3, MinerEvent::NotFound), (8, MinerAction::Pause { millis: 1 }));
    assert_eq!(next_step(u64::MAX, 3, MinerEvent::NotFound), (0, MinerAction::Pause { millis: 1 }));
}

#[test]
fn a_block_is_sealed_where_it_shows_the_work() {
    let challenge = challenge_of(0);
    let easy = Block::assemble(1000, "previous_hash".to_string(), vec![create_transaction()], "erin".to_string(), 0)
        .unwrap();
    let mut found = verify_geometric_work(&challenge, &easy, 9).unwrap();
    assert!(found.total_area_preserved);
    assert_eq!(found.triangles_generated, 4);

    // every hash meets the difficulty zero
    let shown = seal_block(easy.clone(), &found, 9, 3).unwrap();
    assert_eq!(shown.geometric_proof.triangle_hash, found.geometric_hash);
    assert_eq!(shown.geometric_proof.nonce, 9);
    assert_eq!(shown.geometric_proof.difficulty, 3);
    assert!(shown.geometric_proof.subdivision_valid);
    assert!(shown.geometric_proof.area_conservation);
    assert_eq!(shown.geometric_proof.merkle_root, easy.header.merkle_root);
    assert_eq!(shown.header, easy.header);
    assert_eq!(shown.triangle_transactions, easy.triangle_transactions);

    // no hash has sixty-five zeros in front
    let hard = Block::assemble(1000, "previous_hash".to_string(), vec![create_transaction()], "erin".to_string(), 65)
        .unwrap();
    assert!(seal_block(hard, &found, 9, 65).is_none());

    // work that does not preserve the area seals nothing
    found.total_area_preserved = false;
    assert!(seal_block(easy.clone(), &found, 9, 0).is_none());
    found.total_area_preserved = true;
    found.triangles_generated = 0;
    assert!(seal_block(easy, &found, 9, 0).is_none());
}

fn round_draws(time: u64, first: u128) -> RoundDraws {
    RoundDraws {
        time,
        work: WorkDraws {
            parent_id: first,
            parent_time: time,
            parts: PartDraws {
                ids: [first + 1, first + 2, first + 3, first + 4],
                times: [time; 4],
                changed_at: time,
            },
        },
    }
}

#[test]
fn the_hash_of_the_work_follows_the_identifiers() {
    let challenge = challenge_of(0);
    let block = Block::assemble(1000, "previous_hash".to_string(), vec![create_transaction()], "erin".to_string(), 0)
        .unwrap();
    let one = verify_geometric_work_with(&challenge, &block, 9, &round_draws(1, 100).work).unwrap();
    let same = verify_geometric_work_with(&challenge, &block, 9, &round_draws(2, 100).work).unwrap();
    let other = verify_geometric_work_with(&challenge, &block, 9, &round_draws(1, 200).work).unwrap();
    let later = verify_geometric_work_with(&challenge, &block, 10, &round_draws(1, 100).work).unwrap();
    // the times do not enter the hash; the identifiers and the nonce do
    assert_eq!(one.geometric_hash, same.geometric_hash);
    assert_ne!(one.geometric_hash, other.geometric_hash);
    assert_ne!(one.geometric_hash, later.geometric_hash);
    assert_eq!(one.geometric_hash, calculate_geometric_hash(&one.subdivision_proof, 9));
    assert_eq!(one.subdivision_proof.parent.id, 100);
    assert_eq!(one.subdivision_proof.children[0].id, 101);
    assert_eq!(one.subdivision_proof.void_triangle.id, 104);
    assert_eq!(one.subdivision_proof.parent.triangle, challenge.target_triangle);
    assert!(one.total_area_preserved);
}

#[test]
fn a_search_with_given_draws() {
    let transactions = vec![create_transaction()];
    let draws = vec![round_draws(500, 100), round_draws(600, 200), round_draws(700, 300)];

    // at difficulty zero the first round gives the block
    let easy = challenge_of(0);
    let block = mine_geometric_block_at(&easy, &transactions, "erin", 41, 3, &draws).unwrap();
    assert_eq!(block.header.nonce, 41);
    assert_eq!(block.geometric_proof.nonce, 41);
    assert_eq!(block.header.timestamp, 500);
    assert_eq!(block.header.difficulty, 0);
    assert_eq!(block.miner_address, "erin");
    assert_eq!(block.triangle_transactions, transactions);
    let made = Block::assemble(500, "previous_hash".to_string(), vec![create_transaction()], "erin".to_string(), 0)
        .unwrap();
    let work = verify_geometric_work_with(&easy, &made, 41, &draws[0].work).unwrap();
    assert_eq!(block.geometric_proof.triangle_hash, work.geometric_hash);
    assert_eq!(block.geometric_proof.merkle_root, block.header.merkle_root);
    // the same draws give the same block
    let again = mine_geometric_block_at(&easy, &transactions, "erin", 41, 3, &draws).unwrap();
    assert_eq!(again, block);
    // the nonce wraps round
    let wrapped = mine_geometric_block_at(&easy, &transactions, "erin", u64::MAX, 1, &draws).unwrap();
    assert_eq!(wrapped.header.nonce, u64::MAX);

    // no hash has sixty-five zeros in front: every round fails
    let hard = challenge_of(65);
    match mine_geometric_block_at(&hard, &transactions, "erin", 41, 3, &draws) {
        Err(SierpinskiError::SubdivisionError { reason }) => assert_eq!(reason, "Failed to find valid geometric proof"),
        other => panic!("{:?}", other),
    }
    // no round, no block
    assert!(mine_geometric_block_at(&easy, &transactions, "erin", 41, 0, &draws).is_err());
    // without draws the search draws for itself
    let drawn = mine_geometric_block(&easy, &transactions, "erin", 7, 2).unwrap();
    assert_eq!(drawn.header.nonce, 7);
}

#[test]
fn a_search_finds_the_first_round_that_meets_the_difficulty() {
    let transactions = vec![TriangleTransaction::with_identity(
        1,
        1000,
        None,
        TriangleAddress::genesis(),
        TriangleOperation::Create,
        Some(genesis_triangle().unwrap()),
        Decimal::new(1, 2),
    )];
    let challenge = challenge_of(1);
    let draws: Vec<RoundDraws> = (0..200u64).map(|j| round_draws(1000 + j, 1000 * (j as u128 + 1))).collect();
    let block = mine_geometric_block_at(&challenge, &transactions, "erin", 0, 200, &draws).unwrap();
    let k = block.header.nonce;
    assert!(k < 200);
    assert!(block.meets_difficulty_target());
    assert_eq!(block.header.timestamp, 1000 + k);
    // no earlier round gives a block that meets the difficulty
    for j in 0..k {
        let made = Block::assemble(
            1000 + j,
            "previous_hash".to_string(),
            vec![transactions[0].clone()],
            "erin".to_string(),
            1,
        )
        .unwrap();
        let mut tried = made;
        tried.set_nonce(j);
        let work = verify_geometric_work_with(&challenge, &tried, j, &draws[j as usize].work).unwrap();
        assert!(seal_block(tried, &work, j, 1).is_none());
    }
}
