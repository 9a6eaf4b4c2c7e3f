use triadchain::address::TriangleAddress;
use triadchain::block::{TriangleOperation, TriangleTransaction};
use triadchain::blockchain::TriadChainBlockchain;
use triadchain::decimal::Decimal;
use triadchain::errors::SierpinskiError;
use triadchain::genesis::genesis_triangle;
use triadchain::network::{
    blocks_from, handshake, is_broadcast_target, peer_effect, response_to, sync_request,
    ConnectionState, NetworkMessage, PeerEffect,
};
use triadchain::wallet::{message_to_sign, operation_to_text, TriadChainWallet, TriangleOwnership};

fn dec(num: i64, scale: u32) -> Decimal {
    Decimal::new(num, scale)
}

fn message_of<T: std::fmt::Debug>(r: Result<T, SierpinskiError>) -> String {
    match r {
        Err(SierpinskiError::ValidationError { message }) => message,
        other => panic!("{:?}", other),
    }
}

#[test]
fn test_wallet_creation() {
    let wallet = TriadChainWallet::new().unwrap();
    assert!(!wallet.wallet_id.is_empty());
    assert!(wallet.wallet_id.starts_with("ST"));
    assert_eq!(wallet.balance, Decimal::zero());
}

#[test]
fn test_transaction_signing() {
    let wallet = TriadChainWallet::new().unwrap();

    let mut transaction = TriangleTransaction::new(
        None,
        TriangleAddress::genesis(),
        TriangleOperation::Create,
        None,
        Decimal::new(1, 2),
    );

    wallet.sign_transaction(&mut transaction).unwrap();
    assert!(!transaction.signature.is_empty());

    // Verify signature
    assert!(TriadChainWallet::verify_transaction_signature(&transaction, &wallet.public_key));
}

#[test]
fn test_wallet_stats() {
    let wallet = TriadChainWallet::new().unwrap();
    let stats = wallet.get_stats().unwrap();

    assert_eq!(stats.total_triangles, 0);
    assert_eq!(stats.total_balance, Decimal::zero());
}

#[test]
fn wallet_keys_are_derived_from_the_secret() {
    let secret = [7u8; 32];
    let wallet = TriadChainWallet::from_signing_key(secret);
    let key = ed25519_dalek::SigningKey::from_bytes(&secret);
    assert_eq!(wallet.public_key, key.verifying_key().to_bytes());
    let hash = blake3::hash(&wallet.public_key).to_hex().to_string();
    assert_eq!(wallet.wallet_id, format!("ST{}", &hash[..32]));
    assert_eq!(TriadChainWallet::derive_wallet_address(&wallet.public_key), wallet.wallet_id);
    assert_eq!(wallet.wallet_id.len(), 34);
    assert!(wallet.owned_triangles.is_empty());
    assert!(wallet.transaction_history.is_empty());
    let other = TriadChainWallet::new().unwrap();
    assert_ne!(other.public_key, wallet.public_key);
}

#[test]
fn signed_message_names_the_transaction() {
    let to = TriangleAddress::new(vec![0, 3]).unwrap();
    let mut transaction = TriangleTransaction::with_identity(
        0xa1a2a3a4b1b2c1c2d1d2d3d4d5d6d7d8,
        1_700_000_000,
        None,
        to,
        TriangleOperation::Stake { amount: dec(125, 1) },
        None,
        dec(1, 2),
    );
    assert_eq!(
        message_to_sign(&transaction),
        "a1a2a3a4-b1b2-c1c2-d1d2-d3d4d5d6d7d8:0.3:{\"Stake\":{\"amount\":\"12.5\"}}:1700000000"
    );
    assert_eq!(operation_to_text(&TriangleOperation::Create), "\"Create\"");
    assert_eq!(operation_to_text(&TriangleOperation::Subdivide), "\"Subdivide\"");
    assert_eq!(operation_to_text(&TriangleOperation::Transfer), "\"Transfer\"");
    assert_eq!(operation_to_text(&TriangleOperation::Merge), "\"Merge\"");
    assert_eq!(
        operation_to_text(&TriangleOperation::ClaimReward { amount: dec(-5, 0) }),
        "{\"ClaimReward\":{\"amount\":\"-5\"}}"
    );

    let secret = [9u8; 32];
    let wallet = TriadChainWallet::from_signing_key(secret);
    wallet.sign_transaction(&mut transaction).unwrap();
    assert_eq!(transaction.signature.len(), 64);
    let key = ed25519_dalek::SigningKey::from_bytes(&secret);
    let expected = ed25519_dalek::Signer::sign(&key, message_to_sign(&transaction).as_bytes());
    assert_eq!(transaction.signature, expected.to_bytes().to_vec());
    assert!(TriadChainWallet::verify_transaction_signature(&transaction, &wallet.public_key));

    // another key, another message, or a broken signature do not verify
    let other = TriadChainWallet::from_signing_key([1u8; 32]);
    assert!(!TriadChainWallet::verify_transaction_signature(&transaction, &other.public_key));
    let mut changed = transaction.clone();
    changed.timestamp += 1;
    assert!(!TriadChainWallet::verify_transaction_signature(&changed, &wallet.public_key));
    let mut broken = transaction.clone();
    broken.signature[5] ^= 1;
    assert!(!TriadChainWallet::verify_transaction_signature(&broken, &wallet.public_key));
    let mut short = transaction.clone();
    short.signature.pop();
    assert!(!TriadChainWallet::verify_transaction_signature(&short, &wallet.public_key));
    short.signature.clear();
    assert!(!TriadChainWallet::verify_transaction_signature(&short, &wallet.public_key));
}

#[test]
fn wallet_spends_only_what_it_owns_and_holds() {
    let mut wallet = TriadChainWallet::from_signing_key([3u8; 32]);
    let owned = TriangleAddress::new(vec![1]).unwrap();
    let other = TriangleAddress::new(vec![2]).unwrap();
    wallet.owned_triangles.push(TriangleOwnership {
        address: owned.clone(),
        triangle_data: Some(genesis_triangle().unwrap()),
        acquisition_time: 0,
        is_staked: true,
        staked_amount: dec(5, 0),
        estimated_value: dec(40, 0),
    });
    wallet.balance = dec(10, 0);
    wallet.staked_balance = dec(4, 0);

    assert_eq!(
        message_of(wallet.create_transfer_transaction("0", other.clone(), dec(1, 0))),
        "Triangle not owned by this wallet"
    );
    assert_eq!(
        message_of(wallet.create_transfer_transaction("0", owned.clone(), dec(11, 0))),
        "Insufficient balance for gas fee"
    );
    assert!(matches!(
        wallet.create_transfer_transaction("0.9", owned.clone(), dec(1, 0)),
        Err(SierpinskiError::InvalidAddress { .. })
    ));
    let transfer = wallet.create_transfer_transaction("0.2", owned.clone(), dec(10, 0)).unwrap();
    assert_eq!(transfer.from_address, Some(owned.clone()));
    assert_eq!(transfer.to_address.components(), &[0, 2]);
    assert_eq!(transfer.operation, TriangleOperation::Transfer);
    assert_eq!(transfer.triangle_data, Some(genesis_triangle().unwrap()));
    assert_eq!(transfer.gas_fee, dec(10, 0));
    assert!(TriadChainWallet::verify_transaction_signature(&transfer, &wallet.public_key));

    assert_eq!(
        message_of(wallet.create_stake_transaction(owned.clone(), dec(95, 1), dec(1, 0))),
        "Insufficient balance for stake and gas"
    );
    assert_eq!(
        message_of(wallet.create_stake_transaction(other.clone(), dec(1, 0), dec(1, 0))),
        "Triangle not owned by this wallet"
    );
    let stake = wallet.create_stake_transaction(owned.clone(), dec(9, 0), dec(1, 0)).unwrap();
    assert_eq!(stake.operation, TriangleOperation::Stake { amount: dec(9, 0) });
    assert_eq!(stake.from_address, Some(owned.clone()));
    assert_eq!(stake.to_address, owned);
    assert!(stake.triangle_data.is_none());
    assert!(TriadChainWallet::verify_transaction_signature(&stake, &wallet.public_key));

    assert_eq!(
        message_of(wallet.create_subdivision_transaction(other, dec(1, 0))),
        "Triangle not owned by this wallet"
    );
    assert_eq!(
        message_of(wallet.create_subdivision_transaction(owned.clone(), dec(11, 0))),
        "Insufficient balance for gas fee"
    );
    let subdivision = wallet.create_subdivision_transaction(owned.clone(), dec(1, 0)).unwrap();
    assert_eq!(subdivision.operation, TriangleOperation::Subdivide);
    assert!(subdivision.triangle_data.is_some());

    let stats = wallet.get_stats().unwrap();
    assert_eq!(stats.wallet_id, wallet.wallet_id);
    assert_eq!(stats.total_balance, dec(10, 0));
    assert_eq!(stats.staked_balance, dec(4, 0));
    assert_eq!(stats.available_balance, dec(6, 0));
    assert_eq!(stats.total_triangles, 1);
    assert_eq!(stats.staked_triangles, 1);
    assert_eq!(stats.estimated_portfolio_value, dec(40, 0));
    assert_eq!(stats.transaction_count, 0);
    let public = wallet.export_public();
    assert_eq!(public.wallet_id, wallet.wallet_id);
    assert_eq!(public.public_key, wallet.public_key);
    assert_eq!(public.owned_triangles.len(), 1);
    assert_eq!(public.balance, dec(10, 0));

    // ten tokens, times four at depth one, over the area and a thousandth
    let value = wallet.estimate_triangle_value(&owned).unwrap();
    let expected = dec(40, 0).checked_mul(dec(1, 0).checked_div(dec(434, 3)).unwrap()).unwrap();
    assert_eq!(value, expected);
    assert_eq!(
        wallet.estimate_triangle_value(&TriangleAddress::new(vec![0, 0]).unwrap()).unwrap(),
        dec(80, 0)
    );
    assert_eq!(wallet.estimate_triangle_value(&TriangleAddress::genesis()).unwrap(), dec(20, 0));
}

#[test]
fn wallet_follows_the_chain() {
    let chain = TriadChainBlockchain::new().unwrap();
    let mut wallet = TriadChainWallet::new().unwrap();
    wallet.wallet_id = "genesis_miner".to_string();
    wallet.sync_with_blockchain_at(77, &chain).unwrap();
    assert_eq!(wallet.balance, dec(1_000_000, 0));
    assert_eq!(wallet.owned_triangles.len(), 1);
    let entry = &wallet.owned_triangles[0];
    assert_eq!(entry.address, TriangleAddress::genesis());
    assert_eq!(entry.triangle_data, Some(genesis_triangle().unwrap()));
    assert_eq!(entry.acquisition_time, 77);
    assert!(!entry.is_staked);
    assert_eq!(entry.staked_amount, Decimal::zero());
    assert_eq!(entry.estimated_value, dec(20, 0));
    // a second look changes nothing
    wallet.sync_with_blockchain(&chain).unwrap();
    assert_eq!(wallet.owned_triangles.len(), 1);
    assert_eq!(wallet.owned_triangles[0].acquisition_time, 77);

    let mut stranger = TriadChainWallet::new().unwrap();
    stranger.balance = dec(5, 0);
    stranger.sync_with_blockchain(&chain).unwrap();
    assert_eq!(stranger.balance, Decimal::zero());
    assert!(stranger.owned_triangles.is_empty());
}

#[test]
fn node_answers_its_peers() {
    let chain = TriadChainBlockchain::new().unwrap();
    match handshake("node_1", &chain) {
        NetworkMessage::Handshake { peer_id, version, blockchain_height } => {
            assert_eq!(peer_id, "node_1");
            assert_eq!(version, "0.1.0");
            assert_eq!(blockchain_height, 1);
        }
        other => panic!("{:?}", other),
    }
    let hello = NetworkMessage::Handshake {
        peer_id: "peer".to_string(),
        version: "9".to_string(),
        blockchain_height: 5,
    };
    assert!(matches!(
        response_to(&hello, "node_1", &chain),
        Some(NetworkMessage::Handshake { blockchain_height: 1, .. })
    ));
    match peer_effect(&hello) {
        PeerEffect::Register { peer_id, version, blockchain_height } => {
            assert_eq!(peer_id, "peer");
            assert_eq!(version, "9");
            assert_eq!(blockchain_height, 5);
        }
        other => panic!("{:?}", other),
    }
    assert!(matches!(response_to(&NetworkMessage::Ping, "n", &chain), Some(NetworkMessage::Pong)));
    assert!(response_to(&NetworkMessage::Pong, "n", &chain).is_none());
    assert!(matches!(peer_effect(&NetworkMessage::Pong), PeerEffect::Touch));
    assert!(matches!(peer_effect(&NetworkMessage::Ping), PeerEffect::Nothing));
    let discovery = NetworkMessage::PeerDiscovery { known_peers: vec!["127.0.0.1:8080".to_string()] };
    assert!(response_to(&discovery, "n", &chain).is_none());

    let request = NetworkMessage::BlockRequest { start_height: 0, count: 10 };
    match response_to(&request, "n", &chain) {
        Some(NetworkMessage::BlockResponse { blocks }) => {
            assert_eq!(blocks.len(), 1);
            assert_eq!(blocks[0], chain.blocks()[0]);
        }
        other => panic!("{:?}", other),
    }
    assert!(blocks_from(&chain, 1, 10).is_empty());
    assert!(blocks_from(&chain, 0, 0).is_empty());
    assert!(blocks_from(&chain, u64::MAX, u32::MAX).is_empty());
    assert_eq!(blocks_from(&chain, 0, u32::MAX).len(), 1);
    let new_block = NetworkMessage::NewBlock { block: chain.blocks()[0].clone() };
    assert!(response_to(&new_block, "n", &chain).is_none());

    assert!(sync_request(5, 5).is_none());
    assert!(sync_request(5, 4).is_none());
    assert!(matches!(
        sync_request(5, 9),
        Some(NetworkMessage::BlockRequest { start_height: 5, count: 4 })
    ));
    assert!(is_broadcast_target(&ConnectionState::Connected));
    assert!(is_broadcast_target(&ConnectionState::Ready));
    assert!(!is_broadcast_target(&ConnectionState::Syncing));
    assert!(!is_broadcast_target(&ConnectionState::Connecting));
    assert!(!is_broadcast_target(&ConnectionState::Disconnected));
}
