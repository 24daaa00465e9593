//! Tests for the storage layer and its block codec.

use pulse_node::storage::{Storage, decode_block, encode_block};
use pulse_node::types::{Heartbeat, Motion, PulseBlock, Transaction};

fn zeros64() -> String {
    "0".repeat(64)
}

fn sample_block() -> PulseBlock {
    PulseBlock {
        index: 1,
        timestamp: 12_345,
        previous_hash: String::from("abc"),
        heartbeats: vec![Heartbeat {
            timestamp: 7,
            heart_rate: 72,
            motion: Motion { x: -5, y: 0, z: 12 },
            temperature: 36_700,
            device_pubkey: String::from("aabb"),
            signature: String::from("sig"),
        }],
        transactions: vec![Transaction {
            tx_id: String::from("tx1"),
            sender_pubkey: String::from("s"),
            recipient_pubkey: String::from("r"),
            amount: 42_500_000,
            timestamp: 9,
            heartbeat_signature: String::from("hs"),
            signature: String::from("ts"),
        }],
        n_live: 1,
        total_weight: 500_000,
        security: 500_000,
        bio_entropy: zeros64(),
        block_hash: String::from("xyz"),
    }
}

#[test]
fn test_block_codec_roundtrip() {
    let block = sample_block();
    let bytes = encode_block(&block);
    let mut pos = 0usize;
    let decoded = decode_block(&bytes, &mut pos).unwrap();
    assert_eq!(pos, bytes.len());
    assert_eq!(decoded.index, block.index);
    assert_eq!(decoded.timestamp, block.timestamp);
    assert_eq!(decoded.previous_hash, block.previous_hash);
    assert_eq!(decoded.n_live, block.n_live);
    assert_eq!(decoded.total_weight, block.total_weight);
    assert_eq!(decoded.security, block.security);
    assert_eq!(decoded.bio_entropy, block.bio_entropy);
    assert_eq!(decoded.block_hash, block.block_hash);
    assert_eq!(decoded.heartbeats.len(), 1);
    assert_eq!(decoded.heartbeats[0].motion.x, -5);
    assert_eq!(decoded.heartbeats[0].device_pubkey, "aabb");
    assert_eq!(decoded.transactions.len(), 1);
    assert_eq!(decoded.transactions[0].amount, 42_500_000);
    // Re-encoding the decoded block reproduces the bytes exactly.
    assert_eq!(encode_block(&decoded), bytes);
}

#[test]
fn test_storage_roundtrip() {
    let dir = tempfile::tempdir().unwrap();
    let mut storage = Storage::open(dir.path().to_str().unwrap()).unwrap();
    let block = sample_block();
    storage.save_block(&block).unwrap();
    let loaded = storage.load_block(1).unwrap();
    assert_eq!(loaded.index, block.index);
    assert_eq!(loaded.block_hash, block.block_hash);
    assert_eq!(loaded.heartbeats.len(), 1);
}

#[test]
fn test_storage_missing_block() {
    let dir = tempfile::tempdir().unwrap();
    let storage = Storage::open(dir.path().to_str().unwrap()).unwrap();
    let r = storage.load_block(9);
    assert!(r.is_err());
}

#[test]
fn test_storage_chain_height() {
    let dir = tempfile::tempdir().unwrap();
    let mut storage = Storage::open(dir.path().to_str().unwrap()).unwrap();
    assert_eq!(storage.chain_height().unwrap(), 0);
    storage.save_block(&sample_block()).unwrap();
    assert_eq!(storage.chain_height().unwrap(), 1);
}

#[test]
fn test_reconstruction_refuses_accounts_without_blocks() {
    // A store holding accounts but no blocks is inconsistent: accounts only
    // ever arise from committed blocks, so reconstruction refuses it.
    let dir = tempfile::tempdir().unwrap();
    let mut storage = Storage::open(dir.path().to_str().unwrap()).unwrap();
    let account = pulse_node::types::Account {
        pubkey: String::from("aabbcc"),
        balance: 1,
        last_heartbeat: 0,
        total_earned: 1,
        blocks_participated: 1,
    };
    storage.save_account(&account).unwrap();
    let r = pulse_node::consensus::ProofOfLife::with_storage(
        pulse_node::consensus::ConsensusConfig::default(),
        storage,
    );
    assert!(r.is_err());
}

#[test]
fn test_storage_accounts() {
    let dir = tempfile::tempdir().unwrap();
    let mut storage = Storage::open(dir.path().to_str().unwrap()).unwrap();
    let account = pulse_node::types::Account {
        pubkey: String::from("aabbcc"),
        balance: 5_000_000,
        last_heartbeat: 3,
        total_earned: 7_000_000,
        blocks_participated: 2,
    };
    storage.save_account(&account).unwrap();
    let key = String::from("aabbcc");
    let loaded = storage.load_account(&key).unwrap().unwrap();
    assert_eq!(loaded.balance, 5_000_000);
    assert_eq!(loaded.total_earned, 7_000_000);
    assert_eq!(loaded.blocks_participated, 2);
    let missing_key = String::from("other");
    assert!(storage.load_account(&missing_key).unwrap().is_none());
}
