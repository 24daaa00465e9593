//! Tests for the core data types, their canonical encodings and weights.

use pulse_node::SCALE;
use pulse_node::crypto::hash_sha256;
use pulse_node::types::{Account, Heartbeat, Motion, PulseBlock};

fn sample_motion() -> Motion {
    // 0.3 g, 0.4 g, 0 g in micro-g.
    Motion { x: 300_000, y: 400_000, z: 0 }
}

fn sample_heartbeat() -> Heartbeat {
    Heartbeat {
        timestamp: 1_700_000_000_000,
        heart_rate: 72,
        motion: sample_motion(),
        temperature: 36_600,
        device_pubkey: String::from("aabbccdd"),
        signature: String::new(),
    }
}

fn empty_block() -> PulseBlock {
    PulseBlock {
        index: 1,
        timestamp: 12_345,
        previous_hash: String::from("prev"),
        heartbeats: vec![],
        transactions: vec![],
        n_live: 0,
        total_weight: 0,
        security: 0,
        bio_entropy: String::from("00"),
        block_hash: String::new(),
    }
}

#[test]
fn test_motion_magnitude() {
    // A 3-4-5 triangle in micro-g: exactly five million.
    let m = Motion { x: 3_000_000, y: 4_000_000, z: 0 };
    assert_eq!(m.magnitude(), 5_000_000);
}

#[test]
fn test_motion_magnitude_zero() {
    let m = Motion { x: 0, y: 0, z: 0 };
    assert_eq!(m.magnitude(), 0);
}

#[test]
fn test_heartbeat_signable_bytes_deterministic() {
    let hb = sample_heartbeat();
    assert_eq!(hb.signable_bytes(), hb.signable_bytes());
}

#[test]
fn test_heartbeat_signable_bytes_excludes_signature() {
    let mut hb = sample_heartbeat();
    let bytes1 = hb.signable_bytes();
    hb.signature = String::from("deadbeef");
    let bytes2 = hb.signable_bytes();
    assert_eq!(bytes1, bytes2);
}

#[test]
fn test_heartbeat_signable_bytes_shape() {
    let hb = sample_heartbeat();
    let text = String::from_utf8(hb.signable_bytes()).unwrap();
    assert_eq!(
        text,
        "{\"device_pubkey\":\"aabbccdd\",\"heart_rate\":72,\"motion\":{\"x\":300000,\
         \"y\":400000,\"z\":0},\"temperature\":36600,\"timestamp\":1700000000000}"
    );
}

#[test]
fn test_heartbeat_weight_range() {
    let hb = sample_heartbeat();
    let w = hb.weight();
    assert!(w > 0 && w <= SCALE, "weight out of range: {}", w);
}

#[test]
fn test_heartbeat_weight_with_continuity_zero() {
    let hb = sample_heartbeat();
    let w0 = hb.weight_with_continuity(0);
    let w1 = hb.weight_with_continuity(SCALE);
    assert!(w1 > w0);
    // The continuity term contributes exactly 0.3 in micro-units.
    assert_eq!(w1 - w0, 300_000);
}

#[test]
fn test_transaction_signable_bytes_excludes_signature() {
    let mut tx = pulse_node::types::Transaction {
        tx_id: String::from("tx1"),
        sender_pubkey: String::from("s"),
        recipient_pubkey: String::from("r"),
        amount: 10_000_000,
        timestamp: 100,
        heartbeat_signature: String::from("hs"),
        signature: String::new(),
    };
    let b1 = tx.signable_bytes();
    tx.signature = String::from("changed");
    assert_eq!(b1, tx.signable_bytes());
}

#[test]
fn test_block_compute_hash_deterministic() {
    let block = empty_block();
    assert_eq!(block.compute_hash(), block.compute_hash());
    assert!(!block.compute_hash().is_empty());
}

#[test]
fn test_block_compute_hash_changes_with_data() {
    let b1 = empty_block();
    let mut b2 = b1.duplicate();
    b2.index = 2;
    assert_ne!(b1.compute_hash(), b2.compute_hash());
}

#[test]
fn test_account_default() {
    let acc = Account::default();
    assert_eq!(acc.balance, 0);
    assert_eq!(acc.blocks_participated, 0);
}

#[test]
fn test_weight_matches_logistic_table() {
    // At 72 BPM the logistic normalisation rounds to 0.246011; with no
    // motion and full continuity the weight is exactly
    // (4*246011 + 0 + 3*1000000) / 10.
    let mut hb = sample_heartbeat();
    hb.motion = Motion { x: 0, y: 0, z: 0 };
    hb.heart_rate = 72;
    assert_eq!(hb.weight_with_continuity(SCALE), 398_404);
    // And at the centre of the curve the normalisation is one half.
    hb.heart_rate = 100;
    assert_eq!(hb.weight_with_continuity(SCALE), 500_000);
}

#[test]
fn test_sha256_known_vector() {
    // SHA-256 of the empty string, as lowercase hex.
    let h = hash_sha256(&[]);
    assert_eq!(h, "e3b0c44298fc1c149afbf4c8996fb92427ae41e4649b934ca495991b7852b855");
}

#[test]
fn test_json_escaping_in_signable_bytes() {
    let mut hb = sample_heartbeat();
    hb.device_pubkey = String::from("a\"b\\c");
    let text = String::from_utf8(hb.signable_bytes()).unwrap();
    assert!(text.contains("a\\\"b\\\\c"));
}
