//! Tests for the consensus engine: admission, block formation, rewards,
//! halving, duplicates, fork resolution and persistence.

use pulse_node::SCALE;
use pulse_node::consensus::{
    ConsensusConfig, ConsensusError, ProofOfLife, compute_shares, current_time_ms,
};
use pulse_node::crypto::Keypair;
use pulse_node::storage::Storage;
use pulse_node::types::{Heartbeat, Motion};

fn heartbeat_at(keypair: &Keypair, timestamp: u64) -> Heartbeat {
    let mut hb = Heartbeat {
        timestamp,
        heart_rate: 72,
        // 0.1 g, 0.1 g, 0.05 g in micro-g.
        motion: Motion { x: 100_000, y: 100_000, z: 50_000 },
        temperature: 36_700,
        device_pubkey: keypair.public_key_hex(),
        signature: String::new(),
    };
    hb.signature = keypair.sign(&hb.signable_bytes());
    hb
}

fn create_test_heartbeat(keypair: &Keypair) -> Heartbeat {
    heartbeat_at(keypair, current_time_ms())
}

#[test]
fn test_receive_valid_heartbeat() {
    let mut pol = ProofOfLife::new(ConsensusConfig::default());
    let kp = Keypair::generate();
    let hb = create_test_heartbeat(&kp);
    assert!(pol.receive_heartbeat(hb).is_ok());
    assert_eq!(pol.heartbeat_pool_size(), 1);
}

#[test]
fn test_create_block() {
    let mut pol = ProofOfLife::new(ConsensusConfig::default());
    let kp = Keypair::generate();
    let hb = create_test_heartbeat(&kp);
    pol.receive_heartbeat(hb).unwrap();
    let block = pol.try_create_block().unwrap();
    assert!(block.is_some());
    assert_eq!(pol.chain_height(), 1);
    let b = block.unwrap();
    assert_eq!(b.n_live, 1);
    assert_eq!(b.security, b.total_weight);
    assert_eq!(b.block_hash, b.compute_hash());
}

#[test]
fn test_weight_normalization() {
    let kp = Keypair::generate();
    let mut hb_rest = create_test_heartbeat(&kp);
    hb_rest.heart_rate = 70;
    hb_rest.motion = Motion { x: 10_000, y: 10_000, z: 10_000 };
    let w_rest = hb_rest.weight_with_continuity(SCALE);

    let mut hb_active = create_test_heartbeat(&kp);
    hb_active.heart_rate = 150;
    hb_active.motion = Motion { x: 300_000, y: 200_000, z: 100_000 };
    let w_active = hb_active.weight_with_continuity(SCALE);

    let mut hb_extreme = create_test_heartbeat(&kp);
    hb_extreme.heart_rate = 200;
    hb_extreme.motion = Motion { x: 1_500_000, y: 1_000_000, z: 500_000 };
    let w_extreme = hb_extreme.weight_with_continuity(SCALE);

    assert!(w_rest > 0 && w_rest <= SCALE, "Rest weight out of range: {}", w_rest);
    assert!(w_active > 0 && w_active <= SCALE, "Active weight out of range: {}", w_active);
    assert!(w_extreme > 0 && w_extreme <= SCALE, "Extreme weight out of range: {}", w_extreme);
    assert!(w_active > w_rest, "Active ({}) should > rest ({})", w_active, w_rest);
    // The sigmoid plateau keeps extreme under 1.5x active.
    assert!(2 * w_extreme < 3 * w_active, "Extreme/active ratio too high: {}", w_extreme);
}

#[test]
fn test_continuity_affects_weight() {
    let kp = Keypair::generate();
    let hb = create_test_heartbeat(&kp);
    let w_zero = hb.weight_with_continuity(0);
    let w_full = hb.weight_with_continuity(SCALE);
    assert!(w_full > w_zero, "Full continuity ({}) should > zero ({})", w_full, w_zero);
    // The continuity term is exactly 0.3 in micro-units.
    assert_eq!(w_full - w_zero, 300_000);
}

#[test]
fn test_reward_distribution_proportional() {
    let mut pol = ProofOfLife::new(ConsensusConfig::default());
    let kp1 = Keypair::generate();
    let kp2 = Keypair::generate();

    let mut hb1 = create_test_heartbeat(&kp1);
    hb1.heart_rate = 70;
    hb1.motion = Motion { x: 10_000, y: 10_000, z: 10_000 };
    hb1.signature = kp1.sign(&hb1.signable_bytes());

    let mut hb2 = create_test_heartbeat(&kp2);
    hb2.heart_rate = 140;
    hb2.motion = Motion { x: 500_000, y: 300_000, z: 200_000 };
    hb2.signature = kp2.sign(&hb2.signable_bytes());

    pol.receive_heartbeat(hb1).unwrap();
    pol.receive_heartbeat(hb2).unwrap();
    pol.try_create_block().unwrap();

    let bal1 = pol.get_balance(&kp1.public_key_hex());
    let bal2 = pol.get_balance(&kp2.public_key_hex());

    // The reward split is exact: 100 tokens in micro-units, no dust.
    assert_eq!(bal1 + bal2, 100 * SCALE as u128, "Total rewards should be 100");
    assert!(bal2 > bal1, "Active ({}) should earn more than rest ({})", bal2, bal1);
}

#[test]
fn test_proportional_shares_exact() {
    // Two weights 0.5 and 0.8; a reward of 100 tokens splits 38.461538 and
    // 61.538462, summing exactly.
    let weights: Vec<u64> = vec![500_000, 800_000];
    let shares = compute_shares(&weights, 100 * SCALE);
    assert_eq!(shares[0], 38_461_538);
    assert_eq!(shares[1], 61_538_462);
    assert_eq!(shares[0] + shares[1], 100_000_000);
}

#[test]
fn test_duplicate_heartbeat_rejected() {
    let mut pol = ProofOfLife::new(ConsensusConfig::default());
    let kp = Keypair::generate();
    let hb = create_test_heartbeat(&kp);
    assert!(pol.receive_heartbeat(hb.duplicate()).is_ok());
    assert_eq!(pol.heartbeat_pool_size(), 1);
    let second = pol.receive_heartbeat(hb);
    assert!(second.is_err());
    assert!(matches!(second, Err(ConsensusError::StaleHeartbeat)));
    // Idempotent on retry: the pool still holds exactly one entry.
    assert_eq!(pol.heartbeat_pool_size(), 1);
}

#[test]
fn test_stale_heartbeat_rejected() {
    let mut pol = ProofOfLife::new(ConsensusConfig::default());
    let kp = Keypair::generate();
    // A heartbeat far older than the freshness window.
    let hb = heartbeat_at(&kp, 1_000);
    let r = pol.receive_heartbeat(hb);
    assert!(matches!(r, Err(ConsensusError::StaleHeartbeat)));
}

#[test]
fn test_invalid_heart_rate_rejected() {
    let mut pol = ProofOfLife::new(ConsensusConfig::default());
    let kp = Keypair::generate();
    let mut hb = create_test_heartbeat(&kp);
    hb.heart_rate = 250;
    hb.signature = kp.sign(&hb.signable_bytes());
    let r = pol.receive_heartbeat(hb);
    assert!(matches!(r, Err(ConsensusError::InvalidHeartRate(250))));
}

#[test]
fn test_bad_signature_rejected() {
    let mut pol = ProofOfLife::new(ConsensusConfig::default());
    let kp1 = Keypair::generate();
    let kp2 = Keypair::generate();
    let mut hb = create_test_heartbeat(&kp1);
    // Signed by a different key.
    hb.signature = kp2.sign(&hb.signable_bytes());
    let r = pol.receive_heartbeat(hb);
    assert!(matches!(r, Err(ConsensusError::InvalidHeartbeatSignature)));
}

#[test]
fn test_cumulative_chain_weight() {
    let mut pol = ProofOfLife::new(ConsensusConfig::default());
    assert_eq!(pol.cumulative_chain_weight(), 0);
    let kp = Keypair::generate();
    let hb1 = create_test_heartbeat(&kp);
    pol.receive_heartbeat(hb1).unwrap();
    pol.try_create_block().unwrap();
    let weight_after_1 = pol.cumulative_chain_weight();
    assert!(weight_after_1 > 0, "Cumulative weight should be > 0 after first block");
    let later = current_time_ms() + 20;
    let hb2 = heartbeat_at(&kp, later);
    pol.receive_heartbeat_at(hb2, later, 1).unwrap();
    pol.try_create_block_at(later).unwrap();
    let weight_after_2 = pol.cumulative_chain_weight();
    assert!(
        weight_after_2 > weight_after_1,
        "Cumulative weight should grow: {} > {}",
        weight_after_2,
        weight_after_1
    );
}

#[test]
fn test_halving_schedule() {
    let config = ConsensusConfig::default();
    let r0 = config.reward_at_height(0);
    assert_eq!(r0, 100 * SCALE);
    let r1 = config.reward_at_height(config.halving_interval);
    assert_eq!(r1, 50 * SCALE, "First halving should give 50, got {}", r1);
    let r2 = config.reward_at_height(config.halving_interval * 2);
    assert_eq!(r2, 25 * SCALE, "Second halving should give 25, got {}", r2);
    let r3 = config.reward_at_height(config.halving_interval * 3);
    assert_eq!(r3, 12_500_000, "Third halving should give 12.5, got {}", r3);
    // Far in the future the reward sits on the floor of 0.01 tokens.
    let r_far = config.reward_at_height(config.halving_interval * 100);
    assert_eq!(r_far, config.min_reward_per_block);
    assert_eq!(r_far, 10_000);
}

#[test]
fn test_inflation_decreases_over_time() {
    let config = ConsensusConfig::default();
    let r_early = config.reward_at_height(1000);
    let r_later = config.reward_at_height(config.halving_interval + 1000);
    assert!(
        r_early > r_later,
        "Later reward ({}) should be less than early ({})",
        r_later,
        r_early
    );
}

#[test]
fn test_transaction_admission_checks() {
    let mut pol = ProofOfLife::new(ConsensusConfig::default());
    let kp = Keypair::generate();
    let other = Keypair::generate();
    let mut tx = pulse_node::types::Transaction {
        tx_id: String::from("tx1"),
        sender_pubkey: kp.public_key_hex(),
        recipient_pubkey: other.public_key_hex(),
        amount: 1_000_000,
        timestamp: current_time_ms(),
        heartbeat_signature: String::from("hs"),
        signature: String::new(),
    };
    tx.signature = kp.sign(&tx.signable_bytes());
    // No balance yet.
    let r = pol.receive_transaction(tx.duplicate());
    assert!(matches!(r, Err(ConsensusError::InsufficientBalance)));

    // Earn a balance, but without a live heartbeat afterwards sending fails.
    let hb = create_test_heartbeat(&kp);
    pol.receive_heartbeat(hb).unwrap();
    pol.try_create_block().unwrap();
    let r2 = pol.receive_transaction(tx.duplicate());
    assert!(matches!(r2, Err(ConsensusError::SenderNotPulsing)));

    // Pulsing and solvent: accepted.
    let later = current_time_ms() + 20;
    let hb2 = heartbeat_at(&kp, later);
    pol.receive_heartbeat_at(hb2, later, 1).unwrap();
    assert!(pol.receive_transaction(tx.duplicate()).is_ok());

    // A zero amount is refused outright.
    let mut tx0 = tx.duplicate();
    tx0.amount = 0;
    tx0.signature = kp.sign(&tx0.signable_bytes());
    let r3 = pol.receive_transaction(tx0);
    assert!(matches!(r3, Err(ConsensusError::InvalidTransaction)));
}

#[test]
fn test_fork_resolution_replace_chain() {
    // Engine A builds a two-block chain; engine B, still at genesis,
    // adopts it because it is heavier, and rebuilds balances from it.
    let mut a = ProofOfLife::new(ConsensusConfig::default());
    let kp = Keypair::generate();
    a.receive_heartbeat(create_test_heartbeat(&kp)).unwrap();
    a.try_create_block().unwrap();
    let later = current_time_ms() + 20;
    a.receive_heartbeat_at(heartbeat_at(&kp, later), later, 1).unwrap();
    a.try_create_block_at(later).unwrap();
    assert_eq!(a.chain_height(), 2);

    let mut b = ProofOfLife::new(ConsensusConfig::default());
    assert_eq!(b.chain_height(), 0);
    b.replace_chain(a.get_blocks()).unwrap();
    assert_eq!(b.chain_height(), 2);
    assert!(b.cumulative_chain_weight() > 0);
    // The ledger was rebuilt: the device earned both block rewards.
    let bal = b.get_balance(&kp.public_key_hex());
    assert_eq!(bal, 200 * SCALE as u128);
}

#[test]
fn test_lighter_chain_rejected() {
    let mut a = ProofOfLife::new(ConsensusConfig::default());
    let kp = Keypair::generate();
    a.receive_heartbeat(create_test_heartbeat(&kp)).unwrap();
    a.try_create_block().unwrap();
    let mut b = ProofOfLife::new(ConsensusConfig::default());
    b.replace_chain(a.get_blocks()).unwrap();
    // Re-offering the same chain is not strictly heavier: refused.
    let r = b.replace_chain(a.get_blocks());
    assert!(matches!(r, Err(ConsensusError::InvalidPreviousHash)));
}

#[test]
fn test_receive_block_from_peer() {
    // B first syncs to A's chain, then accepts A's next block directly.
    let mut a = ProofOfLife::new(ConsensusConfig::default());
    let kp = Keypair::generate();
    a.receive_heartbeat(create_test_heartbeat(&kp)).unwrap();
    a.try_create_block().unwrap();

    let mut b = ProofOfLife::new(ConsensusConfig::default());
    b.replace_chain(a.get_blocks()).unwrap();

    let later = current_time_ms() + 20;
    a.receive_heartbeat_at(heartbeat_at(&kp, later), later, 1).unwrap();
    let next = a.try_create_block_at(later).unwrap().unwrap();
    b.receive_block(next).unwrap();
    assert_eq!(b.chain_height(), a.chain_height());
}

#[test]
fn test_receive_block_prev_hash_mismatch() {
    // A block that does not extend the local tip is refused.
    let mut a = ProofOfLife::new(ConsensusConfig::default());
    let kp = Keypair::generate();
    a.receive_heartbeat(create_test_heartbeat(&kp)).unwrap();
    let block = a.try_create_block().unwrap().unwrap();
    // B has a different genesis, so the block cannot link.
    let mut b = ProofOfLife::new(ConsensusConfig::default());
    let r = b.receive_block(block);
    assert!(matches!(r, Err(ConsensusError::InvalidPreviousHash)));
}

#[test]
fn test_storage_persistence() {
    let dir = tempfile::tempdir().unwrap();
    let path = dir.path().to_str().unwrap();
    let storage = Storage::open(path).unwrap();
    let config = ConsensusConfig::default();
    let mut pol = ProofOfLife::with_storage(config.clone(), storage).unwrap();

    let kp = Keypair::generate();
    let hb = create_test_heartbeat(&kp);
    pol.receive_heartbeat(hb).unwrap();
    pol.try_create_block().unwrap();
    assert_eq!(pol.chain_height(), 1);
    drop(pol);

    // Reconstructing from the same store restores the chain.
    let storage2 = Storage::open(path).unwrap();
    let pol2 = ProofOfLife::with_storage(config, storage2).unwrap();
    assert_eq!(pol2.chain_height(), 1);
    assert!(pol2.get_balance(&kp.public_key_hex()) > 0);
}

#[test]
fn test_cleanup_keeps_recent_devices() {
    let mut pol = ProofOfLife::new(ConsensusConfig::default());
    let kp = Keypair::generate();
    pol.receive_heartbeat(create_test_heartbeat(&kp)).unwrap();
    pol.cleanup_stale_continuity();
    // Still pulsing: the device stays and can form a block.
    assert_eq!(pol.heartbeat_pool_size(), 1);
}

#[test]
fn test_stats_reflect_state() {
    let mut pol = ProofOfLife::new(ConsensusConfig::default());
    let kp = Keypair::generate();
    pol.receive_heartbeat(create_test_heartbeat(&kp)).unwrap();
    pol.try_create_block().unwrap();
    let stats = pol.get_stats();
    assert_eq!(stats.chain_length, 2);
    assert_eq!(stats.total_minted, 100 * SCALE as u128);
    assert_eq!(stats.active_accounts, 1);
    assert_eq!(stats.current_block_reward, 100 * SCALE);
    assert_eq!(stats.halving_epoch, 0);
    assert_eq!(stats.cumulative_weight, stats.total_security);
}
