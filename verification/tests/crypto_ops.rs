//! Tests for key generation, signing and verification.

use pulse_node::crypto::{Keypair, sign_then_verify, verify_signature};

#[test]
fn test_keypair_generation() {
    let kp = Keypair::generate();
    assert!(!kp.private_key_hex().is_empty());
    assert!(!kp.public_key_hex().is_empty());
}

#[test]
fn test_sign_and_verify() {
    let kp = Keypair::generate();
    let data = b"test heartbeat data";
    let signature = kp.sign(data);
    // A compact 64-byte signature as lowercase hex.
    assert_eq!(signature.len(), 128);
    let valid = verify_signature(&kp.public_key_hex(), data, &signature).unwrap();
    assert!(valid);
}

#[test]
fn test_invalid_signature() {
    let kp1 = Keypair::generate();
    let kp2 = Keypair::generate();
    let data = b"test data";
    let signature = kp1.sign(data);
    // Verifying under the wrong key must fail.
    let valid = verify_signature(&kp2.public_key_hex(), data, &signature).unwrap();
    assert!(!valid);
}

#[test]
fn test_keypair_roundtrip_through_private_hex() {
    let kp = Keypair::generate();
    let kp2 = Keypair::from_private_key_hex(&kp.private_key_hex()).unwrap();
    assert_eq!(kp.public_key_hex(), kp2.public_key_hex());
    let data = b"abc";
    let sig = kp2.sign(data);
    assert!(verify_signature(&kp.public_key_hex(), data, &sig).unwrap());
}

#[test]
fn test_sign_then_verify_always_succeeds() {
    // The machine-checked round trip: a well-formed keypair's signature
    // always verifies under its own public key.
    let kp = Keypair::generate();
    assert!(sign_then_verify(&kp, b"round trip"));
    assert!(sign_then_verify(&kp, b""));
}

#[test]
fn test_verify_rejects_bad_hex() {
    let r = verify_signature("zz", b"data", "00");
    assert!(r.is_err());
}
