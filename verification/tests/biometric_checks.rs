//! Tests for the biometric validator: all quantities in fixed-point
//! micro-units (motion in micro-g, temperature in milli-degrees Celsius).

use pulse_node::biometrics::BiometricValidator;

#[test]
fn test_normal_heartbeat_passes() {
    let mut v = BiometricValidator::new();
    let key = String::from("device1");
    let result = v.validate(&key, 72, 100_000, 36_700, 1);
    assert!(result.is_valid);
    assert!(result.confidence > 900_000);
}

#[test]
fn test_extreme_temperature_reduces_confidence() {
    let mut v = BiometricValidator::new();
    let key = String::from("device1");
    // 45 degrees: way too hot.
    let result = v.validate(&key, 72, 100_000, 45_000, 1);
    assert!(!result.is_valid || result.confidence < 500_000);
}

#[test]
fn test_constant_hr_detected_as_synthetic() {
    let mut v = BiometricValidator::new();
    let key = String::from("device1");
    // Fifteen identical heartbeats: no variability at all.
    for i in 0..15 {
        v.validate(&key, 72, 100_000, 36_700, i);
    }
    let result = v.validate(&key, 72, 100_000, 36_700, 99);
    assert!(
        result.confidence < 500_000,
        "Constant HR should reduce confidence: {}",
        result.confidence
    );
    assert!(!result.is_valid);
}

#[test]
fn test_natural_hrv_passes() {
    let mut v = BiometricValidator::new();
    let key = String::from("device1");
    let hrs: [u16; 15] = [72, 74, 71, 75, 73, 70, 76, 72, 74, 71, 73, 75, 72, 74, 70];
    let motions: [u64; 15] = [
        80_000, 120_000, 90_000, 150_000, 110_000, 70_000, 130_000, 100_000, 140_000, 80_000,
        120_000, 90_000, 110_000, 130_000, 100_000,
    ];
    for i in 0..hrs.len() {
        v.validate(&key, hrs[i], motions[i], 36_700, i as u64);
    }
    let result = v.validate(&key, 73, 110_000, 36_700, 99);
    assert!(result.is_valid);
    assert!(
        result.confidence > 700_000,
        "Natural HRV should have high confidence: {}",
        result.confidence
    );
}

#[test]
fn test_entropy_extraction() {
    let mut v = BiometricValidator::new();
    let key = String::from("device1");
    let r1 = v.validate(&key, 72, 100_000, 36_700, 1);
    let r2 = v.validate(&key, 73, 150_000, 36_800, 2);
    assert_eq!(r1.entropy_bits.len(), 32);
    assert_eq!(r2.entropy_bits.len(), 32);
    assert_ne!(r1.entropy_bits, r2.entropy_bits);
}

#[test]
fn test_hr_motion_mismatch() {
    let mut v = BiometricValidator::new();
    let key = String::from("device1");
    // High heart rate with essentially no motion for many readings.
    for i in 0..15 {
        v.validate(&key, 160, 10_000, 36_700, i);
    }
    let result = v.validate(&key, 165, 10_000, 36_700, 99);
    assert!(
        result.confidence < 700_000,
        "High HR + no motion should reduce confidence: {}",
        result.confidence
    );
}

#[test]
fn test_aggregate_entropy_changes_with_samples() {
    let mut v = BiometricValidator::new();
    let key = String::from("device1");
    v.validate(&key, 72, 100_000, 36_700, 1);
    let d1 = v.aggregate_entropy();
    v.validate(&key, 75, 130_000, 36_700, 2);
    let d2 = v.aggregate_entropy();
    assert_eq!(d1.len(), 32);
    assert_eq!(d2.len(), 32);
    assert_ne!(d1, d2);
}
