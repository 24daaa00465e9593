//! Tests for the per-key rate limiter.

use pulse_node::rate_limit::{RateLimitConfig, RateLimiter};

#[test]
fn test_default_config() {
    let cfg = RateLimitConfig::default();
    assert_eq!(cfg.max_requests, 60);
    assert_eq!(cfg.window_ms, 60_000);
}

#[test]
fn test_allows_under_limit() {
    let mut limiter = RateLimiter::new(RateLimitConfig { max_requests: 5, window_ms: 60_000 });
    let key = String::from("user1");
    for _ in 0..5 {
        assert!(limiter.check(&key, 1_000));
    }
}

#[test]
fn test_blocks_over_limit() {
    let mut limiter = RateLimiter::new(RateLimitConfig { max_requests: 3, window_ms: 60_000 });
    let key = String::from("user1");
    assert!(limiter.check(&key, 1_000));
    assert!(limiter.check(&key, 1_000));
    assert!(limiter.check(&key, 1_000));
    assert!(!limiter.check(&key, 1_000));
}

#[test]
fn test_separate_keys() {
    let mut limiter = RateLimiter::new(RateLimitConfig { max_requests: 1, window_ms: 60_000 });
    let a = String::from("a");
    let b = String::from("b");
    assert!(limiter.check(&a, 1_000));
    assert!(limiter.check(&b, 1_000));
    assert!(!limiter.check(&a, 1_000));
    assert!(!limiter.check(&b, 1_000));
}

#[test]
fn test_window_reset() {
    let mut limiter = RateLimiter::new(RateLimitConfig { max_requests: 1, window_ms: 50 });
    let key = String::from("k");
    assert!(limiter.check(&key, 1_000));
    assert!(!limiter.check(&key, 1_000));
    assert!(limiter.check(&key, 1_060));
}

#[test]
fn test_cleanup_removes_expired() {
    let mut limiter = RateLimiter::new(RateLimitConfig { max_requests: 10, window_ms: 10 });
    let key = String::from("x");
    limiter.check(&key, 1_000);
    limiter.cleanup(1_030);
    assert!(limiter.check(&key, 1_030));
}
