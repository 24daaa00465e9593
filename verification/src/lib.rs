//! Proof-of-Life blockchain node library.
//!
//! A full node for a biometric-weighted blockchain: devices submit signed
//! heartbeats carrying physiological data, each valid heartbeat contributes a
//! bounded weight, and the per-block sum of weights drives both the security
//! score and the reward split.  All quantities the protocol treats as real
//! numbers (weights, rewards, balances, temperatures) are held as
//! fixed-point integers in micro-units, so that every arithmetic step can
//! be verified exactly.

use vstd::prelude::*;

pub mod api;
pub mod biometrics;
pub mod consensus;
pub mod crypto;
pub mod enc;
pub mod events;
pub mod laws;
pub mod network;
pub mod num;
pub mod rate_limit;
pub mod storage;
pub mod types;

verus! {

/// Fixed-point scale: one unit of weight, reward or balance is `SCALE`
/// micro-units.  A weight of 1.0 is `SCALE`; 0.3 is `3 * SCALE / 10`.
pub const SCALE: u64 = 1_000_000;

/// Clamp a value to `SCALE`, i.e. to a fixed-point 1.0.
pub fn clamp_to_scale(v: u64) -> (r: u64)
    ensures
        r == if v > SCALE { SCALE as u64 } else { v },
        r <= SCALE,
{
    if v > SCALE {
        SCALE
    } else {
        v
    }
}

} // verus!
