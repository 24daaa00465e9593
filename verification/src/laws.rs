//! The library's stated laws, as proof functions.
//!
//! Each law here holds of every reachable engine state or of all inputs; the
//! proofs rest only on the public invariant `ProofOfLife::wf` and on the
//! contracts of the functions involved.  Laws that are single-function
//! guarantees live in those functions' `ensures` instead: the exact reward
//! conservation on `compute_shares`, the halving schedule lemma beside
//! `reward_at_height`, the monotonicity of the cumulative weight, which
//! every mutating method of the engine states for itself, and the storage
//! round-trip law, stated beside the codec as
//! `crate::storage::lemma_enc_block_injective` (a block's stored form
//! determines its fields, so saving and loading yields a field-equal
//! block).

use vstd::prelude::*;

use crate::SCALE;
use crate::consensus::{ProofOfLife, ds_at, ds_entry_wf, pool_has};
use crate::crypto::sig_valid;
use crate::types::{
    Heartbeat, block_hash_spec, clamp_spec, hb_signable_spec, motion_norm_spec, weight_spec,
};

verus! {

/// Every heartbeat admitted into the pool carries a verified signature over
/// its signable bytes: `verify(hb.pubkey, signable(hb), hb.signature)` held
/// at admission and the pool keeps only such heartbeats.
pub proof fn lemma_pool_heartbeats_verified(p: &ProofOfLife, pk: Seq<char>)
    requires
        p.wf(),
        pool_has(p.devices_view(), pk),
    ensures
        ({
            let e = p.devices_view()[ds_at(p.devices_view(), pk)];
            e.heartbeat matches Some(hb) && sig_valid(
                hb.device_pubkey@,
                hb_signable_spec(&hb),
                hb.signature@,
            ) && 30 <= hb.heart_rate <= 220
        }),
{
    let i = ds_at(p.devices_view(), pk);
    assert(ds_entry_wf(&p.devices_view()[i]));
}

/// Every block of the chain carries a security score equal to its total
/// weight.
pub proof fn lemma_security_is_total_weight(p: &ProofOfLife, i: int)
    requires
        p.wf(),
        0 <= i < p.chain_view().len(),
    ensures
        p.chain_view()[i].security == p.chain_view()[i].total_weight,
{
}

/// A heartbeat's weight is bounded: `0 <= W <= 1` in micro-units, whatever
/// the heart-rate normalisation, motion magnitude and continuity factor,
/// as long as each component is in its own range.
pub proof fn lemma_weight_bounded(hr_n: int, magnitude: int, continuity: int)
    requires
        0 <= hr_n <= SCALE,
        0 <= magnitude,
        0 <= continuity,
    ensures
        0 <= weight_spec(hr_n, magnitude, continuity) <= SCALE,
{
    assert(0 <= motion_norm_spec(magnitude) <= SCALE);
    assert(0 <= clamp_spec(continuity) <= SCALE);
}

/// Consecutive blocks are linked: each block's `previous_hash` is the
/// previous block's hash, and indices ascend by one.
pub proof fn lemma_chain_linked(p: &ProofOfLife, i: int)
    requires
        p.wf(),
        1 <= i < p.chain_view().len(),
    ensures
        p.chain_view()[i].previous_hash@ == p.chain_view()[i - 1].block_hash@,
        p.chain_view()[i].index == p.chain_view()[i - 1].index + 1,
{
}

/// Every block's stored hash is the hash of its canonical bytes.
pub proof fn lemma_block_hash_sound(p: &ProofOfLife, i: int)
    requires
        p.wf(),
        0 <= i < p.chain_view().len(),
    ensures
        p.chain_view()[i].block_hash@ == block_hash_spec(&p.chain_view()[i]),
{
}

/// The signable bytes of a heartbeat are invariant under changes to its
/// signature: two heartbeats that differ only there sign identically.
pub proof fn lemma_signable_ignores_signature(a: &Heartbeat, b: &Heartbeat)
    requires
        a.timestamp == b.timestamp,
        a.heart_rate == b.heart_rate,
        a.motion.x == b.motion.x,
        a.motion.y == b.motion.y,
        a.motion.z == b.motion.z,
        a.temperature == b.temperature,
        a.device_pubkey@ == b.device_pubkey@,
    ensures
        hb_signable_spec(a) == hb_signable_spec(b),
{
}

} // verus!
