//! The proof-of-life consensus engine.
//!
//! Devices submit signed heartbeats; admitted heartbeats wait in a pool keyed
//! by device; on a tick the engine forms a block whose security score is the
//! sum of the heartbeats' bounded weights, distributes the block reward in
//! exact proportion to those same weights, settles pending transactions,
//! appends the block and persists it.  Peer blocks and whole candidate chains
//! go through the same validation; the heaviest chain by cumulative weight
//! wins.

use vstd::prelude::*;

use crate::SCALE;
use crate::biometrics::{
    BiometricValidator, MOTION_CAP, confidence_spec, hist_has, hr_of, hr_section, motion_of,
    motion_section, push_trim16, push_trim64, temp_outside,
};
use crate::crypto::{
    CryptoError, hash_sha256, hex_decodable, hex_of, pubkey_parses, sha256_of, sig_parses,
    sig_valid, verify_signature,
};
use crate::num::part_of;
use crate::storage::{Storage, StorageError};
use crate::types::{
    Account, Heartbeat, NetworkStats, PulseBlock, Transaction, block_hash_spec, hb_signable_spec,
    hr_norm_spec, tx_signable_spec, weight_spec,
};

verus! {

/// Why the engine refused an input.
#[derive(Debug)]
pub enum ConsensusError {
    /// The heartbeat's signature does not verify.
    InvalidHeartbeatSignature,
    /// The heartbeat is too old, or repeats the last admitted one.
    StaleHeartbeat,
    /// Heart rate outside the protocol's 30..=220 BPM range.
    InvalidHeartRate(u16),
    /// Too few live participants to form a block.
    InsufficientParticipants(usize, usize),
    /// The transaction's signature does not verify.
    InvalidTransactionSignature,
    /// A transaction with a zero amount or equal sender and recipient.
    InvalidTransaction,
    /// The sender cannot cover the amount.
    InsufficientBalance,
    /// The sender has no heartbeat in the pool.
    SenderNotPulsing,
    /// The biometric validator scored the heartbeat as implausible.
    BiometricValidationFailed(String),
    /// A peer block that does not extend the local tip, or an invalid or
    /// lighter candidate chain.
    InvalidPreviousHash,
    /// A cryptographic input could not even be parsed.
    Crypto(CryptoError),
    /// The persistent store failed.
    Storage(StorageError),
}

impl ConsensusError {
    /// A short human-readable description.
    pub fn message(&self) -> String {
        match self {
            ConsensusError::InvalidHeartbeatSignature => String::from_str(
                "invalid heartbeat signature",
            ),
            ConsensusError::StaleHeartbeat => String::from_str("stale heartbeat"),
            ConsensusError::InvalidHeartRate(_) => String::from_str("invalid heart rate"),
            ConsensusError::InsufficientParticipants(_, _) => String::from_str(
                "insufficient live participants",
            ),
            ConsensusError::InvalidTransactionSignature => String::from_str(
                "invalid transaction signature",
            ),
            ConsensusError::InvalidTransaction => String::from_str(
                "transaction amount must be positive and sender must differ from recipient",
            ),
            ConsensusError::InsufficientBalance => String::from_str("insufficient balance"),
            ConsensusError::SenderNotPulsing => String::from_str("sender not pulsing"),
            ConsensusError::BiometricValidationFailed(_) => String::from_str(
                "biometric validation failed",
            ),
            ConsensusError::InvalidPreviousHash => String::from_str("invalid previous hash"),
            ConsensusError::Crypto(_) => String::from_str("cryptographic error"),
            ConsensusError::Storage(_) => String::from_str("storage error"),
        }
    }
}

/// Configuration of the consensus engine; token quantities in micro-units.
#[derive(Debug, Clone)]
pub struct ConsensusConfig {
    /// Minimum pool size to form a block.
    pub n_threshold: usize,
    /// Tick period in milliseconds.
    pub block_interval_ms: u64,
    /// Base reward per block before halving, micro-tokens.
    pub initial_reward_per_block: u64,
    /// Freshness window for heartbeats, milliseconds.
    pub max_heartbeat_age_ms: u64,
    /// Base fork-probability constant `k`, micro-units; informational.
    pub fork_constant: u64,
    /// Blocks between reward halvings.
    pub halving_interval: u64,
    /// Reward floor, micro-tokens.
    pub min_reward_per_block: u64,
    /// Reserved smoothing window; informational.
    pub inflation_smoothing_window: usize,
}

impl Default for ConsensusConfig {
    /// The default configuration: 100-token initial reward halving every
    /// 210 000 blocks down to a floor of 0.01.
    fn default() -> (r: ConsensusConfig)
        ensures
            r.n_threshold == 1,
            r.block_interval_ms == 5000,
            r.initial_reward_per_block == 100 * SCALE,
            r.max_heartbeat_age_ms == 30000,
            r.fork_constant as int == SCALE as int / 2,
            r.halving_interval == 210000,
            r.min_reward_per_block as int == SCALE as int / 100,
            r.inflation_smoothing_window == 100,
    {
        ConsensusConfig {
            n_threshold: 1,
            block_interval_ms: 5000,
            initial_reward_per_block: 100_000_000,
            max_heartbeat_age_ms: 30000,
            fork_constant: 500_000,
            halving_interval: 210_000,
            min_reward_per_block: 10_000,
            inflation_smoothing_window: 100,
        }
    }
}

/// The block reward at a height: the initial reward halved once per elapsed
/// halving interval, never below the floor, and pinned to the floor beyond
/// 63 halvings.
pub open spec fn reward_spec(initial: u64, floor: u64, interval: u64, height: u64) -> int {
    if interval == 0 {
        initial as int
    } else {
        let halvings = height as int / interval as int;
        if halvings >= 64 {
            floor as int
        } else {
            let halved = initial as int / vstd::arithmetic::power2::pow2(halvings as nat) as int;
            if halved > floor {
                halved
            } else {
                floor as int
            }
        }
    }
}

impl ConsensusConfig {
    /// The block reward at a given height, halvings and floor applied.
    pub fn reward_at_height(&self, block_height: u64) -> (r: u64)
        ensures
            r as int == reward_spec(
                self.initial_reward_per_block,
                self.min_reward_per_block,
                self.halving_interval,
                block_height,
            ),
    {
        if self.halving_interval == 0 {
            return self.initial_reward_per_block;
        }
        let halvings: u64 = block_height / self.halving_interval;
        if halvings >= 64 {
            return self.min_reward_per_block;
        }
        let mut divisor: u64 = 1;
        let mut i: u64 = 0;
        proof {
            vstd::arithmetic::power2::lemma2_to64();
        }
        while i < halvings
            invariant
                i <= halvings < 64,
                divisor as int == vstd::arithmetic::power2::pow2(i as nat),
                divisor >= 1,
            decreases halvings - i,
        {
            proof {
                vstd::arithmetic::power2::lemma_pow2_adds(i as nat, 1);
                vstd::arithmetic::power2::lemma2_to64();
                vstd::arithmetic::power2::lemma2_to64_rest();
                if i < 62 {
                    vstd::arithmetic::power2::lemma_pow2_strictly_increases(i as nat, 62);
                }
                assert(divisor as int <= vstd::arithmetic::power2::pow2(62));
                assert(vstd::arithmetic::power2::pow2(62) == 0x4000_0000_0000_0000);
                assert(vstd::arithmetic::power2::pow2(1) == 2);
            }
            divisor = divisor * 2;
            i = i + 1;
        }
        let halved: u64 = self.initial_reward_per_block / divisor;
        if halved > self.min_reward_per_block {
            halved
        } else {
            self.min_reward_per_block
        }
    }
}

/// The halving law: at height `k * halving_interval`, while the halved value
/// stays at or above the floor, the reward is exactly `initial / 2^k`.
///
/// The floor is the one genuine exception: with the defaults, from the point
/// where `100 / 2^k` drops under 0.01 tokens the reward is the floor, not
/// the power of two.
pub proof fn lemma_halving_schedule(cfg: ConsensusConfig, k: u64)
    requires
        cfg.halving_interval > 0,
        k < 64,
        k * cfg.halving_interval <= u64::MAX,
        cfg.initial_reward_per_block as int / vstd::arithmetic::power2::pow2(k as nat) as int
            >= cfg.min_reward_per_block,
    ensures
        reward_spec(
            cfg.initial_reward_per_block,
            cfg.min_reward_per_block,
            cfg.halving_interval,
            (k * cfg.halving_interval) as u64,
        ) == cfg.initial_reward_per_block as int / vstd::arithmetic::power2::pow2(k as nat) as int,
{
    let h = (k * cfg.halving_interval) as u64;
    assert(h as int == k * cfg.halving_interval);
    vstd::arithmetic::mul::lemma_mul_is_commutative(k as int, cfg.halving_interval as int);
    vstd::arithmetic::div_mod::lemma_div_multiples_vanish(
        k as int,
        cfg.halving_interval as int,
    );
    assert(h as int / cfg.halving_interval as int == k);
}

/// Sum of a weight sequence.
pub open spec fn sum_weights(s: Seq<u64>) -> int
    decreases s.len(),
{
    if s.len() == 0 {
        0
    } else {
        sum_weights(s.drop_last()) + s.last()
    }
}

/// Sum of a share sequence.
pub open spec fn sum_shares(s: Seq<u128>) -> int
    decreases s.len(),
{
    if s.len() == 0 {
        0
    } else {
        sum_shares(s.drop_last()) + s.last()
    }
}

/// The exact proportional share of the `i`-th participant: the difference
/// of two floored prefix payouts, which makes the shares sum exactly to the
/// reward.
pub open spec fn share_at(weights: Seq<u64>, reward: u64, i: int) -> int {
    let t = sum_weights(weights);
    (reward * sum_weights(weights.take(i + 1))) / t - (reward * sum_weights(weights.take(i))) / t
}

/// Split a block reward across participants in exact proportion to their
/// weights.  The shares are floored prefix differences, so they sum to the
/// reward exactly: no dust is lost and nothing is minted twice.
pub fn compute_shares(weights: &Vec<u64>, reward: u64) -> (shares: Vec<u128>)
    requires
        0 < sum_weights(weights@) <= u64::MAX,
    ensures
        shares@.len() == weights@.len(),
        sum_shares(shares@) == reward,
        forall|i: int| 0 <= i < shares@.len() ==> #[trigger] shares@[i] <= reward,
        forall|i: int|
            0 <= i < shares@.len() ==> #[trigger] shares@[i] as int == share_at(
                weights@,
                reward,
                i,
            ),
{
    proof {
        lemma_sum_weights_nonneg(weights@);
    }
    let total: u128 = sum_weights_exec(weights);
    let mut shares: Vec<u128> = Vec::new();
    let mut cum: u128 = 0;
    let mut paid: u128 = 0;
    let ghost t = sum_weights(weights@);
    proof {
        assert(weights@.take(0) =~= Seq::<u64>::empty());
        assert(sum_weights(Seq::<u64>::empty()) == 0);
        assert(sum_shares(Seq::<u128>::empty()) == 0);
        vstd::arithmetic::div_mod::lemma_div_basics(t);
    }
    for i in 0..weights.len()
        invariant
            t == sum_weights(weights@),
            total as int == t,
            0 < t <= u64::MAX,
            cum as int == sum_weights(weights@.take(i as int)),
            cum <= total,
            paid as int == (reward * sum_weights(weights@.take(i as int))) / t,
            paid <= reward,
            sum_shares(shares@) == paid,
            shares@.len() == i,
            forall|j: int| 0 <= j < i ==> #[trigger] shares@[j] <= reward,
            forall|j: int|
                0 <= j < i ==> #[trigger] shares@[j] as int == share_at(weights@, reward, j),
    {
        proof {
            assert(weights@.take(i + 1).drop_last() =~= weights@.take(i as int));
            assert(weights@.take(i + 1).last() == weights@[i as int]);
            lemma_prefix_le_total(weights@, i + 1);
        }
        cum = cum + weights[i] as u128;
        let next_paid: u128 = part_of(cum, reward, total);
        proof {
            vstd::arithmetic::mul::lemma_mul_inequality(
                sum_weights(weights@.take(i as int)),
                sum_weights(weights@.take(i + 1)),
                reward as int,
            );
            vstd::arithmetic::mul::lemma_mul_is_commutative(
                sum_weights(weights@.take(i as int)),
                reward as int,
            );
            vstd::arithmetic::mul::lemma_mul_is_commutative(
                sum_weights(weights@.take(i + 1)),
                reward as int,
            );
            vstd::arithmetic::div_mod::lemma_div_is_ordered(
                reward * sum_weights(weights@.take(i as int)),
                reward * sum_weights(weights@.take(i + 1)),
                t,
            );
        }
        let share: u128 = next_paid - paid;
        let ghost pre = shares@;
        shares.push(share);
        proof {
            assert(shares@.drop_last() =~= pre);
        }
        paid = next_paid;
    }
    proof {
        assert(weights@.take(weights@.len() as int) =~= weights@);
        vstd::arithmetic::div_mod::lemma_div_by_multiple(reward as int, t);
        vstd::arithmetic::mul::lemma_mul_is_commutative(reward as int, t);
    }
    shares
}

/// Sum the weights exactly into 128 bits.
fn sum_weights_exec(weights: &Vec<u64>) -> (r: u128)
    requires
        sum_weights(weights@) <= u128::MAX,
    ensures
        r as int == sum_weights(weights@),
{
    let mut acc: u128 = 0;
    for i in 0..weights.len()
        invariant
            acc as int == sum_weights(weights@.take(i as int)),
            sum_weights(weights@) <= u128::MAX,
    {
        proof {
            assert(weights@.take(i + 1).drop_last() =~= weights@.take(i as int));
            assert(weights@.take(i + 1).last() == weights@[i as int]);
            lemma_sum_weights_nonneg(weights@.take(i as int));
            lemma_prefix_le_total(weights@, i + 1);
        }
        acc = acc + weights[i] as u128;
    }
    proof {
        assert(weights@.take(weights@.len() as int) =~= weights@);
    }
    acc
}

/// Weight sums are non-negative.
pub proof fn lemma_sum_weights_nonneg(s: Seq<u64>)
    ensures
        sum_weights(s) >= 0,
    decreases s.len(),
{
    if s.len() > 0 {
        lemma_sum_weights_nonneg(s.drop_last());
    }
}

/// A prefix sums to no more than the whole.
pub proof fn lemma_prefix_le_total(s: Seq<u64>, k: int)
    requires
        0 <= k <= s.len(),
    ensures
        sum_weights(s.take(k)) <= sum_weights(s),
    decreases s.len() - k,
{
    if k == s.len() {
        assert(s.take(k) =~= s);
    } else {
        lemma_prefix_le_total(s, k + 1);
        assert(s.take(k + 1).drop_last() =~= s.take(k));
        assert(s.take(k + 1).last() == s[k]);
    }
}

/// Relies on `std::time::SystemTime::now`: the wall clock in milliseconds
/// since the Unix epoch.  Nothing can be promised of the clock's value.
#[verifier::external_body]
pub fn current_time_ms() -> u64 {
    match std::time::SystemTime::now().duration_since(std::time::UNIX_EPOCH) {
        Ok(d) => d.as_millis() as u64,
        Err(_) => 0,
    }
}

/// Relies on `std::time::SystemTime::now`: a nanosecond-resolution clock
/// sample, used only to salt entropy extraction.
#[verifier::external_body]
fn now_nanos() -> u64 {
    match std::time::SystemTime::now().duration_since(std::time::UNIX_EPOCH) {
        Ok(d) => d.as_nanos() as u64,
        Err(_) => 0,
    }
}


/// Sixty-four zero characters: the previous-hash of genesis.
pub open spec fn zeros64() -> Seq<char> {
    Seq::new(64, |i: int| '0')
}

/// Per-device admission state: the pooled heartbeat awaiting inclusion, the
/// time the device began pulsing, and the hash of its last admitted
/// heartbeat (empty before the first).
pub struct DeviceState {
    /// The device's public key, hex-encoded.
    pub pubkey: String,
    /// The latest admitted heartbeat, if one waits in the pool.
    pub heartbeat: Option<Heartbeat>,
    /// When this device first started pulsing, milliseconds.
    pub continuity_start: u64,
    /// Hex hash of the last admitted heartbeat's signable bytes.
    pub last_hash: String,
}

/// Whether some device entry carries this key.
pub open spec fn ds_has(v: Seq<DeviceState>, pk: Seq<char>) -> bool {
    exists|i: int| 0 <= i < v.len() && #[trigger] v[i].pubkey@ == pk
}

/// The index of the entry with this key.
pub open spec fn ds_at(v: Seq<DeviceState>, pk: Seq<char>) -> int {
    choose|i: int| 0 <= i < v.len() && #[trigger] v[i].pubkey@ == pk
}

/// Device keys are pairwise distinct.
pub open spec fn ds_unique(v: Seq<DeviceState>) -> bool {
    forall|i: int, j: int|
        0 <= i < j < v.len() ==> #[trigger] v[i].pubkey@ != #[trigger] v[j].pubkey@
}

/// Whether a device currently has a heartbeat in the pool.
pub open spec fn pool_has(v: Seq<DeviceState>, pk: Seq<char>) -> bool {
    ds_has(v, pk) && v[ds_at(v, pk)].heartbeat is Some
}

/// How many devices currently have a heartbeat in the pool.
pub open spec fn pool_count(v: Seq<DeviceState>) -> int
    decreases v.len(),
{
    if v.len() == 0 {
        0
    } else {
        pool_count(v.drop_last()) + if v.last().heartbeat is Some {
            1int
        } else {
            0int
        }
    }
}

/// The pooled heartbeats, in entry order.
pub open spec fn live_heartbeats(v: Seq<DeviceState>) -> Seq<Heartbeat>
    decreases v.len(),
{
    if v.len() == 0 {
        Seq::empty()
    } else {
        live_heartbeats(v.drop_last()) + (match v.last().heartbeat {
            Some(hb) => seq![hb],
            None => Seq::empty(),
        })
    }
}

/// The continuity starts of the pooled heartbeats, in the same order.
pub open spec fn live_starts(v: Seq<DeviceState>) -> Seq<u64>
    decreases v.len(),
{
    if v.len() == 0 {
        Seq::empty()
    } else {
        live_starts(v.drop_last()) + (if v.last().heartbeat is Some {
            seq![v.last().continuity_start]
        } else {
            Seq::empty()
        })
    }
}

/// One device entry is sound: its pooled heartbeat, if any, names the same
/// key, carries a verified signature and an in-range heart rate.
pub open spec fn ds_entry_wf(d: &DeviceState) -> bool {
    match d.heartbeat {
        Some(hb) => hb.device_pubkey@ == d.pubkey@ && sig_valid(
            hb.device_pubkey@,
            hb_signable_spec(&hb),
            hb.signature@,
        ) && 30 <= hb.heart_rate <= 220,
        None => true,
    }
}

/// Whether some account carries this key.
pub open spec fn acct_has(v: Seq<Account>, pk: Seq<char>) -> bool {
    exists|i: int| 0 <= i < v.len() && #[trigger] v[i].pubkey@ == pk
}

/// The index of the account with this key.
pub open spec fn acct_at(v: Seq<Account>, pk: Seq<char>) -> int {
    choose|i: int| 0 <= i < v.len() && #[trigger] v[i].pubkey@ == pk
}

/// Account keys are pairwise distinct.
pub open spec fn acct_unique(v: Seq<Account>) -> bool {
    forall|i: int, j: int|
        0 <= i < j < v.len() ==> #[trigger] v[i].pubkey@ != #[trigger] v[j].pubkey@
}

/// The balance recorded for a key, zero if the key has no account.
pub open spec fn balance_of(v: Seq<Account>, pk: Seq<char>) -> int {
    if acct_has(v, pk) {
        v[acct_at(v, pk)].balance as int
    } else {
        0
    }
}

/// One chain: a genesis block followed by linked, hash-sound blocks.
pub open spec fn chain_wf(c: Seq<PulseBlock>) -> bool {
    &&& c.len() >= 1
    &&& c[0].index == 0
    &&& c[0].previous_hash@ == zeros64()
    &&& forall|i: int| 0 <= i < c.len() ==> #[trigger] c[i].index == i
    &&& forall|i: int|
        1 <= i < c.len() ==> #[trigger] c[i].previous_hash@ == c[i - 1].block_hash@
    &&& forall|i: int| 0 <= i < c.len() ==> #[trigger] c[i].block_hash@ == block_hash_spec(&c[i])
    &&& forall|i: int| 0 <= i < c.len() ==> #[trigger] c[i].security == c[i].total_weight
}

/// The sum of the chain's security scores.
pub open spec fn sum_security(c: Seq<PulseBlock>) -> int
    decreases c.len(),
{
    if c.len() == 0 {
        0
    } else {
        sum_security(c.drop_last()) + c.last().security
    }
}

/// Clamp an unbounded sum into 128 bits.
pub open spec fn clamp128(x: int) -> int {
    if x > u128::MAX {
        u128::MAX as int
    } else {
        x
    }
}

/// The proof-of-life consensus engine.
pub struct ProofOfLife {
    config: ConsensusConfig,
    chain: Vec<PulseBlock>,
    devices: Vec<DeviceState>,
    tx_pool: Vec<Transaction>,
    accounts: Vec<Account>,
    total_minted: u128,
    storage: Option<Storage>,
    cumulative_weight: u128,
    validator: BiometricValidator,
}

impl ProofOfLife {
    /// The chain as a sequence.
    pub closed spec fn chain_view(&self) -> Seq<PulseBlock> {
        self.chain@
    }

    /// The per-device admission state.
    pub closed spec fn devices_view(&self) -> Seq<DeviceState> {
        self.devices@
    }

    /// The pending transactions.
    pub closed spec fn tx_view(&self) -> Seq<Transaction> {
        self.tx_pool@
    }

    /// The account states.
    pub closed spec fn accounts_view(&self) -> Seq<Account> {
        self.accounts@
    }

    /// Total micro-tokens minted.
    pub closed spec fn minted(&self) -> int {
        self.total_minted as int
    }

    /// The cumulative chain weight.
    pub closed spec fn cum_weight(&self) -> int {
        self.cumulative_weight as int
    }

    /// The engine's configuration.
    pub closed spec fn config_view(&self) -> ConsensusConfig {
        self.config
    }

    /// The biometric validator's state.
    pub closed spec fn validator_view(&self) -> BiometricValidator {
        self.validator
    }

    /// The persistent store, if the engine has one.
    pub closed spec fn store(&self) -> Option<Storage> {
        self.storage
    }

    /// The engine's invariant: a well-formed linked chain, uniquely keyed
    /// device and account tables, sound pooled heartbeats, and a cumulative
    /// weight that equals the (clamped) sum of the chain's security scores.
    pub open spec fn wf(&self) -> bool {
        &&& chain_wf(self.chain_view())
        &&& ds_unique(self.devices_view())
        &&& forall|i: int|
            0 <= i < self.devices_view().len() ==> ds_entry_wf(#[trigger] &self.devices_view()[i])
        &&& acct_unique(self.accounts_view())
        &&& self.validator_view().wf()
        &&& self.cum_weight() == clamp128(sum_security(self.chain_view()))
    }

    /// Build the genesis block at a given time.
    fn create_genesis_block(now_ms: u64) -> (b: PulseBlock)
        ensures
            b.index == 0,
            b.previous_hash@ == zeros64(),
            b.heartbeats@.len() == 0,
            b.transactions@.len() == 0,
            b.n_live == 0,
            b.total_weight == 0,
            b.security == 0,
            b.block_hash@ == block_hash_spec(&b),
            b.timestamp == now_ms,
    {
        let zeros = String::from_str(
            "0000000000000000000000000000000000000000000000000000000000000000",
        );
        proof {
            reveal_strlit(
                "0000000000000000000000000000000000000000000000000000000000000000",
            );
            assert(zeros@ =~= zeros64());
        }
        let mut b = PulseBlock {
            index: 0,
            timestamp: now_ms,
            previous_hash: zeros.clone(),
            heartbeats: Vec::new(),
            transactions: Vec::new(),
            n_live: 0,
            total_weight: 0,
            security: 0,
            bio_entropy: zeros,
            block_hash: String::new(),
        };
        let h = b.compute_hash();
        let ghost pre = b;
        b.block_hash = h;
        proof {
            crate::types::lemma_hashable_ignores_hash(&b, &pre);
        }
        b
    }

    /// A fresh engine holding only the genesis block.
    pub fn new(config: ConsensusConfig) -> (r: ProofOfLife)
        ensures
            r.wf(),
            r.chain_view().len() == 1,
            r.devices_view().len() == 0,
            r.tx_view().len() == 0,
            r.accounts_view().len() == 0,
            r.minted() == 0,
            r.cum_weight() == 0,
            r.config_view() == config,
            r.validator_view().histories@.len() == 0,
    {
        let now = current_time_ms();
        let genesis = Self::create_genesis_block(now);
        let ghost g = genesis;
        let mut chain: Vec<PulseBlock> = Vec::new();
        chain.push(genesis);
        let r = ProofOfLife {
            config,
            chain,
            devices: Vec::new(),
            tx_pool: Vec::new(),
            accounts: Vec::new(),
            total_minted: 0,
            storage: None,
            cumulative_weight: 0,
            validator: BiometricValidator::new(),
        };
        proof {
            assert(r.chain@ =~= seq![g]);
            assert(r.chain@[0].security == 0);
            assert(r.chain@.drop_last() =~= Seq::<PulseBlock>::empty());
            assert(sum_security(Seq::<PulseBlock>::empty()) == 0);
            assert(sum_security(r.chain@) == 0);
            assert(chain_wf(r.chain@));
        }
        r
    }

    /// The height of the chain tip.
    pub fn chain_height(&self) -> (r: u64)
        requires
            self.wf(),
        ensures
            r as int == self.chain_view().len() - 1,
    {
        proof {
            assert(self.chain@[self.chain@.len() - 1].index == self.chain@.len() - 1);
        }
        self.chain[self.chain.len() - 1].index
    }

    /// The latest block.
    pub fn latest_block(&self) -> (r: Option<&PulseBlock>)
        requires
            self.wf(),
        ensures
            r matches Some(b) && *b == self.chain_view().last(),
    {
        Some(&self.chain[self.chain.len() - 1])
    }

    /// How many heartbeats wait in the pool.
    pub fn heartbeat_pool_size(&self) -> (r: usize)
        ensures
            r as int == pool_count(self.devices_view()),
    {
        let mut count: usize = 0;
        for i in 0..self.devices.len()
            invariant
                count as int == pool_count(self.devices@.take(i as int)),
                count <= i,
        {
            proof {
                assert(self.devices@.take(i + 1).drop_last() =~= self.devices@.take(i as int));
                assert(self.devices@.take(i + 1).last() == self.devices@[i as int]);
            }
            if self.devices[i].heartbeat.is_some() {
                count = count + 1;
            }
        }
        proof {
            assert(self.devices@.take(self.devices@.len() as int) =~= self.devices@);
        }
        count
    }

    /// Whether a device currently has a heartbeat in the pool.
    pub fn is_pulsing(&self, pubkey: &String) -> (r: bool)
        requires
            self.wf(),
        ensures
            r == pool_has(self.devices_view(), pubkey@),
    {
        for i in 0..self.devices.len()
            invariant
                self.wf(),
                forall|j: int| 0 <= j < i ==> #[trigger] self.devices@[j].pubkey@ != pubkey@,
        {
            if self.devices[i].pubkey == *pubkey {
                proof {
                    assert(self.devices@[i as int].pubkey@ == pubkey@);
                    assert(ds_has(self.devices@, pubkey@));
                    let k = ds_at(self.devices@, pubkey@);
                    if k != i as int {
                        assert(self.devices@[k].pubkey@ == self.devices@[i as int].pubkey@);
                        assert(false);
                    }
                }
                return self.devices[i].heartbeat.is_some();
            }
        }
        proof {
            if ds_has(self.devices@, pubkey@) {
                let k = ds_at(self.devices@, pubkey@);
                assert(self.devices@[k].pubkey@ == pubkey@);
                assert(false);
            }
        }
        false
    }

    /// The cumulative chain weight, the fork-resolution criterion.
    pub fn cumulative_chain_weight(&self) -> (r: u128)
        ensures
            r as int == self.cum_weight(),
    {
        self.cumulative_weight
    }

    /// The balance of an account, zero when none exists.
    pub fn get_balance(&self, pubkey: &String) -> (r: u128)
        requires
            self.wf(),
        ensures
            r as int == balance_of(self.accounts_view(), pubkey@),
    {
        for i in 0..self.accounts.len()
            invariant
                self.wf(),
                forall|j: int| 0 <= j < i ==> #[trigger] self.accounts@[j].pubkey@ != pubkey@,
        {
            if self.accounts[i].pubkey == *pubkey {
                proof {
                    assert(self.accounts@[i as int].pubkey@ == pubkey@);
                    assert(acct_has(self.accounts@, pubkey@));
                    let k = acct_at(self.accounts@, pubkey@);
                    if k != i as int {
                        assert(self.accounts@[k].pubkey@ == self.accounts@[i as int].pubkey@);
                        assert(false);
                    }
                }
                return self.accounts[i].balance;
            }
        }
        proof {
            if acct_has(self.accounts@, pubkey@) {
                let k = acct_at(self.accounts@, pubkey@);
                assert(self.accounts@[k].pubkey@ == pubkey@);
                assert(false);
            }
        }
        0
    }

    /// All account states, for read-only use.
    pub fn get_accounts(&self) -> (r: &Vec<Account>)
        ensures
            r@ == self.accounts_view(),
    {
        &self.accounts
    }
}


/// Saturating subtraction as a mathematical value.
pub open spec fn sat_sub(a: u64, b: u64) -> int {
    if a >= b {
        a - b
    } else {
        0
    }
}

/// A heartbeat is fresh when its age at `now` is inside the window.
pub open spec fn hb_fresh(cfg: ConsensusConfig, hb: &Heartbeat, now_ms: u64) -> bool {
    sat_sub(now_ms, hb.timestamp) <= cfg.max_heartbeat_age_ms
}

/// All four cryptographic inputs of a heartbeat parse.
pub open spec fn hb_parses(hb: &Heartbeat) -> bool {
    hex_decodable(hb.device_pubkey@) && pubkey_parses(hb.device_pubkey@) && hex_decodable(
        hb.signature@,
    ) && sig_parses(hb.signature@)
}

/// The heartbeat's signature verifies over its signable bytes.
pub open spec fn hb_sig_ok(hb: &Heartbeat) -> bool {
    sig_valid(hb.device_pubkey@, hb_signable_spec(hb), hb.signature@)
}

/// The heart rate is in the protocol range.
pub open spec fn hb_hr_ok(hb: &Heartbeat) -> bool {
    30 <= hb.heart_rate <= 220
}

/// The motion magnitude as stored in biometric history: saturated at the
/// sensor cap.
pub open spec fn hb_capped_magnitude(hb: &Heartbeat) -> int {
    if hb.spec_magnitude() > MOTION_CAP {
        MOTION_CAP as int
    } else {
        hb.spec_magnitude()
    }
}

/// Whether the biometric validator would accept this heartbeat, given its
/// current histories: the confidence over the updated histories reaches
/// 0.3.
pub open spec fn hb_bio_ok(v: BiometricValidator, hb: &Heartbeat) -> bool {
    confidence_spec(
        temp_outside(hb.temperature as int),
        push_trim16(hr_of(v.histories@, hb.device_pubkey@), hb.heart_rate),
        push_trim64(
            motion_of(v.histories@, hb.device_pubkey@),
            hb_capped_magnitude(hb) as u64,
        ),
    ) >= 300000
}

/// The duplicate-detection hash of a heartbeat: hex SHA-256 of its signable
/// bytes.
pub open spec fn hb_hash(hb: &Heartbeat) -> Seq<char> {
    hex_of(sha256_of(hb_signable_spec(hb)))
}

/// Whether this exact heartbeat was the device's last admitted one.
pub open spec fn hb_dup(devices: Seq<DeviceState>, hb: &Heartbeat) -> bool {
    ds_has(devices, hb.device_pubkey@) && devices[ds_at(
        devices,
        hb.device_pubkey@,
    )].last_hash@ == hb_hash(hb)
}

/// Replacing the entry at `i` with one of the same key changes exactly that
/// key's entry.
proof fn lemma_ds_update(v: Seq<DeviceState>, i: int, e: DeviceState)
    requires
        0 <= i < v.len(),
        ds_unique(v),
        e.pubkey@ == v[i].pubkey@,
    ensures
        ds_unique(v.update(i, e)),
        ds_has(v.update(i, e), e.pubkey@),
        ds_at(v.update(i, e), e.pubkey@) == i,
        forall|pk: Seq<char>|
            pk != e.pubkey@ ==> #[trigger] ds_has(v.update(i, e), pk) == ds_has(v, pk),
        forall|pk: Seq<char>|
            pk != e.pubkey@ && ds_has(v, pk) ==> v.update(i, e)[ds_at(v.update(i, e), pk)] == v[
                #[trigger] ds_at(v, pk)
            ],
{
    let w = v.update(i, e);
    assert(w[i].pubkey@ == e.pubkey@);
    assert forall|a: int, b: int| 0 <= a < b < w.len() implies #[trigger] w[a].pubkey@
        != #[trigger] w[b].pubkey@ by {
        assert(v[a].pubkey@ != v[b].pubkey@);
        if a != i && b != i {
            assert(w[a] == v[a] && w[b] == v[b]);
        }
    }
    assert(ds_has(w, e.pubkey@));
    let j = ds_at(w, e.pubkey@);
    if j != i {
        assert(w[j] == v[j]);
        assert(v[j].pubkey@ == v[i].pubkey@);
        assert(false);
    }
    assert forall|pk: Seq<char>| pk != e.pubkey@ implies #[trigger] ds_has(w, pk) == ds_has(
        v,
        pk,
    ) by {
        if ds_has(v, pk) {
            let k = ds_at(v, pk);
            assert(v[k].pubkey@ == pk);
            assert(k != i);
            assert(w[k] == v[k]);
            assert(ds_has(w, pk));
        }
        if ds_has(w, pk) {
            let k = ds_at(w, pk);
            assert(k != i);
            assert(w[k] == v[k]);
            assert(ds_has(v, pk));
        }
    }
    assert forall|pk: Seq<char>| pk != e.pubkey@ && ds_has(v, pk) implies v.update(i, e)[ds_at(
        v.update(i, e),
        pk,
    )] == v[#[trigger] ds_at(v, pk)] by {
        let k = ds_at(v, pk);
        assert(v[k].pubkey@ == pk);
        assert(k != i);
        assert(w[k] == v[k]);
        assert(ds_has(w, pk));
        let k2 = ds_at(w, pk);
        assert(w[k2].pubkey@ == pk);
        assert(k2 != i);
        assert(w[k2] == v[k2]);
        if k != k2 {
            assert(v[k].pubkey@ == v[k2].pubkey@);
            assert(false);
        }
    }
}

/// Appending an entry under a fresh key leaves every other key's entry
/// unchanged.
proof fn lemma_ds_push(v: Seq<DeviceState>, e: DeviceState)
    requires
        ds_unique(v),
        !ds_has(v, e.pubkey@),
    ensures
        ds_unique(v.push(e)),
        ds_has(v.push(e), e.pubkey@),
        ds_at(v.push(e), e.pubkey@) == v.len(),
        forall|pk: Seq<char>|
            pk != e.pubkey@ ==> #[trigger] ds_has(v.push(e), pk) == ds_has(v, pk),
        forall|pk: Seq<char>|
            pk != e.pubkey@ && ds_has(v, pk) ==> v.push(e)[ds_at(v.push(e), pk)] == v[
                #[trigger] ds_at(v, pk)
            ],
{
    let w = v.push(e);
    let n = v.len() as int;
    assert forall|a: int, b: int| 0 <= a < b < w.len() implies #[trigger] w[a].pubkey@
        != #[trigger] w[b].pubkey@ by {
        if b < n {
            assert(v[a].pubkey@ != v[b].pubkey@);
        } else {
            assert(w[b] == e);
            assert(w[a] == v[a]);
            if v[a].pubkey@ == e.pubkey@ {
                assert(ds_has(v, e.pubkey@));
            }
        }
    }
    assert(w[n].pubkey@ == e.pubkey@);
    assert(ds_has(w, e.pubkey@));
    let j = ds_at(w, e.pubkey@);
    if j != n {
        assert(w[j] == v[j]);
        assert(ds_has(v, e.pubkey@));
        assert(false);
    }
    assert forall|pk: Seq<char>| pk != e.pubkey@ implies #[trigger] ds_has(w, pk) == ds_has(
        v,
        pk,
    ) by {
        if ds_has(v, pk) {
            let k = ds_at(v, pk);
            assert(w[k] == v[k]);
            assert(ds_has(w, pk));
        }
        if ds_has(w, pk) {
            let k = ds_at(w, pk);
            if k < n {
                assert(w[k] == v[k]);
                assert(ds_has(v, pk));
            } else {
                assert(w[k] == e);
                assert(false);
            }
        }
    }
    assert forall|pk: Seq<char>| pk != e.pubkey@ && ds_has(v, pk) implies v.push(e)[ds_at(
        v.push(e),
        pk,
    )] == v[#[trigger] ds_at(v, pk)] by {
        let k = ds_at(v, pk);
        assert(v[k].pubkey@ == pk);
        assert(w[k] == v[k]);
        assert(ds_has(w, pk));
        let k2 = ds_at(w, pk);
        assert(w[k2].pubkey@ == pk);
        assert(k2 != n);
        assert(w[k2] == v[k2]);
        if k != k2 {
            assert(v[k].pubkey@ == v[k2].pubkey@);
            assert(false);
        }
    }
}

impl ProofOfLife {
    /// Find a device entry by key.
    fn find_device(&self, pk: &String) -> (r: Option<usize>)
        ensures
            match r {
                Some(i) => i < self.devices@.len() && self.devices@[i as int].pubkey@ == pk@,
                None => !ds_has(self.devices@, pk@),
            },
    {
        for i in 0..self.devices.len()
            invariant
                forall|j: int| 0 <= j < i ==> #[trigger] self.devices@[j].pubkey@ != pk@,
        {
            if self.devices[i].pubkey == *pk {
                return Some(i);
            }
        }
        proof {
            if ds_has(self.devices@, pk@) {
                let k = ds_at(self.devices@, pk@);
                assert(self.devices@[k].pubkey@ == pk@);
                assert(false);
            }
        }
        None
    }

    /// Admit a heartbeat at a given clock reading.
    ///
    /// The checks run in protocol order: freshness, signature, heart-rate
    /// range, biometric plausibility, duplicate detection.  On success the
    /// heartbeat replaces the device's pooled one; the device's continuity
    /// start is set on first contact and kept thereafter.  Biometric history
    /// is updated for every in-range heart rate, accepted or not.
    #[verifier::rlimit(100)]
    #[verifier::spinoff_prover]
    pub fn receive_heartbeat_at(&mut self, hb: Heartbeat, now_ms: u64, salt: u64) -> (r: Result<
        (),
        ConsensusError,
    >)
        requires
            old(self).wf(),
        ensures
            final(self).wf(),
            final(self).chain_view() == old(self).chain_view(),
            final(self).accounts_view() == old(self).accounts_view(),
            final(self).tx_view() == old(self).tx_view(),
            final(self).cum_weight() == old(self).cum_weight(),
            final(self).minted() == old(self).minted(),
            final(self).config_view() == old(self).config_view(),
            !hb_fresh(old(self).config_view(), &hb, now_ms) ==> (r matches Err(
                ConsensusError::StaleHeartbeat,
            ) && final(self).devices_view() == old(self).devices_view() && final(self).validator_view() == old(self).validator_view()),
            hb_fresh(old(self).config_view(), &hb, now_ms) && !hb_parses(&hb) ==> (r matches Err(
                ConsensusError::Crypto(_),
            ) && final(self).devices_view() == old(self).devices_view() && final(self).validator_view() == old(self).validator_view()),
            hb_fresh(old(self).config_view(), &hb, now_ms) && hb_parses(&hb) && !hb_sig_ok(&hb)
                ==> (r matches Err(ConsensusError::InvalidHeartbeatSignature) && final(self).devices_view() == old(self).devices_view() && final(self).validator_view() == old(self).validator_view()),
            hb_fresh(old(self).config_view(), &hb, now_ms) && hb_parses(&hb) && hb_sig_ok(&hb)
                && !hb_hr_ok(&hb) ==> (r matches Err(ConsensusError::InvalidHeartRate(h)) && h
                == hb.heart_rate && final(self).devices_view() == old(self).devices_view()
                && final(self).validator_view() == old(self).validator_view()),
            hb_fresh(old(self).config_view(), &hb, now_ms) && hb_parses(&hb) && hb_sig_ok(&hb)
                && hb_hr_ok(&hb) ==> validator_touched(
                old(self).validator_view(),
                final(self).validator_view(),
                &hb,
            ),
            hb_fresh(old(self).config_view(), &hb, now_ms) && hb_parses(&hb) && hb_sig_ok(&hb)
                && hb_hr_ok(&hb) && !hb_bio_ok(old(self).validator_view(), &hb) ==> (r matches Err(
                ConsensusError::BiometricValidationFailed(_),
            ) && final(self).devices_view() == old(self).devices_view()),
            hb_fresh(old(self).config_view(), &hb, now_ms) && hb_parses(&hb) && hb_sig_ok(&hb)
                && hb_hr_ok(&hb) && hb_bio_ok(old(self).validator_view(), &hb) && hb_dup(
                old(self).devices_view(),
                &hb,
            ) ==> (r matches Err(ConsensusError::StaleHeartbeat) && final(self).devices_view()
                == old(self).devices_view()),
            hb_fresh(old(self).config_view(), &hb, now_ms) && hb_parses(&hb) && hb_sig_ok(&hb)
                && hb_hr_ok(&hb) && hb_bio_ok(old(self).validator_view(), &hb) && !hb_dup(
                old(self).devices_view(),
                &hb,
            ) ==> (r is Ok && admitted(
                old(self).devices_view(),
                final(self).devices_view(),
                &hb,
                now_ms,
            )),
    {
        let ghost pre = *self;
        if now_ms.saturating_sub(hb.timestamp) > self.config.max_heartbeat_age_ms {
            return Err(ConsensusError::StaleHeartbeat);
        }
        let signable = hb.signable_bytes();
        let valid = match verify_signature(
            hb.device_pubkey.as_str(),
            signable.as_slice(),
            hb.signature.as_str(),
        ) {
            Ok(v) => v,
            Err(e) => {
                return Err(ConsensusError::Crypto(e));
            },
        };
        if !valid {
            return Err(ConsensusError::InvalidHeartbeatSignature);
        }
        if hb.heart_rate < 30 || hb.heart_rate > 220 {
            return Err(ConsensusError::InvalidHeartRate(hb.heart_rate));
        }
        let magnitude = hb.magnitude_eq();
        let bio = self.validator.validate(
            &hb.device_pubkey,
            hb.heart_rate,
            magnitude,
            hb.temperature,
            salt,
        );
        if !bio.is_valid {
            let reason = match bio.reason {
                Some(m) => m,
                None => String::new(),
            };
            return Err(ConsensusError::BiometricValidationFailed(reason));
        }
        let hash = hash_sha256(signable.as_slice());
        let found = self.find_device(&hb.device_pubkey);
        match found {
            Some(i) => {
                proof {
                    assert(ds_has(self.devices@, hb.device_pubkey@));
                    let k = ds_at(self.devices@, hb.device_pubkey@);
                    if k != i as int {
                        assert(self.devices@[k].pubkey@ == self.devices@[i as int].pubkey@);
                        assert(false);
                    }
                }
                if self.devices[i].last_hash == hash {
                    return Err(ConsensusError::StaleHeartbeat);
                }
                let ghost orig = self.devices@;
                let mut e = self.devices.remove(i);
                e.heartbeat = Some(hb);
                e.last_hash = hash;
                let ghost efinal = e;
                self.devices.insert(i, e);
                proof {
                    assert(self.devices@ =~= orig.update(i as int, efinal));
                    lemma_ds_update(orig, i as int, efinal);
                    assert forall|j: int|
                        0 <= j < self.devices@.len() implies ds_entry_wf(
                        #[trigger] &self.devices@[j],
                    ) by {
                        if j != i as int {
                            assert(self.devices@[j] == orig[j]);
                        }
                    }
                }
                Ok(())
            },
            None => {
                let e = DeviceState {
                    pubkey: hb.device_pubkey.clone(),
                    heartbeat: Some(hb),
                    continuity_start: now_ms,
                    last_hash: hash,
                };
                let ghost orig = self.devices@;
                let ghost efinal = e;
                self.devices.push(e);
                proof {
                    lemma_ds_push(orig, efinal);
                    assert forall|j: int|
                        0 <= j < self.devices@.len() implies ds_entry_wf(
                        #[trigger] &self.devices@[j],
                    ) by {
                        if j < orig.len() {
                            assert(self.devices@[j] == orig[j]);
                        }
                    }
                }
                Ok(())
            },
        }
    }

    /// Admit a heartbeat using the system clock.
    pub fn receive_heartbeat(&mut self, hb: Heartbeat) -> (r: Result<(), ConsensusError>)
        requires
            old(self).wf(),
        ensures
            final(self).wf(),
            final(self).chain_view() == old(self).chain_view(),
            final(self).accounts_view() == old(self).accounts_view(),
            final(self).cum_weight() == old(self).cum_weight(),
    {
        let now = current_time_ms();
        let salt = now_nanos();
        self.receive_heartbeat_at(hb, now, salt)
    }
}

/// The biometric validator after recording one heartbeat: the device's
/// histories were extended and trimmed; every other device is untouched.
pub open spec fn validator_touched(
    before: BiometricValidator,
    after: BiometricValidator,
    hb: &Heartbeat,
) -> bool {
    &&& hr_of(after.histories@, hb.device_pubkey@) == push_trim16(
        hr_of(before.histories@, hb.device_pubkey@),
        hb.heart_rate,
    )
    &&& motion_of(after.histories@, hb.device_pubkey@) == push_trim64(
        motion_of(before.histories@, hb.device_pubkey@),
        hb_capped_magnitude(hb) as u64,
    )
    &&& forall|pk: Seq<char>|
        pk != hb.device_pubkey@ ==> #[trigger] hr_of(after.histories@, pk) == hr_of(
            before.histories@,
            pk,
        ) && #[trigger] motion_of(after.histories@, pk) == motion_of(before.histories@, pk)
}

/// The device table after admitting a heartbeat: the device's entry holds
/// the heartbeat and its hash, continuity starts at `now` for a new device
/// and is kept for a known one; every other entry is untouched.
pub open spec fn admitted(
    before: Seq<DeviceState>,
    after: Seq<DeviceState>,
    hb: &Heartbeat,
    now_ms: u64,
) -> bool {
    let pk = hb.device_pubkey@;
    &&& ds_has(after, pk)
    &&& after[ds_at(after, pk)].heartbeat == Some(*hb)
    &&& after[ds_at(after, pk)].last_hash@ == hb_hash(hb)
    &&& after[ds_at(after, pk)].continuity_start == (if ds_has(before, pk) {
        before[ds_at(before, pk)].continuity_start
    } else {
        now_ms
    })
    &&& forall|pk2: Seq<char>|
        pk2 != pk ==> #[trigger] ds_has(after, pk2) == ds_has(before, pk2)
    &&& forall|pk2: Seq<char>|
        pk2 != pk && ds_has(before, pk2) ==> after[ds_at(after, pk2)] == before[#[trigger] ds_at(
            before,
            pk2,
        )]
}


/// All cryptographic inputs of a transaction parse.
pub open spec fn tx_parses(tx: &Transaction) -> bool {
    hex_decodable(tx.sender_pubkey@) && pubkey_parses(tx.sender_pubkey@) && hex_decodable(
        tx.signature@,
    ) && sig_parses(tx.signature@)
}

/// The transaction's signature verifies over its signable bytes.
pub open spec fn tx_sig_ok(tx: &Transaction) -> bool {
    sig_valid(tx.sender_pubkey@, tx_signable_spec(tx), tx.signature@)
}

/// A transaction is well-shaped: positive amount, distinct parties.
pub open spec fn tx_shape_ok(tx: &Transaction) -> bool {
    tx.amount > 0 && tx.sender_pubkey@ != tx.recipient_pubkey@
}

impl ProofOfLife {
    /// Admit a transaction into the pending pool.
    ///
    /// The checks run in protocol order: signature, shape (positive amount,
    /// distinct parties), solvency, and a live heartbeat from the sender.
    pub fn receive_transaction(&mut self, tx: Transaction) -> (r: Result<(), ConsensusError>)
        requires
            old(self).wf(),
        ensures
            final(self).wf(),
            final(self).chain_view() == old(self).chain_view(),
            final(self).accounts_view() == old(self).accounts_view(),
            final(self).devices_view() == old(self).devices_view(),
            final(self).validator_view() == old(self).validator_view(),
            final(self).cum_weight() == old(self).cum_weight(),
            final(self).minted() == old(self).minted(),
            final(self).config_view() == old(self).config_view(),
            !tx_parses(&tx) ==> (r matches Err(ConsensusError::Crypto(_)) && final(self).tx_view()
                == old(self).tx_view()),
            tx_parses(&tx) && !tx_sig_ok(&tx) ==> (r matches Err(
                ConsensusError::InvalidTransactionSignature,
            ) && final(self).tx_view() == old(self).tx_view()),
            tx_parses(&tx) && tx_sig_ok(&tx) && !tx_shape_ok(&tx) ==> (r matches Err(
                ConsensusError::InvalidTransaction,
            ) && final(self).tx_view() == old(self).tx_view()),
            tx_parses(&tx) && tx_sig_ok(&tx) && tx_shape_ok(&tx) && balance_of(
                old(self).accounts_view(),
                tx.sender_pubkey@,
            ) < tx.amount ==> (r matches Err(ConsensusError::InsufficientBalance)
                && final(self).tx_view() == old(self).tx_view()),
            tx_parses(&tx) && tx_sig_ok(&tx) && tx_shape_ok(&tx) && balance_of(
                old(self).accounts_view(),
                tx.sender_pubkey@,
            ) >= tx.amount && !pool_has(old(self).devices_view(), tx.sender_pubkey@) ==> (r
                matches Err(ConsensusError::SenderNotPulsing)
                && final(self).tx_view() == old(self).tx_view()),
            tx_parses(&tx) && tx_sig_ok(&tx) && tx_shape_ok(&tx) && balance_of(
                old(self).accounts_view(),
                tx.sender_pubkey@,
            ) >= tx.amount && pool_has(old(self).devices_view(), tx.sender_pubkey@) ==> (r is Ok
                && final(self).tx_view() == old(self).tx_view().push(tx)),
    {
        let signable = tx.signable_bytes();
        let valid = match verify_signature(
            tx.sender_pubkey.as_str(),
            signable.as_slice(),
            tx.signature.as_str(),
        ) {
            Ok(v) => v,
            Err(e) => {
                return Err(ConsensusError::Crypto(e));
            },
        };
        if !valid {
            return Err(ConsensusError::InvalidTransactionSignature);
        }
        if tx.amount == 0 || tx.sender_pubkey == tx.recipient_pubkey {
            return Err(ConsensusError::InvalidTransaction);
        }
        let balance = self.get_balance(&tx.sender_pubkey);
        if balance < tx.amount as u128 {
            return Err(ConsensusError::InsufficientBalance);
        }
        if !self.is_pulsing(&tx.sender_pubkey) {
            return Err(ConsensusError::SenderNotPulsing);
        }
        self.tx_pool.push(tx);
        Ok(())
    }
}


/// The continuity factor at `now` for a device pulsing since `start`: the
/// elapsed fraction of a five-minute window, clamped to one, in
/// micro-units.
pub open spec fn continuity_of(now_ms: u64, start_ms: u64) -> int {
    let scaled = sat_sub(now_ms, start_ms) * (SCALE as int) / 300000;
    if scaled > SCALE {
        SCALE as int
    } else {
        scaled
    }
}

/// The weight of one pooled heartbeat at a clock reading.
pub open spec fn hb_weight(hb: Heartbeat, start_ms: u64, now_ms: u64) -> int {
    weight_spec(
        hr_norm_spec(hb.heart_rate),
        hb.spec_magnitude(),
        continuity_of(now_ms, start_ms),
    )
}

/// The continuity factor, exactly.
fn continuity_factor(now_ms: u64, start_ms: u64) -> (r: u64)
    ensures
        r as int == continuity_of(now_ms, start_ms),
        r <= SCALE,
{
    let elapsed: u64 = now_ms.saturating_sub(start_ms);
    let scaled: u128 = (elapsed as u128) * (SCALE as u128) / 300000;
    if scaled > SCALE as u128 {
        SCALE
    } else {
        scaled as u64
    }
}

/// The pooled heartbeats of distinct devices carry distinct keys.
proof fn lemma_live_distinct(v: Seq<DeviceState>)
    requires
        ds_unique(v),
        forall|i: int| 0 <= i < v.len() ==> ds_entry_wf(#[trigger] &v[i]),
    ensures
        live_heartbeats(v).len() == live_starts(v).len(),
        live_heartbeats(v).len() == pool_count(v),
        forall|i: int, j: int|
            0 <= i < j < live_heartbeats(v).len() ==> #[trigger] live_heartbeats(
                v,
            )[i].device_pubkey@ != #[trigger] live_heartbeats(v)[j].device_pubkey@,
        forall|i: int|
            0 <= i < live_heartbeats(v).len() ==> ds_has(
                v,
                #[trigger] live_heartbeats(v)[i].device_pubkey@,
            ),
    decreases v.len(),
{
    if v.len() == 0 {
        assert(live_heartbeats(v) =~= Seq::<Heartbeat>::empty());
        assert(live_starts(v) =~= Seq::<u64>::empty());
    } else {
        let pre = v.drop_last();
        assert(ds_unique(pre));
        assert forall|i: int| 0 <= i < pre.len() implies ds_entry_wf(#[trigger] &pre[i]) by {
            assert(pre[i] == v[i]);
        }
        lemma_live_distinct(pre);
        assert forall|i: int|
            0 <= i < live_heartbeats(pre).len() implies ds_has(
            v,
            #[trigger] live_heartbeats(pre)[i].device_pubkey@,
        ) by {
            let pk = live_heartbeats(pre)[i].device_pubkey@;
            assert(ds_has(pre, pk));
            let k = ds_at(pre, pk);
            assert(pre[k] == v[k]);
            assert(v[k].pubkey@ == pk);
        }
        match v.last().heartbeat {
            Some(hb) => {
                assert(ds_entry_wf(&v[v.len() - 1]));
                assert(hb.device_pubkey@ == v.last().pubkey@);
                assert(live_heartbeats(v) =~= live_heartbeats(pre) + seq![hb]);
                assert(live_starts(v) =~= live_starts(pre) + seq![v.last().continuity_start]);
                assert forall|i: int|
                    0 <= i < live_heartbeats(pre).len() implies #[trigger] live_heartbeats(
                    pre,
                )[i].device_pubkey@ != hb.device_pubkey@ by {
                    let pk = live_heartbeats(pre)[i].device_pubkey@;
                    if pk == hb.device_pubkey@ {
                        assert(ds_has(pre, pk));
                        let k = ds_at(pre, pk);
                        assert(pre[k] == v[k]);
                        assert(v[k].pubkey@ == v[v.len() - 1].pubkey@);
                        assert(false);
                    }
                }
            },
            None => {
                assert(live_heartbeats(v) =~= live_heartbeats(pre));
                assert(live_starts(v) =~= live_starts(pre));
            },
        }
    }
}

/// Whether some account key matches; the recorded totals of a key.
pub open spec fn earned_of(v: Seq<Account>, pk: Seq<char>) -> int {
    if acct_has(v, pk) {
        v[acct_at(v, pk)].total_earned as int
    } else {
        0
    }
}

/// Replacing the account at `i` with one of the same key changes exactly
/// that key's account.
proof fn lemma_acct_update(v: Seq<Account>, i: int, e: Account)
    requires
        0 <= i < v.len(),
        acct_unique(v),
        e.pubkey@ == v[i].pubkey@,
    ensures
        acct_unique(v.update(i, e)),
        acct_has(v.update(i, e), e.pubkey@),
        acct_at(v.update(i, e), e.pubkey@) == i,
        forall|pk: Seq<char>|
            pk != e.pubkey@ ==> #[trigger] acct_has(v.update(i, e), pk) == acct_has(v, pk),
        forall|pk: Seq<char>|
            pk != e.pubkey@ && acct_has(v, pk) ==> v.update(i, e)[acct_at(v.update(i, e), pk)]
                == v[#[trigger] acct_at(v, pk)],
{
    let w = v.update(i, e);
    assert(w[i].pubkey@ == e.pubkey@);
    assert forall|a: int, b: int| 0 <= a < b < w.len() implies #[trigger] w[a].pubkey@
        != #[trigger] w[b].pubkey@ by {
        assert(v[a].pubkey@ != v[b].pubkey@);
        if a != i && b != i {
            assert(w[a] == v[a] && w[b] == v[b]);
        }
    }
    assert(acct_has(w, e.pubkey@));
    let j = acct_at(w, e.pubkey@);
    if j != i {
        assert(w[j] == v[j]);
        assert(v[j].pubkey@ == v[i].pubkey@);
        assert(false);
    }
    assert forall|pk: Seq<char>| pk != e.pubkey@ implies #[trigger] acct_has(w, pk) == acct_has(
        v,
        pk,
    ) by {
        if acct_has(v, pk) {
            let k = acct_at(v, pk);
            assert(v[k].pubkey@ == pk);
            assert(k != i);
            assert(w[k] == v[k]);
            assert(acct_has(w, pk));
        }
        if acct_has(w, pk) {
            let k = acct_at(w, pk);
            assert(k != i);
            assert(w[k] == v[k]);
            assert(acct_has(v, pk));
        }
    }
    assert forall|pk: Seq<char>| pk != e.pubkey@ && acct_has(v, pk) implies v.update(i, e)[
        acct_at(v.update(i, e), pk)
    ] == v[#[trigger] acct_at(v, pk)] by {
        let k = acct_at(v, pk);
        assert(v[k].pubkey@ == pk);
        assert(k != i);
        assert(w[k] == v[k]);
        assert(acct_has(w, pk));
        let k2 = acct_at(w, pk);
        assert(w[k2].pubkey@ == pk);
        assert(k2 != i);
        assert(w[k2] == v[k2]);
        if k != k2 {
            assert(v[k].pubkey@ == v[k2].pubkey@);
            assert(false);
        }
    }
}

/// Appending an account under a fresh key leaves every other key's account
/// unchanged.
proof fn lemma_acct_push(v: Seq<Account>, e: Account)
    requires
        acct_unique(v),
        !acct_has(v, e.pubkey@),
    ensures
        acct_unique(v.push(e)),
        acct_has(v.push(e), e.pubkey@),
        acct_at(v.push(e), e.pubkey@) == v.len(),
        forall|pk: Seq<char>|
            pk != e.pubkey@ ==> #[trigger] acct_has(v.push(e), pk) == acct_has(v, pk),
        forall|pk: Seq<char>|
            pk != e.pubkey@ && acct_has(v, pk) ==> v.push(e)[acct_at(v.push(e), pk)] == v[
                #[trigger] acct_at(v, pk)
            ],
{
    let w = v.push(e);
    let n = v.len() as int;
    assert forall|a: int, b: int| 0 <= a < b < w.len() implies #[trigger] w[a].pubkey@
        != #[trigger] w[b].pubkey@ by {
        if b < n {
            assert(v[a].pubkey@ != v[b].pubkey@);
        } else {
            assert(w[b] == e);
            assert(w[a] == v[a]);
            if v[a].pubkey@ == e.pubkey@ {
                assert(acct_has(v, e.pubkey@));
            }
        }
    }
    assert(w[n].pubkey@ == e.pubkey@);
    assert(acct_has(w, e.pubkey@));
    let j = acct_at(w, e.pubkey@);
    if j != n {
        assert(w[j] == v[j]);
        assert(acct_has(v, e.pubkey@));
        assert(false);
    }
    assert forall|pk: Seq<char>| pk != e.pubkey@ implies #[trigger] acct_has(w, pk) == acct_has(
        v,
        pk,
    ) by {
        if acct_has(v, pk) {
            let k = acct_at(v, pk);
            assert(w[k] == v[k]);
            assert(acct_has(w, pk));
        }
        if acct_has(w, pk) {
            let k = acct_at(w, pk);
            if k < n {
                assert(w[k] == v[k]);
                assert(acct_has(v, pk));
            } else {
                assert(w[k] == e);
                assert(false);
            }
        }
    }
    assert forall|pk: Seq<char>| pk != e.pubkey@ && acct_has(v, pk) implies v.push(e)[acct_at(
        v.push(e),
        pk,
    )] == v[#[trigger] acct_at(v, pk)] by {
        let k = acct_at(v, pk);
        assert(v[k].pubkey@ == pk);
        assert(w[k] == v[k]);
        assert(acct_has(w, pk));
        let k2 = acct_at(w, pk);
        assert(w[k2].pubkey@ == pk);
        assert(k2 != n);
        assert(w[k2] == v[k2]);
        if k != k2 {
            assert(v[k].pubkey@ == v[k2].pubkey@);
            assert(false);
        }
    }
}

/// Find an account index by key.
fn find_account(accounts: &Vec<Account>, pk: &String) -> (r: Option<usize>)
    ensures
        match r {
            Some(i) => i < accounts@.len() && accounts@[i as int].pubkey@ == pk@,
            None => !acct_has(accounts@, pk@),
        },
{
    for i in 0..accounts.len()
        invariant
            forall|j: int| 0 <= j < i ==> #[trigger] accounts@[j].pubkey@ != pk@,
    {
        if accounts[i].pubkey == *pk {
            return Some(i);
        }
    }
    proof {
        if acct_has(accounts@, pk@) {
            let k = acct_at(accounts@, pk@);
            assert(accounts@[k].pubkey@ == pk@);
            assert(false);
        }
    }
    None
}


/// The blocks-participated count recorded for a key, zero if absent.
pub open spec fn participated_of(v: Seq<Account>, pk: Seq<char>) -> int {
    if acct_has(v, pk) {
        v[acct_at(v, pk)].blocks_participated as int
    } else {
        0
    }
}

/// The last rewarded heartbeat timestamp recorded for a key, zero if
/// absent.
pub open spec fn last_hb_of(v: Seq<Account>, pk: Seq<char>) -> int {
    if acct_has(v, pk) {
        v[acct_at(v, pk)].last_heartbeat as int
    } else {
        0
    }
}

/// The sum of all lifetime earnings an account table records.
pub open spec fn sum_earned(v: Seq<Account>) -> int
    decreases v.len(),
{
    if v.len() == 0 {
        0
    } else {
        sum_earned(v.drop_last()) + v.last().total_earned
    }
}

/// The balances the account table holds, as a map from key to micro-tokens.
pub open spec fn balances_of(v: Seq<Account>) -> Map<Seq<char>, int> {
    Map::new(|pk: Seq<char>| acct_has(v, pk), |pk: Seq<char>| balance_of(v, pk))
}

/// The lifetime earnings the account table holds, as a map.
pub open spec fn earnings_of(v: Seq<Account>) -> Map<Seq<char>, int> {
    Map::new(|pk: Seq<char>| acct_has(v, pk), |pk: Seq<char>| earned_of(v, pk))
}

/// One reward credit on the balance map: the key gains the amount
/// (saturated), created at the amount if absent.
pub open spec fn credit_map(m: Map<Seq<char>, int>, pk: Seq<char>, amount: int) -> Map<
    Seq<char>,
    int,
> {
    m.insert(
        pk,
        clamp128(
            (if m.contains_key(pk) {
                m[pk]
            } else {
                0
            }) + amount,
        ),
    )
}

/// All reward credits of a block, in heartbeat order.
pub open spec fn credit_all_map(
    m: Map<Seq<char>, int>,
    hbs: Seq<Heartbeat>,
    shares: Seq<u128>,
    k: int,
) -> Map<Seq<char>, int>
    decreases k,
{
    if k <= 0 {
        m
    } else {
        credit_map(
            credit_all_map(m, hbs, shares, k - 1),
            hbs[k - 1].device_pubkey@,
            shares[k - 1] as int,
        )
    }
}

/// One transaction on the balance map: a known, solvent sender is debited
/// and the recipient credited (created if absent); otherwise nothing moves.
pub open spec fn settle_tx_map(m: Map<Seq<char>, int>, tx: Transaction) -> Map<Seq<char>, int> {
    if m.contains_key(tx.sender_pubkey@) && m[tx.sender_pubkey@] >= tx.amount {
        let debited = m.insert(tx.sender_pubkey@, m[tx.sender_pubkey@] - tx.amount);
        debited.insert(
            tx.recipient_pubkey@,
            clamp128(
                (if debited.contains_key(tx.recipient_pubkey@) {
                    debited[tx.recipient_pubkey@]
                } else {
                    0
                }) + tx.amount,
            ),
        )
    } else {
        m
    }
}

/// All transactions of a block, settled in order.
pub open spec fn settle_all_map(m: Map<Seq<char>, int>, txs: Seq<Transaction>, k: int) -> Map<
    Seq<char>,
    int,
>
    decreases k,
{
    if k <= 0 {
        m
    } else {
        settle_tx_map(settle_all_map(m, txs, k - 1), txs[k - 1])
    }
}

/// Credit a block reward share to an account, creating it if needed.
fn credit_account(accounts: &mut Vec<Account>, pubkey: &String, amount: u128, ts: u64)
    requires
        acct_unique(old(accounts)@),
    ensures
        acct_unique(final(accounts)@),
        acct_has(final(accounts)@, pubkey@),
        ({
            let w = final(accounts)@;
            let e = w[acct_at(w, pubkey@)];
            let v = old(accounts)@;
            &&& e.balance as int == clamp128(balance_of(v, pubkey@) + amount)
            &&& e.total_earned as int == clamp128(earned_of(v, pubkey@) + amount)
            &&& e.last_heartbeat == ts
            &&& e.blocks_participated as int == (if acct_has(v, pubkey@) {
                let p = v[acct_at(v, pubkey@)].blocks_participated;
                if p < u64::MAX {
                    p + 1
                } else {
                    p as int
                }
            } else {
                1
            })
        }),
        forall|pk: Seq<char>|
            pk != pubkey@ ==> #[trigger] acct_has(final(accounts)@, pk) == acct_has(
                old(accounts)@,
                pk,
            ),
        forall|pk: Seq<char>|
            pk != pubkey@ && acct_has(old(accounts)@, pk) ==> final(accounts)@[acct_at(
                final(accounts)@,
                pk,
            )] == old(accounts)@[#[trigger] acct_at(old(accounts)@, pk)],
        balances_of(final(accounts)@) == credit_map(
            balances_of(old(accounts)@),
            pubkey@,
            amount as int,
        ),
        earnings_of(final(accounts)@) == credit_map(
            earnings_of(old(accounts)@),
            pubkey@,
            amount as int,
        ),
{
    let found = find_account(accounts, pubkey);
    match found {
        Some(i) => {
            proof {
                assert(accounts@[i as int].pubkey@ == pubkey@);
                assert(acct_has(accounts@, pubkey@));
                let k = acct_at(accounts@, pubkey@);
                if k != i as int {
                    assert(accounts@[k].pubkey@ == accounts@[i as int].pubkey@);
                    assert(false);
                }
            }
            let ghost orig = accounts@;
            let mut e = accounts.remove(i);
            e.balance = e.balance.saturating_add(amount);
            e.total_earned = e.total_earned.saturating_add(amount);
            e.last_heartbeat = ts;
            e.blocks_participated = e.blocks_participated.saturating_add(1);
            let ghost efinal = e;
            accounts.insert(i, e);
            proof {
                assert(accounts@ =~= orig.update(i as int, efinal));
                lemma_acct_update(orig, i as int, efinal);
            }
        },
        None => {
            proof {
                if acct_has(accounts@, pubkey@) {
                    let k = acct_at(accounts@, pubkey@);
                    assert(accounts@[k].pubkey@ == pubkey@);
                    assert(false);
                }
            }
            let e = Account {
                pubkey: pubkey.clone(),
                balance: amount,
                last_heartbeat: ts,
                total_earned: amount,
                blocks_participated: 1,
            };
            let ghost orig = accounts@;
            let ghost efinal = e;
            accounts.push(e);
            proof {
                lemma_acct_push(orig, efinal);
            }
        },
    }
}

/// Settle one transaction: move the amount from a solvent sender to the
/// recipient, creating the recipient's account if needed; an insolvent or
/// unknown sender settles nothing.
fn apply_transaction(accounts: &mut Vec<Account>, tx: &Transaction)
    requires
        acct_unique(old(accounts)@),
    ensures
        acct_unique(final(accounts)@),
        forall|pk: Seq<char>|
            #[trigger] earned_of(final(accounts)@, pk) == earned_of(old(accounts)@, pk),
        forall|pk: Seq<char>|
            #[trigger] participated_of(final(accounts)@, pk) == participated_of(
                old(accounts)@,
                pk,
            ),
        forall|pk: Seq<char>|
            acct_has(old(accounts)@, pk) ==> #[trigger] last_hb_of(final(accounts)@, pk)
                == last_hb_of(old(accounts)@, pk),
        balances_of(final(accounts)@) == settle_tx_map(balances_of(old(accounts)@), *tx),
{
    let sender_idx = find_account(accounts, &tx.sender_pubkey);
    let i = match sender_idx {
        Some(i) => i,
        None => {
            return;
        },
    };
    if accounts[i].balance < tx.amount as u128 {
        return;
    }
    proof {
        assert(accounts@[i as int].pubkey@ == tx.sender_pubkey@);
        assert(acct_has(accounts@, tx.sender_pubkey@));
        let k = acct_at(accounts@, tx.sender_pubkey@);
        if k != i as int {
            assert(accounts@[k].pubkey@ == accounts@[i as int].pubkey@);
            assert(false);
        }
    }
    let ghost orig = accounts@;
    let mut e = accounts.remove(i);
    e.balance = e.balance - tx.amount as u128;
    let ghost efinal = e;
    accounts.insert(i, e);
    proof {
        assert(accounts@ =~= orig.update(i as int, efinal));
        lemma_acct_update(orig, i as int, efinal);
        assert forall|pk: Seq<char>| #[trigger] earned_of(accounts@, pk) == earned_of(orig, pk)
            by {
            if pk == efinal.pubkey@ {
                assert(acct_at(orig, pk) == i as int) by {
                    assert(acct_has(orig, pk));
                    let k = acct_at(orig, pk);
                    if k != i as int {
                        assert(orig[k].pubkey@ == orig[i as int].pubkey@);
                        assert(false);
                    }
                }
            }
        }
    }
    let rec_idx = find_account(accounts, &tx.recipient_pubkey);
    match rec_idx {
        Some(j) => {
            proof {
                assert(accounts@[j as int].pubkey@ == tx.recipient_pubkey@);
                assert(acct_has(accounts@, tx.recipient_pubkey@));
                let k = acct_at(accounts@, tx.recipient_pubkey@);
                if k != j as int {
                    assert(accounts@[k].pubkey@ == accounts@[j as int].pubkey@);
                    assert(false);
                }
            }
            let ghost mid = accounts@;
            let mut e2 = accounts.remove(j);
            e2.balance = e2.balance.saturating_add(tx.amount as u128);
            let ghost e2final = e2;
            accounts.insert(j, e2);
            proof {
                assert(accounts@ =~= mid.update(j as int, e2final));
                lemma_acct_update(mid, j as int, e2final);
                assert forall|pk: Seq<char>| #[trigger] earned_of(accounts@, pk) == earned_of(
                    mid,
                    pk,
                ) by {
                    if pk == e2final.pubkey@ {
                        assert(acct_at(mid, pk) == j as int) by {
                            assert(acct_has(mid, pk));
                            let k = acct_at(mid, pk);
                            if k != j as int {
                                assert(mid[k].pubkey@ == mid[j as int].pubkey@);
                                assert(false);
                            }
                        }
                    }
                }
            }
        },
        None => {
            proof {
                if acct_has(accounts@, tx.recipient_pubkey@) {
                    let k = acct_at(accounts@, tx.recipient_pubkey@);
                    assert(accounts@[k].pubkey@ == tx.recipient_pubkey@);
                    assert(false);
                }
            }
            let e2 = Account {
                pubkey: tx.recipient_pubkey.clone(),
                balance: tx.amount as u128,
                last_heartbeat: 0,
                total_earned: 0,
                blocks_participated: 0,
            };
            let ghost mid = accounts@;
            let ghost e2final = e2;
            accounts.push(e2);
            proof {
                lemma_acct_push(mid, e2final);
                assert forall|pk: Seq<char>| #[trigger] earned_of(accounts@, pk) == earned_of(
                    mid,
                    pk,
                ) by {
                    if pk == e2final.pubkey@ {
                        assert(accounts@[acct_at(accounts@, pk)].total_earned == 0);
                    }
                }
            }
        },
    }
}


/// The pooled weight of each live heartbeat, in entry order.
pub open spec fn pool_weights(v: Seq<DeviceState>, now_ms: u64) -> Seq<u64>
    decreases v.len(),
{
    if v.len() == 0 {
        Seq::empty()
    } else {
        pool_weights(v.drop_last(), now_ms) + (match v.last().heartbeat {
            Some(hb) => seq![hb_weight(hb, v.last().continuity_start, now_ms) as u64],
            None => Seq::empty(),
        })
    }
}

/// A weight sum over bounded weights stays under `len * SCALE`.
proof fn lemma_sum_weights_bound(s: Seq<u64>)
    requires
        forall|i: int| 0 <= i < s.len() ==> #[trigger] s[i] <= SCALE,
    ensures
        0 <= sum_weights(s) <= s.len() * (SCALE as int),
    decreases s.len(),
{
    if s.len() == 0 {
    } else {
        assert forall|i: int| 0 <= i < s.drop_last().len() implies #[trigger] s.drop_last()[i]
            <= SCALE by {
            assert(s.drop_last()[i] == s[i]);
        }
        lemma_sum_weights_bound(s.drop_last());
        assert((s.len() - 1) * (SCALE as int) + (SCALE as int) == s.len() * (SCALE as int))
            by (nonlinear_arith);
    }
}

/// The device table with every pooled heartbeat consumed and continuity
/// kept.
pub open spec fn cleared(before: Seq<DeviceState>, after: Seq<DeviceState>) -> bool {
    &&& after.len() == before.len()
    &&& forall|j: int|
        #![trigger after[j]]
        0 <= j < after.len() ==> (after[j].pubkey == before[j].pubkey && after[j].heartbeat
            is None && after[j].continuity_start == before[j].continuity_start && after[
            j
        ].last_hash == before[j].last_hash)
}

/// Two blocks equal field by field, their vectors equal as sequences.
pub open spec fn block_eqv(a: PulseBlock, b: PulseBlock) -> bool {
    &&& a.index == b.index
    &&& a.timestamp == b.timestamp
    &&& a.previous_hash@ == b.previous_hash@
    &&& a.heartbeats@ == b.heartbeats@
    &&& a.transactions@ == b.transactions@
    &&& a.n_live == b.n_live
    &&& a.total_weight == b.total_weight
    &&& a.security == b.security
    &&& a.bio_entropy@ == b.bio_entropy@
    &&& a.block_hash@ == b.block_hash@
}

impl ProofOfLife {
    /// Snapshot the pool: the live heartbeats and, computed once and used
    /// for both the security score and the reward split, their weights.
    fn snapshot_pool(&self, now_ms: u64) -> (r: (Vec<Heartbeat>, Vec<u64>))
        requires
            self.wf(),
        ensures
            r.0@ == live_heartbeats(self.devices_view()),
            r.1@ == pool_weights(self.devices_view(), now_ms),
            r.1@.len() == r.0@.len(),
            forall|i: int| 0 <= i < r.1@.len() ==> #[trigger] r.1@[i] <= SCALE,
    {
        let mut hbs: Vec<Heartbeat> = Vec::new();
        let mut ws: Vec<u64> = Vec::new();
        for i in 0..self.devices.len()
            invariant
                self.wf(),
                hbs@ == live_heartbeats(self.devices@.take(i as int)),
                ws@ == pool_weights(self.devices@.take(i as int), now_ms),
                ws@.len() == hbs@.len(),
                forall|j: int| 0 <= j < ws@.len() ==> #[trigger] ws@[j] <= SCALE,
        {
            proof {
                assert(self.devices@.take(i + 1).drop_last() =~= self.devices@.take(i as int));
                assert(self.devices@.take(i + 1).last() == self.devices@[i as int]);
            }
            let entry_hb = &self.devices[i].heartbeat;
            match entry_hb {
                Some(hb) => {
                    let cont = continuity_factor(now_ms, self.devices[i].continuity_start);
                    let w = hb.weight_with_continuity(cont);
                    let hb2 = hb.duplicate();
                    hbs.push(hb2);
                    ws.push(w);
                    proof {
                        assert(hbs@ =~= live_heartbeats(self.devices@.take(i + 1)));
                        assert(ws@ =~= pool_weights(self.devices@.take(i + 1), now_ms));
                    }
                },
                None => {
                    proof {
                        assert(hbs@ =~= live_heartbeats(self.devices@.take(i + 1)));
                        assert(ws@ =~= pool_weights(self.devices@.take(i + 1), now_ms));
                    }
                },
            }
        }
        proof {
            assert(self.devices@.take(self.devices@.len() as int) =~= self.devices@);
        }
        (hbs, ws)
    }
}

/// A copy of the device table with every pooled heartbeat consumed and
/// keys, continuity and hashes kept.
fn cleared_copy(devices: &Vec<DeviceState>) -> (out: Vec<DeviceState>)
    requires
        ds_unique(devices@),
    ensures
        cleared(devices@, out@),
        ds_unique(out@),
        forall|j: int| 0 <= j < out@.len() ==> ds_entry_wf(#[trigger] &out@[j]),
{
    let mut out: Vec<DeviceState> = Vec::new();
    for i in 0..devices.len()
        invariant
            ds_unique(devices@),
            out@.len() == i,
            forall|j: int|
                #![trigger out@[j]]
                0 <= j < i ==> (out@[j].pubkey == devices@[j].pubkey && out@[j].heartbeat
                    is None && out@[j].continuity_start == devices@[j].continuity_start && out@[
                    j
                ].last_hash == devices@[j].last_hash),
    {
        let e = DeviceState {
            pubkey: devices[i].pubkey.clone(),
            heartbeat: None,
            continuity_start: devices[i].continuity_start,
            last_hash: devices[i].last_hash.clone(),
        };
        let ghost epush = e;
        let ghost out_pre = out@;
        out.push(e);
        proof {
            assert forall|j: int|
                #![trigger out@[j]]
                0 <= j < i + 1 implies (out@[j].pubkey == devices@[j].pubkey && out@[j].heartbeat
                    is None && out@[j].continuity_start == devices@[j].continuity_start && out@[
                j
            ].last_hash == devices@[j].last_hash) by {
                if j < i {
                    assert(out@[j] == out_pre[j]);
                } else {
                    assert(out@[j] == epush);
                }
            }
        }
    }
    out
}



/// Credit one reward share to each pooled device, in order.  The balance
/// and earnings maps evolve by exactly the credit fold; when the devices
/// carry distinct keys (always true of the engine's own pool) each key's
/// totals are additionally pinned pointwise, and any account not among the
/// credited keys keeps its earnings.
fn credit_rewards(accounts: &mut Vec<Account>, hbs: &Vec<Heartbeat>, shares: &Vec<u128>)
    requires
        acct_unique(old(accounts)@),
        shares@.len() == hbs@.len(),
    ensures
        acct_unique(final(accounts)@),
        balances_of(final(accounts)@) == credit_all_map(
            balances_of(old(accounts)@),
            hbs@,
            shares@,
            hbs@.len() as int,
        ),
        earnings_of(final(accounts)@) == credit_all_map(
            earnings_of(old(accounts)@),
            hbs@,
            shares@,
            hbs@.len() as int,
        ),
        (forall|i2: int, j2: int|
            0 <= i2 < j2 < hbs@.len() ==> #[trigger] hbs@[i2].device_pubkey@
                != #[trigger] hbs@[j2].device_pubkey@) ==> (forall|j: int|
            0 <= j < hbs@.len() ==> #[trigger] earned_of(
                final(accounts)@,
                hbs@[j].device_pubkey@,
            ) == clamp128(earned_of(old(accounts)@, hbs@[j].device_pubkey@) + shares@[j])),
        (forall|i2: int, j2: int|
            0 <= i2 < j2 < hbs@.len() ==> #[trigger] hbs@[i2].device_pubkey@
                != #[trigger] hbs@[j2].device_pubkey@) ==> (forall|j: int|
            0 <= j < hbs@.len() ==> #[trigger] balance_of(
                final(accounts)@,
                hbs@[j].device_pubkey@,
            ) == clamp128(balance_of(old(accounts)@, hbs@[j].device_pubkey@) + shares@[j])),
        (forall|i2: int, j2: int|
            0 <= i2 < j2 < hbs@.len() ==> #[trigger] hbs@[i2].device_pubkey@
                != #[trigger] hbs@[j2].device_pubkey@) ==> (forall|j: int|
            0 <= j < hbs@.len() ==> #[trigger] participated_of(
                final(accounts)@,
                hbs@[j].device_pubkey@,
            ) == (if participated_of(old(accounts)@, hbs@[j].device_pubkey@) < u64::MAX {
                participated_of(old(accounts)@, hbs@[j].device_pubkey@) + 1
            } else {
                participated_of(old(accounts)@, hbs@[j].device_pubkey@)
            })),
        (forall|i2: int, j2: int|
            0 <= i2 < j2 < hbs@.len() ==> #[trigger] hbs@[i2].device_pubkey@
                != #[trigger] hbs@[j2].device_pubkey@) ==> (forall|j: int|
            0 <= j < hbs@.len() ==> #[trigger] last_hb_of(
                final(accounts)@,
                hbs@[j].device_pubkey@,
            ) == hbs@[j].timestamp),
        forall|pk: Seq<char>|
            (forall|j: int| 0 <= j < hbs@.len() ==> #[trigger] hbs@[j].device_pubkey@ != pk)
                ==> #[trigger] earned_of(final(accounts)@, pk) == earned_of(old(accounts)@, pk),
{
    let ghost dk = forall|i2: int, j2: int|
        0 <= i2 < j2 < hbs@.len() ==> #[trigger] hbs@[i2].device_pubkey@
            != #[trigger] hbs@[j2].device_pubkey@;
    let ghost accts0 = accounts@;
    let mut i: usize = 0;
    while i < hbs.len()
        invariant
            shares@.len() == hbs@.len(),
            i <= hbs@.len(),
            acct_unique(accounts@),
            accts0 == old(accounts)@,
            dk == (forall|i2: int, j2: int|
                0 <= i2 < j2 < hbs@.len() ==> #[trigger] hbs@[i2].device_pubkey@
                    != #[trigger] hbs@[j2].device_pubkey@),
            balances_of(accounts@) == credit_all_map(balances_of(accts0), hbs@, shares@, i as int),
            earnings_of(accounts@) == credit_all_map(earnings_of(accts0), hbs@, shares@, i as int),
            dk ==> (forall|j: int|
                0 <= j < i ==> #[trigger] earned_of(accounts@, hbs@[j].device_pubkey@)
                    == clamp128(earned_of(accts0, hbs@[j].device_pubkey@) + shares@[j])),
            dk ==> (forall|j: int|
                0 <= j < i ==> #[trigger] balance_of(accounts@, hbs@[j].device_pubkey@)
                    == clamp128(balance_of(accts0, hbs@[j].device_pubkey@) + shares@[j])),
            dk ==> (forall|j: int|
                0 <= j < i ==> #[trigger] participated_of(accounts@, hbs@[j].device_pubkey@)
                    == (if participated_of(accts0, hbs@[j].device_pubkey@) < u64::MAX {
                    participated_of(accts0, hbs@[j].device_pubkey@) + 1
                } else {
                    participated_of(accts0, hbs@[j].device_pubkey@)
                })),
            dk ==> (forall|j: int|
                0 <= j < i ==> #[trigger] last_hb_of(accounts@, hbs@[j].device_pubkey@)
                    == hbs@[j].timestamp),
            forall|pk: Seq<char>|
                (forall|j: int| 0 <= j < i ==> #[trigger] hbs@[j].device_pubkey@ != pk)
                    ==> #[trigger] earned_of(accounts@, pk) == earned_of(accts0, pk),
            forall|pk: Seq<char>|
                (forall|j: int| 0 <= j < i ==> #[trigger] hbs@[j].device_pubkey@ != pk)
                    ==> #[trigger] balance_of(accounts@, pk) == balance_of(accts0, pk),
            forall|pk: Seq<char>|
                (forall|j: int| 0 <= j < i ==> #[trigger] hbs@[j].device_pubkey@ != pk)
                    ==> #[trigger] participated_of(accounts@, pk) == participated_of(accts0, pk),
        decreases hbs@.len() - i,
    {
        let ghost acc_pre = accounts@;
        credit_account(accounts, &hbs[i].device_pubkey, shares[i], hbs[i].timestamp);
        proof {
            let pki = hbs@[i as int].device_pubkey@;
            assert(earned_of(accounts@, pki) == clamp128(
                earned_of(acc_pre, pki) + shares@[i as int],
            ));
            if dk {
                assert forall|j: int|
                    0 <= j < i + 1 implies #[trigger] earned_of(
                    accounts@,
                    hbs@[j].device_pubkey@,
                ) == clamp128(earned_of(accts0, hbs@[j].device_pubkey@) + shares@[j]) by {
                    let pkj = hbs@[j].device_pubkey@;
                    if j < i {
                        assert(pkj != pki);
                        assert(earned_of(accounts@, pkj) == earned_of(acc_pre, pkj)) by {
                            if acct_has(acc_pre, pkj) {
                                assert(accounts@[acct_at(accounts@, pkj)] == acc_pre[acct_at(
                                    acc_pre,
                                    pkj,
                                )]);
                            }
                        }
                    } else {
                        assert(earned_of(acc_pre, pki) == earned_of(accts0, pki));
                    }
                }
                assert forall|j: int|
                    0 <= j < i + 1 implies #[trigger] balance_of(
                    accounts@,
                    hbs@[j].device_pubkey@,
                ) == clamp128(balance_of(accts0, hbs@[j].device_pubkey@) + shares@[j]) by {
                    let pkj = hbs@[j].device_pubkey@;
                    if j < i {
                        assert(pkj != pki);
                        assert(balance_of(accounts@, pkj) == balance_of(acc_pre, pkj)) by {
                            if acct_has(acc_pre, pkj) {
                                assert(accounts@[acct_at(accounts@, pkj)] == acc_pre[acct_at(
                                    acc_pre,
                                    pkj,
                                )]);
                            }
                        }
                    } else {
                        assert(balance_of(acc_pre, pki) == balance_of(accts0, pki)) by {
                            assert(forall|j2: int|
                                0 <= j2 < i ==> #[trigger] hbs@[j2].device_pubkey@ != pki);
                        }
                    }
                }
            }
            if dk {
                assert forall|j: int|
                    0 <= j < i + 1 implies #[trigger] participated_of(
                    accounts@,
                    hbs@[j].device_pubkey@,
                ) == (if participated_of(accts0, hbs@[j].device_pubkey@) < u64::MAX {
                    participated_of(accts0, hbs@[j].device_pubkey@) + 1
                } else {
                    participated_of(accts0, hbs@[j].device_pubkey@)
                }) by {
                    let pkj = hbs@[j].device_pubkey@;
                    if j < i {
                        assert(pkj != pki);
                        assert(participated_of(accounts@, pkj) == participated_of(
                            acc_pre,
                            pkj,
                        )) by {
                            if acct_has(acc_pre, pkj) {
                                assert(accounts@[acct_at(accounts@, pkj)] == acc_pre[acct_at(
                                    acc_pre,
                                    pkj,
                                )]);
                            }
                        }
                    } else {
                        assert(participated_of(acc_pre, pki) == participated_of(accts0, pki))
                            by {
                            assert(forall|j2: int|
                                0 <= j2 < i ==> #[trigger] hbs@[j2].device_pubkey@ != pki);
                        }
                    }
                }
                assert forall|j: int|
                    0 <= j < i + 1 implies #[trigger] last_hb_of(
                    accounts@,
                    hbs@[j].device_pubkey@,
                ) == hbs@[j].timestamp by {
                    let pkj = hbs@[j].device_pubkey@;
                    if j < i {
                        assert(pkj != pki);
                        assert(last_hb_of(accounts@, pkj) == last_hb_of(acc_pre, pkj)) by {
                            if acct_has(acc_pre, pkj) {
                                assert(accounts@[acct_at(accounts@, pkj)] == acc_pre[acct_at(
                                    acc_pre,
                                    pkj,
                                )]);
                            }
                        }
                    }
                }
            }
            assert forall|pk: Seq<char>|
                (forall|j: int| 0 <= j < i + 1 ==> #[trigger] hbs@[j].device_pubkey@ != pk)
                    implies #[trigger] earned_of(accounts@, pk) == earned_of(accts0, pk) by {
                assert(pk != pki);
                assert(earned_of(accounts@, pk) == earned_of(acc_pre, pk)) by {
                    if acct_has(acc_pre, pk) {
                        assert(accounts@[acct_at(accounts@, pk)] == acc_pre[acct_at(
                            acc_pre,
                            pk,
                        )]);
                    }
                }
            }
            assert forall|pk: Seq<char>|
                (forall|j: int| 0 <= j < i + 1 ==> #[trigger] hbs@[j].device_pubkey@ != pk)
                    implies #[trigger] balance_of(accounts@, pk) == balance_of(accts0, pk) by {
                assert(pk != pki);
                assert(balance_of(accounts@, pk) == balance_of(acc_pre, pk)) by {
                    if acct_has(acc_pre, pk) {
                        assert(accounts@[acct_at(accounts@, pk)] == acc_pre[acct_at(
                            acc_pre,
                            pk,
                        )]);
                    }
                }
            }
            assert forall|pk: Seq<char>|
                (forall|j: int| 0 <= j < i + 1 ==> #[trigger] hbs@[j].device_pubkey@ != pk)
                    implies #[trigger] participated_of(accounts@, pk) == participated_of(
                accts0,
                pk,
            ) by {
                assert(pk != pki);
                assert(participated_of(accounts@, pk) == participated_of(acc_pre, pk)) by {
                    if acct_has(acc_pre, pk) {
                        assert(accounts@[acct_at(accounts@, pk)] == acc_pre[acct_at(
                            acc_pre,
                            pk,
                        )]);
                    }
                }
            }
        }
        i = i + 1;
    }
}

/// Settle each transaction in order; earnings are untouched.
fn apply_transactions(accounts: &mut Vec<Account>, txs: &Vec<Transaction>)
    requires
        acct_unique(old(accounts)@),
    ensures
        acct_unique(final(accounts)@),
        forall|pk: Seq<char>|
            #[trigger] earned_of(final(accounts)@, pk) == earned_of(old(accounts)@, pk),
        balances_of(final(accounts)@) == settle_all_map(
            balances_of(old(accounts)@),
            txs@,
            txs@.len() as int,
        ),
        txs@.len() == 0 ==> final(accounts)@ == old(accounts)@,
{
    let mut t: usize = 0;
    while t < txs.len()
        invariant
            acct_unique(accounts@),
            forall|pk: Seq<char>|
                #[trigger] earned_of(accounts@, pk) == earned_of(old(accounts)@, pk),
            t <= txs@.len(),
            balances_of(accounts@) == settle_all_map(
                balances_of(old(accounts)@),
                txs@,
                t as int,
            ),
            txs@.len() == 0 ==> accounts@ == old(accounts)@,
        decreases txs@.len() - t,
    {
        apply_transaction(accounts, &txs[t]);
        t = t + 1;
    }
}


/// Build a block from prepared parts and seal it with its canonical hash.
fn forge_block(
    index: u64,
    now_ms: u64,
    previous_hash: String,
    hbs: Vec<Heartbeat>,
    txs: Vec<Transaction>,
    total_weight: u64,
    bio_entropy: String,
) -> (b: PulseBlock)
    ensures
        b.index == index,
        b.timestamp == now_ms,
        b.previous_hash == previous_hash,
        b.heartbeats@ == hbs@,
        b.transactions@ == txs@,
        b.n_live == hbs@.len(),
        b.total_weight == total_weight,
        b.security == total_weight,
        b.bio_entropy == bio_entropy,
        b.block_hash@ == block_hash_spec(&b),
{
    let n_live = hbs.len();
    let mut b = PulseBlock {
        index,
        timestamp: now_ms,
        previous_hash,
        heartbeats: hbs,
        transactions: txs,
        n_live,
        total_weight,
        security: total_weight,
        bio_entropy,
        block_hash: String::new(),
    };
    let ghost b0 = b;
    let h = b.compute_hash();
    b.block_hash = h;
    proof {
        crate::types::lemma_hashable_ignores_hash(&b, &b0);
    }
    b
}


/// The exact shares the pooled heartbeats receive from a reward.
pub open spec fn pool_shares(devices: Seq<DeviceState>, now_ms: u64, reward: u64) -> Seq<u128> {
    Seq::new(
        pool_weights(devices, now_ms).len(),
        |i: int| share_at(pool_weights(devices, now_ms), reward, i) as u128,
    )
}


impl ProofOfLife {
    /// Commit a formed block: persist it, append it to the chain, add its
    /// security to the cumulative weight, and consume the heartbeat pool
    /// while keeping continuity tracking.
    fn commit_block(&mut self, b: PulseBlock)
        requires
            old(self).wf(),
            b.index as int == old(self).chain_view().len(),
            b.previous_hash@ == old(self).chain_view().last().block_hash@,
            b.block_hash@ == block_hash_spec(&b),
            b.security == b.total_weight,
        ensures
            final(self).wf(),
            final(self).chain_view() == old(self).chain_view().push(b),
            final(self).cum_weight() == clamp128(old(self).cum_weight() + b.security),
            cleared(old(self).devices_view(), final(self).devices_view()),
            final(self).accounts_view() == old(self).accounts_view(),
            final(self).tx_view() == old(self).tx_view(),
            final(self).minted() == old(self).minted(),
            final(self).validator_view() == old(self).validator_view(),
            final(self).config_view() == old(self).config_view(),
    {
        self.persist_block(&b);
        let ghost chain_pre = self.chain@;
        self.chain.push(b);
        proof {
            assert(self.chain@.drop_last() =~= chain_pre);
        }
        self.cumulative_weight = self.cumulative_weight.saturating_add(
            self.chain[self.chain.len() - 1].security as u128,
        );
        let cleared_devices = cleared_copy(&self.devices);
        self.devices = cleared_devices;
    }
}

/// What block formation promises about the new tip, relative to the state
/// `pre` at the tick and the clock reading `now_ms`: it extends the old tip
/// by one, carries exactly the pooled heartbeats and pending transactions,
/// and its security score is the (clamped) sum of the same weights used for
/// the reward split.
pub open spec fn block_formed(
    chain: Seq<PulseBlock>,
    devices: Seq<DeviceState>,
    txs: Seq<Transaction>,
    entropy_hex: Seq<char>,
    b: PulseBlock,
    now_ms: u64,
) -> bool {
    let total = sum_weights(pool_weights(devices, now_ms));
    &&& b.index as int == chain.len()
    &&& b.timestamp == now_ms
    &&& b.previous_hash@ == chain.last().block_hash@
    &&& b.heartbeats@ == live_heartbeats(devices)
    &&& b.transactions@ == txs
    &&& b.n_live as int == pool_count(devices)
    &&& b.total_weight as int == (if total > u64::MAX {
        u64::MAX as int
    } else {
        total
    })
    &&& b.security == b.total_weight
    &&& b.bio_entropy@ == entropy_hex
    &&& b.block_hash@ == block_hash_spec(&b)
}

impl ProofOfLife {
    /// Try to form a block at a given clock reading.
    ///
    /// With fewer pooled heartbeats than the threshold nothing happens.
    /// Otherwise the pool is consumed into a new block: the same weights are
    /// summed into the security score and used to split the block reward
    /// exactly (see `compute_shares`), pending transactions are settled,
    /// the block is appended and persisted, and the pool is cleared while
    /// continuity tracking is kept.
    #[verifier::rlimit(100)]
    #[verifier::spinoff_prover]
    pub fn try_create_block_at(&mut self, now_ms: u64) -> (r: Result<
        Option<PulseBlock>,
        ConsensusError,
    >)
        requires
            old(self).wf(),
        ensures
            final(self).wf(),
            final(self).config_view() == old(self).config_view(),
            final(self).validator_view() == old(self).validator_view(),
            final(self).cum_weight() >= old(self).cum_weight(),
            pool_count(old(self).devices_view()) < old(self).config_view().n_threshold ==> (r
                matches Ok(None) && final(self).chain_view() == old(self).chain_view() && final(self).devices_view() == old(self).devices_view() && final(self).tx_view() == old(self).tx_view() && final(self).accounts_view() == old(self).accounts_view() && final(self).minted() == old(self).minted() && final(self).cum_weight() == old(self).cum_weight()),
            pool_count(old(self).devices_view()) >= old(self).config_view().n_threshold ==> (r
                matches Ok(Some(b)) && {
                let total = sum_weights(pool_weights(old(self).devices_view(), now_ms));
                let reward = reward_spec(
                    old(self).config_view().initial_reward_per_block,
                    old(self).config_view().min_reward_per_block,
                    old(self).config_view().halving_interval,
                    b.index,
                );
                &&& block_formed(
                    old(self).chain_view(),
                    old(self).devices_view(),
                    old(self).tx_view(),
                    hex_of(
                        sha256_of(
                            hr_section(old(self).validator_view().histories@) + motion_section(
                                old(self).validator_view().histories@,
                            ),
                        ),
                    ),
                    b,
                    now_ms,
                )
                &&& final(self).chain_view().len() == old(self).chain_view().len() + 1
                &&& block_eqv(final(self).chain_view().last(), b)
                &&& forall|i: int|
                    0 <= i < old(self).chain_view().len()
                        ==> #[trigger] final(self).chain_view()[i] == old(self).chain_view()[i]
                &&& cleared(old(self).devices_view(), final(self).devices_view())
                &&& final(self).tx_view().len() == 0
                &&& final(self).cum_weight() == clamp128(old(self).cum_weight() + b.security)
                &&& (0 < total <= u64::MAX ==> final(self).minted() == clamp128(
                    old(self).minted() + reward,
                ))
                &&& (0 < total <= u64::MAX ==> forall|i: int|
                    0 <= i < live_heartbeats(old(self).devices_view()).len()
                        ==> #[trigger] earned_of(
                        final(self).accounts_view(),
                        live_heartbeats(old(self).devices_view())[i].device_pubkey@,
                    ) == clamp128(
                        earned_of(
                            old(self).accounts_view(),
                            live_heartbeats(old(self).devices_view())[i].device_pubkey@,
                        ) + share_at(pool_weights(old(self).devices_view(), now_ms), reward as u64, i),
                    ))
                &&& (0 < total <= u64::MAX ==> balances_of(final(self).accounts_view())
                    == settle_all_map(
                    credit_all_map(
                        balances_of(old(self).accounts_view()),
                        live_heartbeats(old(self).devices_view()),
                        pool_shares(old(self).devices_view(), now_ms, reward as u64),
                        live_heartbeats(old(self).devices_view()).len() as int,
                    ),
                    old(self).tx_view(),
                    old(self).tx_view().len() as int,
                ))
                &&& (!(0 < total <= u64::MAX) ==> balances_of(final(self).accounts_view())
                    == settle_all_map(
                    balances_of(old(self).accounts_view()),
                    old(self).tx_view(),
                    old(self).tx_view().len() as int,
                ))
                &&& (0 < total <= u64::MAX && old(self).tx_view().len() == 0 ==> forall|i: int|
                    0 <= i < live_heartbeats(old(self).devices_view()).len()
                        ==> #[trigger] balance_of(
                        final(self).accounts_view(),
                        live_heartbeats(old(self).devices_view())[i].device_pubkey@,
                    ) == clamp128(
                        balance_of(
                            old(self).accounts_view(),
                            live_heartbeats(old(self).devices_view())[i].device_pubkey@,
                        ) + share_at(pool_weights(old(self).devices_view(), now_ms), reward as u64, i),
                    ))
                &&& (0 < total <= u64::MAX && old(self).tx_view().len() == 0 ==> forall|i: int|
                    0 <= i < live_heartbeats(old(self).devices_view()).len()
                        ==> #[trigger] participated_of(
                        final(self).accounts_view(),
                        live_heartbeats(old(self).devices_view())[i].device_pubkey@,
                    ) == (if participated_of(
                        old(self).accounts_view(),
                        live_heartbeats(old(self).devices_view())[i].device_pubkey@,
                    ) < u64::MAX {
                        participated_of(
                            old(self).accounts_view(),
                            live_heartbeats(old(self).devices_view())[i].device_pubkey@,
                        ) + 1
                    } else {
                        participated_of(
                            old(self).accounts_view(),
                            live_heartbeats(old(self).devices_view())[i].device_pubkey@,
                        )
                    }))
                &&& (0 < total <= u64::MAX && old(self).tx_view().len() == 0 ==> forall|i: int|
                    0 <= i < live_heartbeats(old(self).devices_view()).len()
                        ==> #[trigger] last_hb_of(
                        final(self).accounts_view(),
                        live_heartbeats(old(self).devices_view())[i].device_pubkey@,
                    ) == live_heartbeats(old(self).devices_view())[i].timestamp)
            }),
    {
        let count = self.heartbeat_pool_size();
        if count < self.config.n_threshold {
            return Ok(None);
        }
        let ghost pre = *self;
        let (hbs, ws) = self.snapshot_pool(now_ms);
        let ws_len: usize = ws.len();
        proof {
            lemma_sum_weights_bound(ws@);
            assert(ws@.len() == ws_len);
        }
        let total128: u128 = sum_weights_exec(&ws);
        let total_weight: u64 = if total128 > u64::MAX as u128 {
            u64::MAX
        } else {
            total128 as u64
        };
        let entropy = self.validator.aggregate_entropy();
        let bio_entropy: String = crate::crypto::hex_encode(entropy.as_slice());
        let tip = self.chain.len() - 1;
        proof {
            assert(self.chain@[tip as int].index == tip as int);
        }
        let index: u64 = self.chain[tip].index + 1;
        let previous_hash: String = self.chain[tip].block_hash.clone();
        let mut txs: Vec<Transaction> = Vec::new();
        core::mem::swap(&mut txs, &mut self.tx_pool);
        let b = forge_block(index, now_ms, previous_hash, hbs, txs, total_weight, bio_entropy);
        proof {
            lemma_live_distinct(pre.devices@);
        }
        let reward: u64 = self.config.reward_at_height(index);
        if total128 > 0 && total128 <= u64::MAX as u128 {
            let shares = compute_shares(&ws, reward);
            proof {
                assert(shares@ =~= pool_shares(pre.devices@, now_ms, reward));
            }
            credit_rewards(&mut self.accounts, &b.heartbeats, &shares);
            self.total_minted = self.total_minted.saturating_add(reward as u128);
        }
        apply_transactions(&mut self.accounts, &b.transactions);
        let bret = b.duplicate();
        proof {
            crate::types::lemma_hashable_ignores_hash(&bret, &b);
        }
        self.commit_block(b);
        Ok(Some(bret))
    }

    /// Try to form a block using the system clock.
    pub fn try_create_block(&mut self) -> (r: Result<Option<PulseBlock>, ConsensusError>)
        requires
            old(self).wf(),
        ensures
            final(self).wf(),
            final(self).config_view() == old(self).config_view(),
            final(self).cum_weight() >= old(self).cum_weight(),
    {
        let now = current_time_ms();
        self.try_create_block_at(now)
    }
}


/// Every signature in a block verifies: each heartbeat's over its signable
/// bytes under its device key, each transaction's under its sender key.
pub open spec fn block_sigs_ok(b: &PulseBlock) -> bool {
    &&& forall|i: int|
        0 <= i < b.heartbeats@.len() ==> hb_parses(#[trigger] &b.heartbeats@[i]) && hb_sig_ok(
            &b.heartbeats@[i],
        )
    &&& forall|j: int|
        0 <= j < b.transactions@.len() ==> tx_parses(#[trigger] &b.transactions@[j]) && tx_sig_ok(
            &b.transactions@[j],
        )
}


/// Check every signature in a block.
fn check_block_signatures(b: &PulseBlock) -> (r: Result<(), ConsensusError>)
    ensures
        r is Ok <==> block_sigs_ok(b),
{
    for i in 0..b.heartbeats.len()
        invariant
            forall|k: int|
                0 <= k < i ==> hb_parses(#[trigger] &b.heartbeats@[k]) && hb_sig_ok(
                    &b.heartbeats@[k],
                ),
    {
        let hb = &b.heartbeats[i];
        let signable = hb.signable_bytes();
        match verify_signature(
            hb.device_pubkey.as_str(),
            signable.as_slice(),
            hb.signature.as_str(),
        ) {
            Ok(true) => {},
            Ok(false) => {
                return Err(ConsensusError::InvalidHeartbeatSignature);
            },
            Err(e) => {
                return Err(ConsensusError::Crypto(e));
            },
        }
    }
    for j in 0..b.transactions.len()
        invariant
            forall|k: int|
                0 <= k < b.heartbeats@.len() ==> hb_parses(#[trigger] &b.heartbeats@[k])
                    && hb_sig_ok(&b.heartbeats@[k]),
            forall|k: int|
                0 <= k < j ==> tx_parses(#[trigger] &b.transactions@[k]) && tx_sig_ok(
                    &b.transactions@[k],
                ),
    {
        let tx = &b.transactions[j];
        let signable = tx.signable_bytes();
        match verify_signature(
            tx.sender_pubkey.as_str(),
            signable.as_slice(),
            tx.signature.as_str(),
        ) {
            Ok(true) => {},
            Ok(false) => {
                return Err(ConsensusError::InvalidTransactionSignature);
            },
            Err(e) => {
                return Err(ConsensusError::Crypto(e));
            },
        }
    }
    Ok(())
}

/// The weights a receiving node recomputes for an embedded heartbeat list:
/// full continuity, since continuity is local state the block cannot carry.
pub open spec fn full_weights(hbs: Seq<Heartbeat>) -> Seq<u64>
    decreases hbs.len(),
{
    if hbs.len() == 0 {
        Seq::empty()
    } else {
        full_weights(hbs.drop_last()).push(
            weight_spec(
                hr_norm_spec(hbs.last().heart_rate),
                hbs.last().spec_magnitude(),
                SCALE as int,
            ) as u64,
        )
    }
}

/// Recompute the full-continuity weight of each embedded heartbeat.
fn compute_full_weights(hbs: &Vec<Heartbeat>) -> (ws: Vec<u64>)
    ensures
        ws@ == full_weights(hbs@),
        ws@.len() == hbs@.len(),
        forall|i: int| 0 <= i < ws@.len() ==> #[trigger] ws@[i] <= SCALE,
{
    let mut ws: Vec<u64> = Vec::new();
    for i in 0..hbs.len()
        invariant
            ws@ == full_weights(hbs@.take(i as int)),
            ws@.len() == i,
            forall|j: int| 0 <= j < ws@.len() ==> #[trigger] ws@[j] <= SCALE,
    {
        proof {
            assert(hbs@.take(i + 1).drop_last() =~= hbs@.take(i as int));
            assert(hbs@.take(i + 1).last() == hbs@[i as int]);
        }
        let w = hbs[i].weight();
        ws.push(w);
        proof {
            assert(ws@ =~= full_weights(hbs@.take(i + 1)));
        }
    }
    proof {
        assert(hbs@.take(hbs@.len() as int) =~= hbs@);
    }
    ws
}

impl ProofOfLife {
    /// Apply the reward and transaction effects of an accepted block, using
    /// full-continuity weights recomputed from the block itself so that
    /// every node credits the same ledger.
    fn apply_block_effects(&mut self, b: &PulseBlock)
        requires
            old(self).wf(),
        ensures
            final(self).wf(),
            final(self).chain_view() == old(self).chain_view(),
            final(self).devices_view() == old(self).devices_view(),
            final(self).tx_view() == old(self).tx_view(),
            final(self).validator_view() == old(self).validator_view(),
            final(self).cum_weight() == old(self).cum_weight(),
            final(self).config_view() == old(self).config_view(),
            ({
                let total = sum_weights(full_weights(b.heartbeats@));
                let reward = reward_spec(
                    old(self).config_view().initial_reward_per_block,
                    old(self).config_view().min_reward_per_block,
                    old(self).config_view().halving_interval,
                    b.index,
                );
                0 < total <= u64::MAX ==> final(self).minted() == clamp128(
                    old(self).minted() + reward,
                )
            }),
            !block_reward_applies(b) ==> final(self).minted() == old(self).minted(),
            balances_of(final(self).accounts_view()) == replay_block_map(
                balances_of(old(self).accounts_view()),
                b,
                reward_spec(
                    old(self).config_view().initial_reward_per_block,
                    old(self).config_view().min_reward_per_block,
                    old(self).config_view().halving_interval,
                    b.index,
                ) as u64,
            ),
    {
        let ws = compute_full_weights(&b.heartbeats);
        let ws_len: usize = ws.len();
        proof {
            lemma_sum_weights_bound(ws@);
            assert(ws@.len() == ws_len);
        }
        let total128: u128 = sum_weights_exec(&ws);
        let reward: u64 = self.config.reward_at_height(b.index);
        proof {
            assert((total128 > 0 && total128 <= u64::MAX as u128) == block_reward_applies(b));
        }
        if total128 > 0 && total128 <= u64::MAX as u128 {
            let shares = compute_shares(&ws, reward);
            proof {
                assert(shares@ =~= block_shares(b, reward));
            }
            credit_rewards(&mut self.accounts, &b.heartbeats, &shares);
            self.total_minted = self.total_minted.saturating_add(reward as u128);
        }
        apply_transactions(&mut self.accounts, &b.transactions);
    }

    /// Persist a block and the full account table, ignoring storage
    /// failures: on error the chain continues in memory.
    fn persist_block(&mut self, b: &PulseBlock)
        ensures
            final(self).chain@ == old(self).chain@,
            final(self).devices@ == old(self).devices@,
            final(self).tx_pool@ == old(self).tx_pool@,
            final(self).accounts@ == old(self).accounts@,
            final(self).total_minted == old(self).total_minted,
            final(self).cumulative_weight == old(self).cumulative_weight,
            final(self).validator == old(self).validator,
            final(self).config == old(self).config,
    {
        match &mut self.storage {
            Some(st) => {
                let saved = st.save_block(b);
                if saved.is_ok() {
                    let mut ai: usize = 0;
                    while ai < self.accounts.len()
                        invariant
                            ai <= self.accounts@.len(),
                            self.chain@ == old(self).chain@,
                            self.devices@ == old(self).devices@,
                            self.tx_pool@ == old(self).tx_pool@,
                            self.accounts@ == old(self).accounts@,
                            self.total_minted == old(self).total_minted,
                            self.cumulative_weight == old(self).cumulative_weight,
                            self.validator == old(self).validator,
                            self.config == old(self).config,
                        decreases self.accounts@.len() - ai,
                    {
                        let acc = self.accounts[ai].duplicate();
                        let _ = st.save_account(&acc);
                        ai = ai + 1;
                    }
                    let _ = st.flush();
                }
            },
            None => {},
        }
    }

    /// Accept a block from a peer.
    ///
    /// The block must extend the local tip by exactly one, link to the
    /// tip's hash, carry its own canonical hash, and verify every embedded
    /// signature.  Beyond those checks the data model's block invariant is
    /// enforced: a block whose security score differs from its total weight
    /// is refused, since every committed block must satisfy it.  On
    /// acceptance the same deterministic reward and transaction effects run
    /// as for a locally formed block: full-continuity weights recomputed
    /// from the embedded heartbeats, one share per heartbeat.
    #[verifier::rlimit(100)]
    #[verifier::spinoff_prover]
    pub fn receive_block(&mut self, block: PulseBlock) -> (r: Result<(), ConsensusError>)
        requires
            old(self).wf(),
        ensures
            final(self).wf(),
            final(self).config_view() == old(self).config_view(),
            final(self).validator_view() == old(self).validator_view(),
            final(self).devices_view() == old(self).devices_view(),
            final(self).tx_view() == old(self).tx_view(),
            final(self).cum_weight() >= old(self).cum_weight(),
            !(block.index as int == old(self).chain_view().len() && block.previous_hash@ == old(self).chain_view().last().block_hash@) ==> (r matches Err(
                ConsensusError::InvalidPreviousHash,
            ) && final(self).chain_view() == old(self).chain_view() && final(self).accounts_view()
                == old(self).accounts_view()),
            r is Ok ==> {
                &&& block.index as int == old(self).chain_view().len()
                &&& block.previous_hash@ == old(self).chain_view().last().block_hash@
                &&& block.block_hash@ == block_hash_spec(&block)
                &&& block.security == block.total_weight
                &&& block_sigs_ok(&block)
                &&& final(self).chain_view().len() == old(self).chain_view().len() + 1
                &&& block_eqv(final(self).chain_view().last(), block)
                &&& forall|i: int|
                    0 <= i < old(self).chain_view().len()
                        ==> #[trigger] final(self).chain_view()[i] == old(self).chain_view()[i]
                &&& final(self).cum_weight() == clamp128(
                    old(self).cum_weight() + block.security,
                )
                &&& balances_of(final(self).accounts_view()) == replay_block_map(
                    balances_of(old(self).accounts_view()),
                    &block,
                    reward_spec(
                        old(self).config_view().initial_reward_per_block,
                        old(self).config_view().min_reward_per_block,
                        old(self).config_view().halving_interval,
                        block.index,
                    ) as u64,
                )
            },
            (block.index as int == old(self).chain_view().len() && block.previous_hash@ == old(
                self,
            ).chain_view().last().block_hash@ && block.block_hash@ == block_hash_spec(&block)
                && block.security == block.total_weight && block_sigs_ok(&block)) ==> r
                is Ok,
            r is Err ==> final(self).chain_view() == old(self).chain_view() && final(self).accounts_view() == old(self).accounts_view() && final(self).cum_weight() == old(self).cum_weight() && final(self).minted() == old(self).minted(),
    {
        let tip = self.chain.len() - 1;
        proof {
            assert(self.chain@[tip as int].index == tip as int);
        }
        if block.index != self.chain[tip].index + 1
            || block.previous_hash != self.chain[tip].block_hash {
            return Err(ConsensusError::InvalidPreviousHash);
        }
        let computed = block.compute_hash();
        if computed != block.block_hash {
            return Err(ConsensusError::InvalidPreviousHash);
        }
        if block.security != block.total_weight {
            return Err(ConsensusError::InvalidPreviousHash);
        }
        match check_block_signatures(&block) {
            Ok(()) => {},
            Err(e) => {
                return Err(e);
            },
        }
        self.apply_block_effects(&block);
        let bret = block.duplicate();
        let ghost chain_pre = self.chain@;
        self.chain.push(block);
        proof {
            assert(self.chain@.drop_last() =~= chain_pre);
        }
        self.cumulative_weight = self.cumulative_weight.saturating_add(
            self.chain[self.chain.len() - 1].security as u128,
        );
        self.persist_block(&bret);
        Ok(())
    }

    /// The blocks from a height on, for answering a chain-sync request.
    pub fn get_blocks_from(&self, from_height: u64) -> (r: Vec<PulseBlock>)
        requires
            self.wf(),
        ensures
            from_height < self.chain_view().len() ==> r@.len() == self.chain_view().len()
                - from_height,
            from_height >= self.chain_view().len() ==> r@.len() == 0,
            forall|i: int|
                0 <= i < r@.len() ==> block_eqv(
                    #[trigger] r@[i],
                    self.chain_view()[from_height + i],
                ),
    {
        let mut out: Vec<PulseBlock> = Vec::new();
        if from_height >= self.chain.len() as u64 {
            return out;
        }
        let start: usize = from_height as usize;
        for i in start..self.chain.len()
            invariant
                start <= i <= self.chain@.len(),
                out@.len() == i - start,
                forall|j: int|
                    0 <= j < out@.len() ==> block_eqv(#[trigger] out@[j], self.chain@[start + j]),
        {
            let copy = self.chain[i].duplicate();
            out.push(copy);
        }
        out
    }
}


/// The chain's security sum stays under `len * u64::MAX`.
proof fn lemma_sum_security_bound(c: Seq<PulseBlock>)
    ensures
        0 <= sum_security(c) <= c.len() * (u64::MAX as int),
    decreases c.len(),
{
    if c.len() > 0 {
        lemma_sum_security_bound(c.drop_last());
        assert((c.len() - 1) * (u64::MAX as int) + (u64::MAX as int) == c.len() * (
        u64::MAX as int)) by (nonlinear_arith);
    }
}

/// Every block's stored hash is the hash of its canonical bytes.
pub open spec fn hashes_ok(blocks: Seq<PulseBlock>) -> bool {
    forall|k: int|
        0 <= k < blocks.len() ==> #[trigger] blocks[k].block_hash@ == block_hash_spec(&blocks[k])
}

/// Recompute and compare each block's hash.
#[verifier::rlimit(100)]
#[verifier::spinoff_prover]
fn hash_check(blocks: &Vec<PulseBlock>) -> (r: bool)
    ensures
        r == hashes_ok(blocks@),
{
    for i in 0..blocks.len()
        invariant
            forall|k: int|
                0 <= k < i ==> #[trigger] blocks@[k].block_hash@ == block_hash_spec(&blocks@[k]),
    {
        let computed = blocks[i].compute_hash();
        if !(computed == blocks[i].block_hash) {
            return false;
        }
    }
    true
}

/// Check that a block sequence is a well-formed chain from genesis.
#[verifier::rlimit(100)]
#[verifier::spinoff_prover]
fn chain_check(blocks: &Vec<PulseBlock>) -> (r: bool)
    ensures
        r == chain_wf(blocks@),
{
    if blocks.len() == 0 {
        return false;
    }
    if blocks[0].index != 0 {
        return false;
    }
    let zeros = String::from_str(
        "0000000000000000000000000000000000000000000000000000000000000000",
    );
    proof {
        reveal_strlit("0000000000000000000000000000000000000000000000000000000000000000");
        assert(zeros@ =~= zeros64());
    }
    if !(blocks[0].previous_hash == zeros) {
        return false;
    }
    if !hash_check(blocks) {
        return false;
    }
    for i in 0..blocks.len()
        invariant
            blocks@.len() >= 1,
            blocks@[0].index == 0,
            blocks@[0].previous_hash@ == zeros64(),
            hashes_ok(blocks@),
            forall|k: int| 0 <= k < i ==> #[trigger] blocks@[k].index == k,
            forall|k: int|
                1 <= k < i ==> #[trigger] blocks@[k].previous_hash@ == blocks@[k - 1].block_hash@,
            forall|k: int| 0 <= k < i ==> #[trigger] blocks@[k].security == blocks@[k].total_weight,
    {
        if blocks[i].index != i as u64 {
            return false;
        }
        if i >= 1 && !(blocks[i].previous_hash == blocks[i - 1].block_hash) {
            return false;
        }
        if blocks[i].security != blocks[i].total_weight {
            return false;
        }
    }
    true
}



/// Check every signature of a candidate chain.
fn check_chain_signatures(blocks: &Vec<PulseBlock>) -> (r: Result<(), ConsensusError>)
    ensures
        r is Ok <==> forall|k: int|
            0 <= k < blocks@.len() ==> block_sigs_ok(#[trigger] &blocks@[k]),
{
    for i in 0..blocks.len()
        invariant
            forall|k: int| 0 <= k < i ==> block_sigs_ok(#[trigger] &blocks@[k]),
    {
        match check_block_signatures(&blocks[i]) {
            Ok(()) => {},
            Err(e) => {
                proof {
                    assert(!block_sigs_ok(&blocks@[i as int]));
                }
                return Err(e);
            },
        }
    }
    Ok(())
}

/// The exact sum of a chain's security scores (it fits 128 bits).
fn sum_security_exec(blocks: &Vec<PulseBlock>) -> (r: u128)
    ensures
        r as int == sum_security(blocks@),
        r as int == clamp128(sum_security(blocks@)),
{
    let blocks_len: usize = blocks.len();
    let mut cum: u128 = 0;
    for i in 0..blocks_len
        invariant
            blocks_len == blocks@.len(),
            cum as int == sum_security(blocks@.take(i as int)),
    {
        proof {
            assert(blocks@.take(i + 1).drop_last() =~= blocks@.take(i as int));
            assert(blocks@.take(i + 1).last() == blocks@[i as int]);
            lemma_sum_security_bound(blocks@.take(i as int));
            vstd::arithmetic::mul::lemma_mul_inequality(
                blocks@.take(i as int).len() as int,
                (blocks_len - 1) as int,
                u64::MAX as int,
            );
            vstd::arithmetic::mul::lemma_mul_upper_bound(
                (blocks_len - 1) as int,
                0xFFFF_FFFF_FFFF_FFFF,
                u64::MAX as int,
                u64::MAX as int,
            );
        }
        cum = cum + blocks[i].security as u128;
    }
    proof {
        assert(blocks@.take(blocks@.len() as int) =~= blocks@);
        lemma_sum_security_bound(blocks@);
    }
    cum
}


/// Whether a block's recomputed weights admit a reward distribution: a
/// positive sum that fits the share arithmetic.
pub open spec fn block_reward_applies(b: &PulseBlock) -> bool {
    0 < sum_weights(full_weights(b.heartbeats@)) <= u64::MAX
}

/// The exact shares a block's heartbeats receive from a reward.
pub open spec fn block_shares(b: &PulseBlock, reward: u64) -> Seq<u128> {
    Seq::new(
        b.heartbeats@.len(),
        |i: int| share_at(full_weights(b.heartbeats@), reward, i) as u128,
    )
}

/// The balance map after replaying one block: rewards credited when they
/// apply, then every transaction settled in order.
pub open spec fn replay_block_map(m: Map<Seq<char>, int>, b: &PulseBlock, reward: u64) -> Map<
    Seq<char>,
    int,
> {
    let credited = if block_reward_applies(b) {
        credit_all_map(m, b.heartbeats@, block_shares(b, reward), b.heartbeats@.len() as int)
    } else {
        m
    };
    settle_all_map(credited, b.transactions@, b.transactions@.len() as int)
}

/// The balance map after replaying a chain prefix from an empty ledger.
pub open spec fn replay_chain_map(
    m: Map<Seq<char>, int>,
    cfg: ConsensusConfig,
    blocks: Seq<PulseBlock>,
    k: int,
) -> Map<Seq<char>, int>
    decreases k,
{
    if k <= 0 {
        m
    } else {
        replay_block_map(
            replay_chain_map(m, cfg, blocks, k - 1),
            &blocks[k - 1],
            reward_spec(
                cfg.initial_reward_per_block,
                cfg.min_reward_per_block,
                cfg.halving_interval,
                blocks[k - 1].index,
            ) as u64,
        )
    }
}

/// The total minted after replaying a chain prefix: one full (clamped)
/// reward per block whose weights admit a distribution.
pub open spec fn minted_replay(cfg: ConsensusConfig, blocks: Seq<PulseBlock>, k: int) -> int
    decreases k,
{
    if k <= 0 {
        0
    } else {
        let prev = minted_replay(cfg, blocks, k - 1);
        if block_reward_applies(&blocks[k - 1]) {
            clamp128(
                prev + reward_spec(
                    cfg.initial_reward_per_block,
                    cfg.min_reward_per_block,
                    cfg.halving_interval,
                    blocks[k - 1].index,
                ),
            )
        } else {
            prev
        }
    }
}

/// Replay a chain's deterministic reward and transaction effects into a
/// fresh ledger: the resulting balance map is exactly the chain's replay
/// fold, and the minted total is one (clamped) reward per rewarding block.
fn rebuild_ledger(config: &ConsensusConfig, chain: &Vec<PulseBlock>) -> (r: (Vec<Account>, u128))
    ensures
        acct_unique(r.0@),
        balances_of(r.0@) == replay_chain_map(
            balances_of(Seq::empty()),
            *config,
            chain@,
            chain@.len() as int,
        ),
        r.1 as int == minted_replay(*config, chain@, chain@.len() as int),
{
    let mut accounts: Vec<Account> = Vec::new();
    let mut minted: u128 = 0;
    for i in 0..chain.len()
        invariant
            acct_unique(accounts@),
            balances_of(accounts@) == replay_chain_map(
                balances_of(Seq::empty()),
                *config,
                chain@,
                i as int,
            ),
            minted as int == minted_replay(*config, chain@, i as int),
    {
        let b = &chain[i];
        let ws = compute_full_weights(&b.heartbeats);
        let ws_len: usize = ws.len();
        proof {
            lemma_sum_weights_bound(ws@);
            assert(ws@.len() == ws_len);
        }
        let total128: u128 = sum_weights_exec(&ws);
        let reward: u64 = config.reward_at_height(b.index);
        proof {
            assert((total128 > 0 && total128 <= u64::MAX as u128) == block_reward_applies(
                &chain@[i as int],
            ));
        }
        if total128 > 0 && total128 <= u64::MAX as u128 {
            let shares = compute_shares(&ws, reward);
            proof {
                assert(shares@ =~= block_shares(&chain@[i as int], reward));
            }
            credit_rewards(&mut accounts, &b.heartbeats, &shares);
            minted = minted.saturating_add(reward as u128);
        }
        apply_transactions(&mut accounts, &b.transactions);
    }
    (accounts, minted)
}

impl ProofOfLife {
    /// Adopt a candidate chain if it is valid from genesis and strictly
    /// heavier than the local chain, rebuilding the ledger from it.
    ///
    /// The candidate must be a well-formed chain (linked, hash-sound,
    /// security equal to total weight), every embedded signature must
    /// verify, each block must name each device at most once, and its
    /// cumulative weight must exceed the local one.  On success the
    /// accounts are replayed deterministically from the candidate's blocks.
    #[verifier::rlimit(100)]
    #[verifier::spinoff_prover]
    pub fn replace_chain(&mut self, candidate: Vec<PulseBlock>) -> (r: Result<
        (),
        ConsensusError,
    >)
        requires
            old(self).wf(),
        ensures
            final(self).wf(),
            final(self).config_view() == old(self).config_view(),
            final(self).validator_view() == old(self).validator_view(),
            final(self).devices_view() == old(self).devices_view(),
            final(self).tx_view() == old(self).tx_view(),
            final(self).cum_weight() >= old(self).cum_weight(),
            r is Ok ==> chain_wf(candidate@) && final(self).chain_view() == candidate@ && final(self).cum_weight() == clamp128(sum_security(candidate@)) && final(self).cum_weight() > old(self).cum_weight(),
            r is Ok ==> balances_of(final(self).accounts_view()) == replay_chain_map(
                balances_of(Seq::empty()),
                old(self).config_view(),
                candidate@,
                candidate@.len() as int,
            ) && final(self).minted() == minted_replay(
                old(self).config_view(),
                candidate@,
                candidate@.len() as int,
            ),
            (chain_wf(candidate@) && (forall|k: int|
                0 <= k < candidate@.len() ==> block_sigs_ok(#[trigger] &candidate@[k]))
                && sum_security(candidate@) > old(self).cum_weight() && sum_security(candidate@)
                <= u128::MAX) ==> r is Ok,
            r is Err ==> final(self).chain_view() == old(self).chain_view() && final(self).accounts_view() == old(self).accounts_view() && final(self).cum_weight() == old(self).cum_weight() && final(self).minted() == old(self).minted(),
    {
        if !chain_check(&candidate) {
            return Err(ConsensusError::InvalidPreviousHash);
        }
        match check_chain_signatures(&candidate) {
            Ok(()) => {},
            Err(e) => {
                return Err(e);
            },
        }
        let new_cum: u128 = sum_security_exec(&candidate);
        if new_cum <= self.cumulative_weight {
            proof {
                assert(new_cum as int == sum_security(candidate@));
                assert(self.cumulative_weight as int == old(self).cum_weight());
            }
            return Err(ConsensusError::InvalidPreviousHash);
        }
        let (accounts, minted) = rebuild_ledger(&self.config, &candidate);
        self.chain = candidate;
        self.accounts = accounts;
        self.total_minted = minted;
        self.cumulative_weight = new_cum;
        Ok(())
    }

    /// Rebuild a consensus engine from persistent storage: load the chain
    /// (or create genesis on first start), recompute the cumulative weight
    /// as the sum of block security scores and the minted total from the
    /// stored accounts.  A stored chain that fails validation is refused as
    /// corrupt.
    pub fn with_storage(config: ConsensusConfig, storage: Storage) -> (r: Result<
        ProofOfLife,
        ConsensusError,
    >)
        ensures
            r matches Ok(p) ==> p.wf() && p.config_view() == config && p.devices_view().len() == 0
                && p.tx_view().len() == 0 && p.validator_view().histories@.len() == 0,
            r matches Ok(p) ==> (p.store() matches Some(st) && (forall|i: int|
                0 <= i < p.chain_view().len() ==> crate::storage::stored_block(
                    st.blocks_view(),
                    #[trigger] &p.chain_view()[i],
                )) && (forall|k: Seq<u8>|
                st.blocks_view().contains_key(k) ==> crate::storage::has_encoding(
                    p.chain_view(),
                    #[trigger] st.blocks_view()[k],
                )) && (forall|i: int|
                0 <= i < p.accounts_view().len() ==> crate::storage::stored_account(
                    st.accounts_view(),
                    #[trigger] &p.accounts_view()[i],
                )) && (forall|k: Seq<u8>|
                st.accounts_view().contains_key(k) ==> crate::storage::has_account_encoding(
                    p.accounts_view(),
                    #[trigger] st.accounts_view()[k],
                )) && p.minted() == clamp128(sum_earned(p.accounts_view()))),
    {
        let blocks = match storage.load_all_blocks() {
            Ok(b) => b,
            Err(e) => {
                return Err(ConsensusError::Storage(e));
            },
        };
        if blocks.len() == 0 {
            // A store with accounts but no blocks is inconsistent: accounts
            // only ever arise from committed blocks.
            let stray = match storage.load_all_accounts() {
                Ok(a) => a,
                Err(e) => {
                    return Err(ConsensusError::Storage(e));
                },
            };
            if stray.len() > 0 {
                return Err(ConsensusError::Storage(StorageError::Decode));
            }
            proof {
                assert forall|k: Seq<u8>| !#[trigger] storage.accounts_view().contains_key(
                    k,
                ) by {
                    if storage.accounts_view().contains_key(k) {
                        assert(crate::storage::has_account_encoding(
                            stray@,
                            storage.accounts_view()[k],
                        ));
                    }
                }
            }
            let now = current_time_ms();
            let genesis = Self::create_genesis_block(now);
            let ghost g = genesis;
            let mut st = storage;
            let ghost pre_view = st.blocks_view();
            let gsave = genesis.duplicate();
            proof {
                crate::types::lemma_hashable_ignores_hash(&gsave, &g);
                assert forall|k: Seq<u8>| !#[trigger] pre_view.contains_key(k) by {
                    if pre_view.contains_key(k) {
                        assert(crate::storage::has_encoding(blocks@, pre_view[k]));
                    }
                }
            }
            match st.save_block(&gsave) {
                Ok(()) => {},
                Err(e) => {
                    return Err(ConsensusError::Storage(e));
                },
            }
            let _ = st.flush();
            let mut chain: Vec<PulseBlock> = Vec::new();
            chain.push(genesis);
            let p = ProofOfLife {
                config,
                chain,
                devices: Vec::new(),
                tx_pool: Vec::new(),
                accounts: Vec::new(),
                total_minted: 0,
                storage: Some(st),
                cumulative_weight: 0,
                validator: BiometricValidator::new(),
            };
            proof {
                assert(p.chain@ =~= seq![g]);
                assert(p.chain@[0].security == 0);
                assert(p.chain@.drop_last() =~= Seq::<PulseBlock>::empty());
                assert(sum_security(Seq::<PulseBlock>::empty()) == 0);
                assert(sum_security(p.chain@) == 0);
                assert(chain_wf(p.chain@));
                assert(sum_earned(p.accounts@) == 0);
                let st_now = p.storage.unwrap();
                assert(st_now.blocks_view().contains_pair(
                    crate::storage::enc_u64(gsave.index),
                    crate::storage::enc_block(&gsave),
                ));
                assert(crate::storage::enc_block(&gsave) == crate::storage::enc_block(&g)) by {
                    crate::storage::lemma_enc_block_congruence(&gsave, &g);
                }
                assert forall|i: int|
                    0 <= i < p.chain@.len() implies crate::storage::stored_block(
                    st_now.blocks_view(),
                    #[trigger] &p.chain@[i],
                ) by {
                    assert(p.chain@[i] == g);
                }
                assert forall|k: Seq<u8>|
                    st_now.blocks_view().contains_key(k) implies crate::storage::has_encoding(
                    p.chain@,
                    #[trigger] st_now.blocks_view()[k],
                ) by {
                    assert(k == crate::storage::enc_u64(gsave.index));
                    assert(st_now.blocks_view()[k] == crate::storage::enc_block(&g));
                    assert(crate::storage::enc_block(&p.chain@[0]) == st_now.blocks_view()[k]);
                }
            }
            return Ok(p);
        }
        if !chain_check(&blocks) {
            return Err(ConsensusError::Storage(StorageError::Decode));
        }
        let loaded = match storage.load_all_accounts() {
            Ok(a) => a,
            Err(e) => {
                return Err(ConsensusError::Storage(e));
            },
        };
        let mut accounts: Vec<Account> = Vec::new();
        for i in 0..loaded.len()
            invariant
                acct_unique(accounts@),
                accounts@.len() == i,
                forall|j: int| 0 <= j < i ==> #[trigger] accounts@[j] == loaded@[j],
        {
            let a = loaded[i].duplicate();
            proof {
                assert(a == loaded@[i as int]);
            }
            let existing = find_account(&accounts, &a.pubkey);
            match existing {
                Some(_) => {
                    // Two stored accounts under one public key: refuse the
                    // store as corrupt rather than silently dropping one.
                    return Err(ConsensusError::Storage(StorageError::Decode));
                },
                None => {
                    proof {
                        if acct_has(accounts@, a.pubkey@) {
                            let k = acct_at(accounts@, a.pubkey@);
                            assert(accounts@[k].pubkey@ == a.pubkey@);
                            assert(false);
                        }
                    }
                    let ghost pre = accounts@;
                    let ghost apush = a;
                    accounts.push(a);
                    proof {
                        lemma_acct_push(pre, apush);
                        assert forall|j: int|
                            0 <= j < i + 1 implies #[trigger] accounts@[j] == loaded@[j] by {
                            if j < i as int {
                                assert(accounts@[j] == pre[j]);
                            }
                        }
                    }
                },
            }
        }
        proof {
            assert forall|m: int|
                0 <= m < accounts@.len() implies crate::storage::stored_account(
                storage.accounts_view(),
                #[trigger] &accounts@[m],
            ) by {
                assert(accounts@[m] == loaded@[m]);
                assert(crate::storage::stored_account(
                    storage.accounts_view(),
                    &loaded@[m],
                ));
            }
            assert forall|k: Seq<u8>|
                storage.accounts_view().contains_key(k) implies
                crate::storage::has_account_encoding(
                accounts@,
                #[trigger] storage.accounts_view()[k],
            ) by {
                assert(crate::storage::has_account_encoding(
                    loaded@,
                    storage.accounts_view()[k],
                ));
                let e = choose|e: int|
                    0 <= e < loaded@.len() && crate::storage::enc_account(
                        #[trigger] &loaded@[e],
                    ) == storage.accounts_view()[k];
                assert(accounts@[e] == loaded@[e]);
                assert(crate::storage::enc_account(&accounts@[e])
                    == storage.accounts_view()[k]);
            }
        }
        let mut minted: u128 = 0;
        for i in 0..accounts.len()
            invariant
                minted as int == clamp128(sum_earned(accounts@.take(i as int))),
        {
            proof {
                assert(accounts@.take(i + 1).drop_last() =~= accounts@.take(i as int));
                assert(accounts@.take(i + 1).last() == accounts@[i as int]);
            }
            minted = minted.saturating_add(accounts[i].total_earned);
        }
        proof {
            assert(accounts@.take(accounts@.len() as int) =~= accounts@);
        }
        let cum: u128 = sum_security_exec(&blocks);
        let p = ProofOfLife {
            config,
            chain: blocks,
            devices: Vec::new(),
            tx_pool: Vec::new(),
            accounts,
            total_minted: minted,
            storage: Some(storage),
            cumulative_weight: cum,
            validator: BiometricValidator::new(),
        };
        Ok(p)
    }

    /// The whole chain, for read-only use.
    pub fn get_blocks(&self) -> (r: Vec<PulseBlock>)
        ensures
            r@.len() == self.chain_view().len(),
            forall|i: int| 0 <= i < r@.len() ==> block_eqv(#[trigger] r@[i], self.chain_view()[i]),
    {
        let mut out: Vec<PulseBlock> = Vec::new();
        for i in 0..self.chain.len()
            invariant
                out@.len() == i,
                forall|j: int| 0 <= j < i ==> block_eqv(#[trigger] out@[j], self.chain@[j]),
        {
            out.push(self.chain[i].duplicate());
        }
        out
    }

    /// The block at an index, if the chain reaches it.
    pub fn get_block_by_index(&self, index: u64) -> (r: Option<PulseBlock>)
        requires
            self.wf(),
        ensures
            index < self.chain_view().len() ==> (r matches Some(b) && block_eqv(
                b,
                self.chain_view()[index as int],
            )),
            index >= self.chain_view().len() ==> r is None,
    {
        if index < self.chain.len() as u64 {
            Some(self.chain[index as usize].duplicate())
        } else {
            None
        }
    }

    /// Network statistics.
    pub fn get_stats(&self) -> (r: NetworkStats)
        requires
            self.wf(),
        ensures
            r.chain_length as int == self.chain_view().len(),
            r.total_minted as int == self.minted(),
            r.active_accounts == self.accounts_view().len(),
            r.cumulative_weight as int == self.cum_weight(),
            r.total_security as int == self.cum_weight(),
            r.current_block_reward as int == reward_spec(
                self.config_view().initial_reward_per_block,
                self.config_view().min_reward_per_block,
                self.config_view().halving_interval,
                (self.chain_view().len() - 1) as u64,
            ),
            r.halving_epoch as int == (if self.config_view().halving_interval > 0 {
                (self.chain_view().len() - 1) as int / self.config_view().halving_interval as int
            } else {
                0
            }),
            r.avg_block_time == self.config_view().block_interval_ms,
            r.current_tps == 0,
            r.inflation_rate as int == (if self.minted() > 0 {
                let q = reward_spec(
                    self.config_view().initial_reward_per_block,
                    self.config_view().min_reward_per_block,
                    self.config_view().halving_interval,
                    (self.chain_view().len() - 1) as u64,
                ) * (SCALE as int) / self.minted();
                if q > u64::MAX {
                    u64::MAX as int
                } else {
                    q
                }
            } else {
                0
            }),
    {
        let height = self.chain_height();
        let current_reward = self.config.reward_at_height(height);
        let halving_epoch: u64 = if self.config.halving_interval > 0 {
            height / self.config.halving_interval
        } else {
            0
        };
        let inflation_rate: u64 = if self.total_minted > 0 {
            let q: u128 = (current_reward as u128) * (SCALE as u128) / self.total_minted;
            if q > u64::MAX as u128 {
                u64::MAX
            } else {
                q as u64
            }
        } else {
            0
        };
        NetworkStats {
            chain_length: self.chain.len() as u64,
            total_minted: self.total_minted,
            active_accounts: self.accounts.len(),
            current_tps: 0,
            avg_block_time: self.config.block_interval_ms,
            total_security: self.cumulative_weight,
            current_block_reward: current_reward,
            halving_epoch,
            cumulative_weight: self.cumulative_weight,
            inflation_rate,
        }
    }
}


/// Whether a device entry survives continuity cleanup at `now`: it is
/// either still pulsing or started recently enough.
pub open spec fn keep_device(e: DeviceState, now_ms: u64, window_ms: u64) -> bool {
    e.heartbeat is Some || sat_sub(now_ms, e.continuity_start) < window_ms
}

/// Twice the heartbeat age window, saturated.
pub open spec fn cleanup_window(cfg: ConsensusConfig) -> u64 {
    if cfg.max_heartbeat_age_ms > u64::MAX / 2 {
        u64::MAX
    } else {
        (2 * cfg.max_heartbeat_age_ms) as u64
    }
}

impl ProofOfLife {
    /// Drop continuity tracking for devices that stopped pulsing beyond
    /// twice the heartbeat age window, and evict their biometric
    /// histories.
    #[verifier::rlimit(100)]
    pub fn cleanup_stale_continuity_at(&mut self, now_ms: u64)
        requires
            old(self).wf(),
        ensures
            final(self).wf(),
            final(self).chain_view() == old(self).chain_view(),
            final(self).accounts_view() == old(self).accounts_view(),
            final(self).tx_view() == old(self).tx_view(),
            final(self).cum_weight() == old(self).cum_weight(),
            final(self).minted() == old(self).minted(),
            final(self).config_view() == old(self).config_view(),
            forall|pk: Seq<char>|
                #[trigger] ds_has(final(self).devices_view(), pk) <==> (ds_has(
                    old(self).devices_view(),
                    pk,
                ) && keep_device(
                    old(self).devices_view()[ds_at(old(self).devices_view(), pk)],
                    now_ms,
                    cleanup_window(old(self).config_view()),
                )),
            forall|pk: Seq<char>|
                #[trigger] ds_has(final(self).devices_view(), pk) ==> final(self).devices_view()[
                    ds_at(final(self).devices_view(), pk)
                ] == old(self).devices_view()[ds_at(old(self).devices_view(), pk)],
            forall|pk: Seq<char>|
                #[trigger] hist_has(final(self).validator_view().histories@, pk) ==> hist_has(
                    old(self).validator_view().histories@,
                    pk,
                ),
            forall|pk: Seq<char>|
                #[trigger] hist_has(final(self).validator_view().histories@, pk) ==> ds_has(
                    final(self).devices_view(),
                    pk,
                ),
    {
        let window: u64 = if self.config.max_heartbeat_age_ms > u64::MAX / 2 {
            u64::MAX
        } else {
            2 * self.config.max_heartbeat_age_ms
        };
        let ghost orig = self.devices@;
        let mut kept: Vec<DeviceState> = Vec::new();
        proof {
            assert(self.devices@ =~= orig.take(self.devices@.len() as int));
        }
        while self.devices.len() > 0
            invariant
                self.chain@ == old(self).chain@,
                self.accounts@ == old(self).accounts@,
                self.tx_pool@ == old(self).tx_pool@,
                self.cumulative_weight == old(self).cumulative_weight,
                self.total_minted == old(self).total_minted,
                self.config == old(self).config,
                self.validator == old(self).validator,
                orig == old(self).devices@,
                window == cleanup_window(self.config),
                ds_unique(orig),
                forall|j: int| 0 <= j < orig.len() ==> ds_entry_wf(#[trigger] &orig[j]),
                self.devices@ == orig.take(self.devices@.len() as int),
                self.devices@.len() <= orig.len(),
                ds_unique(kept@),
                forall|j: int| 0 <= j < kept@.len() ==> ds_entry_wf(#[trigger] &kept@[j]),
                forall|pk: Seq<char>|
                    #[trigger] ds_has(kept@, pk) ==> ds_has(orig, pk) && keep_device(
                        orig[ds_at(orig, pk)],
                        now_ms,
                        window,
                    ) && kept@[ds_at(kept@, pk)] == orig[ds_at(orig, pk)],
                forall|pk: Seq<char>|
                    ds_has(orig, pk) && keep_device(orig[ds_at(orig, pk)], now_ms, window)
                        && !ds_has(self.devices@, pk) ==> #[trigger] ds_has(kept@, pk),
                forall|pk: Seq<char>|
                    #[trigger] ds_has(kept@, pk) ==> !ds_has(self.devices@, pk),
            decreases self.devices@.len(),
        {
            let ghost pre = self.devices@;
            let popped = self.devices.pop();
            let e = match popped {
                Some(e) => e,
                None => {
                    proof {
                        assert(false);
                    }
                    continue ;
                },
            };
            let ghost l = pre.len() as int - 1;
            proof {
                assert(pre == orig.take(l + 1));
                assert(e == orig[l]);
                assert(self.devices@ =~= orig.take(l));
            }
            let keep = e.heartbeat.is_some() || now_ms.saturating_sub(e.continuity_start)
                < window;
            proof {
                assert(orig[l].pubkey@ == e.pubkey@);
                assert(ds_has(orig, e.pubkey@));
                let k = ds_at(orig, e.pubkey@);
                if k != l {
                    assert(orig[k].pubkey@ == orig[l].pubkey@);
                    assert(false);
                }
                assert(keep == keep_device(orig[l], now_ms, window));
            }
            if keep {
                proof {
                    assert(!ds_has(kept@, e.pubkey@)) by {
                        if ds_has(kept@, e.pubkey@) {
                            assert(!ds_has(pre, e.pubkey@));
                            assert(pre[l].pubkey@ == e.pubkey@);
                            assert(ds_has(pre, e.pubkey@));
                        }
                    }
                    assert(ds_entry_wf(&orig[l]));
                }
                let ghost keptpre = kept@;
                let ghost epush = e;
                kept.push(e);
                proof {
                    lemma_ds_push(keptpre, epush);
                    assert forall|pk: Seq<char>| #[trigger] ds_has(kept@, pk) implies !ds_has(
                        self.devices@,
                        pk,
                    ) by {
                        if pk == epush.pubkey@ {
                            if ds_has(self.devices@, pk) {
                                let t = ds_at(self.devices@, pk);
                                assert(self.devices@[t] == orig[t]);
                                assert(orig[t].pubkey@ == orig[l].pubkey@);
                                assert(false);
                            }
                        } else {
                            assert(ds_has(keptpre, pk));
                            if ds_has(self.devices@, pk) {
                                let t = ds_at(self.devices@, pk);
                                assert(pre[t] == self.devices@[t]);
                                assert(ds_has(pre, pk));
                            }
                        }
                    }
                    assert forall|j: int| 0 <= j < kept@.len() implies ds_entry_wf(
                        #[trigger] &kept@[j],
                    ) by {
                        if j < keptpre.len() {
                            assert(kept@[j] == keptpre[j]);
                        } else {
                            assert(kept@[j] == epush);
                        }
                    }
                }
            } else {
                proof {
                    assert forall|pk: Seq<char>|
                        ds_has(orig, pk) && keep_device(orig[ds_at(orig, pk)], now_ms, window)
                            && !ds_has(self.devices@, pk) implies #[trigger] ds_has(
                        kept@,
                        pk,
                    ) by {
                        if !ds_has(pre, pk) {
                        } else {
                            let t = ds_at(pre, pk);
                            assert(pre[t].pubkey@ == pk);
                            if t < l {
                                assert(self.devices@[t] == pre[t]);
                                assert(ds_has(self.devices@, pk));
                            } else {
                                assert(pre[l].pubkey@ == e.pubkey@);
                                assert(pk == e.pubkey@);
                                let k = ds_at(orig, pk);
                                if k != l {
                                    assert(orig[k].pubkey@ == orig[l].pubkey@);
                                    assert(false);
                                }
                                assert(!keep_device(orig[ds_at(orig, pk)], now_ms, window));
                            }
                        }
                    }
                    assert forall|pk: Seq<char>| #[trigger] ds_has(kept@, pk) implies !ds_has(
                        self.devices@,
                        pk,
                    ) by {
                        if ds_has(self.devices@, pk) {
                            let t = ds_at(self.devices@, pk);
                            assert(pre[t] == self.devices@[t]);
                            assert(ds_has(pre, pk));
                        }
                    }
                }
            }
        }
        proof {
            assert(self.devices@.len() == 0);
            assert forall|pk: Seq<char>| !#[trigger] ds_has(self.devices@, pk) by {
                if ds_has(self.devices@, pk) {
                    let t = ds_at(self.devices@, pk);
                    assert(false);
                }
            }
        }
        core::mem::swap(&mut self.devices, &mut kept);
        let ghost devs = self.devices@;
        let mut active: Vec<String> = Vec::new();
        let mut i: usize = 0;
        while i < self.devices.len()
            invariant
                self.chain@ == old(self).chain@,
                self.accounts@ == old(self).accounts@,
                self.tx_pool@ == old(self).tx_pool@,
                self.cumulative_weight == old(self).cumulative_weight,
                self.total_minted == old(self).total_minted,
                self.config == old(self).config,
                self.validator == old(self).validator,
                self.devices@ == devs,
                i <= self.devices@.len(),
                active@.len() == i,
                forall|j: int| 0 <= j < i ==> #[trigger] active@[j]@ == self.devices@[j].pubkey@,
            decreases self.devices@.len() - i,
        {
            active.push(self.devices[i].pubkey.clone());
            i = i + 1;
        }
        self.validator.cleanup(&active);
        proof {
            assert forall|pk: Seq<char>|
                #[trigger] hist_has(self.validator.histories@, pk) implies ds_has(
                self.devices@,
                pk,
            ) by {
                if hist_has(self.validator.histories@, pk) {
                    assert(crate::biometrics::key_in(active@, pk));
                    let j = choose|j: int| 0 <= j < active@.len() && #[trigger] active@[j]@ == pk;
                    assert(self.devices@[j].pubkey@ == pk);
                }
            }
        }
    }

    /// Continuity cleanup at the system clock.
    pub fn cleanup_stale_continuity(&mut self)
        requires
            old(self).wf(),
        ensures
            final(self).wf(),
            final(self).chain_view() == old(self).chain_view(),
            final(self).accounts_view() == old(self).accounts_view(),
            final(self).cum_weight() == old(self).cum_weight(),
    {
        let now = current_time_ms();
        self.cleanup_stale_continuity_at(now);
    }
}

} // verus!
