//! Biometric validation and entropy extraction.
//!
//! Per device the validator keeps a bounded history of recent heart-rate
//! samples and motion magnitudes, and scores each new sample against it:
//! heart-rate variability (SDNN) that is too low or too high, periodic
//! patterns, and heart-rate/motion mismatches each shrink a multiplicative
//! confidence score.  All statistics are computed exactly: a threshold on
//! SDNN is decided by cross-multiplied integer comparisons, never by
//! floating point.

use vstd::prelude::*;

use crate::crypto::{sha256, sha256_of};
use crate::enc::{le_bytes, push_le_u64};
use crate::num::isqrt_spec;
use crate::types::{push_str_bytes, sq, utf8};

verus! {

/// Maximum samples kept per device.
pub const MAX_HISTORY: usize = 60;

/// Motion magnitudes are stored saturated to this bound (10 g in micro-g):
/// beyond it a sensor reading carries no extra information for anomaly
/// detection, and the bound keeps every statistic inside 128 bits.
pub const MOTION_CAP: u64 = 10_000_000;

/// The bounded recent history of one device.
pub struct DeviceHistory {
    /// The device's public key, hex-encoded.
    pub pubkey: String,
    /// Recent heart-rate samples, oldest first.
    pub hr: Vec<u16>,
    /// Recent motion magnitudes in micro-g, saturated at `MOTION_CAP`.
    pub motion: Vec<u64>,
}

impl DeviceHistory {
    /// Samples stay bounded in count and value.
    pub open spec fn wf(&self) -> bool {
        &&& self.hr@.len() <= MAX_HISTORY
        &&& self.motion@.len() <= MAX_HISTORY
        &&& forall|i: int|
            0 <= i < self.hr@.len() ==> 30 <= #[trigger] self.hr@[i] && self.hr@[i] <= 220
        &&& forall|i: int| 0 <= i < self.motion@.len() ==> #[trigger] self.motion@[i] <= MOTION_CAP
    }
}

/// A sample sequence after appending one value and trimming to the bound.
pub open spec fn push_trim16(s: Seq<u16>, v: u16) -> Seq<u16> {
    let t = s.push(v);
    if t.len() > MAX_HISTORY {
        t.subrange(1, t.len() as int)
    } else {
        t
    }
}

/// A sample sequence after appending one value and trimming to the bound.
pub open spec fn push_trim64(s: Seq<u64>, v: u64) -> Seq<u64> {
    let t = s.push(v);
    if t.len() > MAX_HISTORY {
        t.subrange(1, t.len() as int)
    } else {
        t
    }
}

/// Sum of a heart-rate sample sequence.
pub open spec fn sum16(s: Seq<u16>) -> int
    decreases s.len(),
{
    if s.len() == 0 {
        0
    } else {
        sum16(s.drop_last()) + s.last()
    }
}

/// Sum of a motion sample sequence.
pub open spec fn sum64(s: Seq<u64>) -> int
    decreases s.len(),
{
    if s.len() == 0 {
        0
    } else {
        sum64(s.drop_last()) + s.last()
    }
}

/// `sum over the first k entries of (n * s[i] - total)^2`, with `n` the
/// length and `total` the sum of the whole sequence.  Scaling each deviation
/// by `n` keeps the mean exact: `n * s[i] - total == n * (s[i] - mean)`.
pub open spec fn sq_dev16_upto(s: Seq<u16>, k: int) -> int
    decreases k,
{
    if k <= 0 {
        0
    } else {
        sq_dev16_upto(s, k - 1) + sq(s.len() * s[k - 1] - sum16(s))
    }
}

/// The scaled squared-deviation sum of the whole sequence.
pub open spec fn sq_dev16(s: Seq<u16>) -> int {
    sq_dev16_upto(s, s.len() as int)
}

/// As `sq_dev16_upto`, for motion samples.
pub open spec fn sq_dev64_upto(s: Seq<u64>, k: int) -> int
    decreases k,
{
    if k <= 0 {
        0
    } else {
        sq_dev64_upto(s, k - 1) + sq(s.len() * s[k - 1] - sum64(s))
    }
}

/// The scaled squared-deviation sum of the whole sequence.
pub open spec fn sq_dev64(s: Seq<u64>) -> int {
    sq_dev64_upto(s, s.len() as int)
}

/// SDNN below 0.5 BPM: a constant, likely synthetic signal.  Exactly:
/// `sq_dev / (n^2 (n-1)) < 1/4`, cross-multiplied.
pub open spec fn low_hrv(s: Seq<u16>) -> bool {
    let n = s.len() as int;
    s.len() >= 10 && 4 * sq_dev16(s) < n * n * (n - 1)
}

/// SDNN above 40 BPM: random noise.  Exactly: `sq_dev / (n^2 (n-1)) > 1600`.
pub open spec fn high_hrv(s: Seq<u16>) -> bool {
    let n = s.len() as int;
    s.len() >= 10 && sq_dev16(s) > 1600 * (n * n * (n - 1))
}

/// How many of the last six sample pairs two apart are equal.
pub open spec fn period2_count(s: Seq<u16>, k: int) -> int
    decreases k,
{
    let n = s.len() as int;
    if k <= 0 {
        0
    } else {
        period2_count(s, k - 1) + if s[n - k] == s[n - k - 2] {
            1int
        } else {
            0int
        }
    }
}

/// The last ten samples collapse to a single value.
pub open spec fn constant10(s: Seq<u16>) -> bool {
    forall|j: int| s.len() - 10 <= j < s.len() ==> #[trigger] s[j] == s[s.len() - 1]
}

/// A perfectly periodic signal: period-2 alternation over the last eight
/// samples, or ten samples of one constant value.
pub open spec fn periodic(s: Seq<u16>) -> bool {
    s.len() >= 10 && (period2_count(s, 6) >= 5 || constant10(s))
}

/// High heart rate with essentially no motion: average heart rate above 130
/// while average motion stays below 0.05 g, both over ten or more samples.
pub open spec fn hr_motion_mismatch(h: Seq<u16>, m: Seq<u64>) -> bool {
    h.len() >= 10 && m.len() >= 10 && sum16(h) > 130 * h.len() && sum64(m) < 50000 * m.len()
}

/// Motion magnitude too constant for a real accelerometer: SDNN under
/// 0.001 g while the average motion is above 0.01 g.
pub open spec fn constant_motion(h: Seq<u16>, m: Seq<u64>) -> bool {
    let n = m.len() as int;
    h.len() >= 10 && m.len() >= 10 && sq_dev64(m) < 1000000 * (n * n * (n - 1)) && sum64(m)
        > 10000 * n
}

/// One multiplicative confidence step: scale by `num / 10` if the flag is
/// set.
pub open spec fn step(c: int, flag: bool, num: int) -> int {
    if flag {
        c * num / 10
    } else {
        c
    }
}

/// The confidence score in micro-units, starting from one and shrunk by each
/// anomaly in turn.
pub open spec fn confidence_spec(temp_out: bool, h: Seq<u16>, m: Seq<u64>) -> int {
    step(
        step(
            step(
                step(step(step(1000000, temp_out, 3), low_hrv(h), 2), high_hrv(h), 4),
                periodic(h),
                3,
            ),
            hr_motion_mismatch(h, m),
            5,
        ),
        constant_motion(h, m),
        4,
    )
}

/// A temperature outside the plausible human range of 33 to 42 Celsius.
pub open spec fn temp_outside(temp_milli: int) -> bool {
    temp_milli < 33000 || temp_milli > 42000
}

/// The bytes hashed into per-sample entropy: heart rate, motion magnitude,
/// reported SDNN and a time salt, each as eight little-endian bytes.
pub open spec fn entropy_preimage(hr: u16, mag: u64, sdnn: u64, salt: u64) -> Seq<u8> {
    le_bytes(hr as nat, 8) + le_bytes(mag as nat, 8) + le_bytes(sdnn as nat, 8) + le_bytes(
        salt as nat,
        8,
    )
}

/// Result of biometric validation; scores in micro-units.
pub struct BiometricResult {
    /// Whether the heartbeat is accepted as plausibly human.
    pub is_valid: bool,
    /// Confidence in micro-units, between 0 and `SCALE`.
    pub confidence: u64,
    /// A short reason when any anomaly fired.
    pub reason: Option<String>,
    /// 32 bytes of entropy extracted from the sample.
    pub entropy_bits: Vec<u8>,
    /// The reported SDNN in micro-BPM (0 with fewer than five samples).
    pub hrv_sdnn: u64,
}

/// Per-device anomaly detector with bounded history.
pub struct BiometricValidator {
    /// One entry per known device; keys are unique.
    pub histories: Vec<DeviceHistory>,
}

/// Whether some entry carries this key.
pub open spec fn hist_has(v: Seq<DeviceHistory>, pk: Seq<char>) -> bool {
    exists|i: int| 0 <= i < v.len() && #[trigger] v[i].pubkey@ == pk
}

/// The index of the entry with this key.
pub open spec fn hist_at(v: Seq<DeviceHistory>, pk: Seq<char>) -> int {
    choose|i: int| 0 <= i < v.len() && #[trigger] v[i].pubkey@ == pk
}

/// The heart-rate samples recorded for a key, empty if the key is new.
pub open spec fn hr_of(v: Seq<DeviceHistory>, pk: Seq<char>) -> Seq<u16> {
    if hist_has(v, pk) {
        v[hist_at(v, pk)].hr@
    } else {
        Seq::empty()
    }
}

/// The motion samples recorded for a key, empty if the key is new.
pub open spec fn motion_of(v: Seq<DeviceHistory>, pk: Seq<char>) -> Seq<u64> {
    if hist_has(v, pk) {
        v[hist_at(v, pk)].motion@
    } else {
        Seq::empty()
    }
}

/// Entry keys are pairwise distinct.
pub open spec fn hist_unique(v: Seq<DeviceHistory>) -> bool {
    forall|i: int, j: int|
        0 <= i < j < v.len() ==> #[trigger] v[i].pubkey@ != #[trigger] v[j].pubkey@
}

impl BiometricValidator {
    /// Histories are well-formed and keyed uniquely.
    pub open spec fn wf(&self) -> bool {
        hist_unique(self.histories@) && forall|i: int|
            0 <= i < self.histories@.len() ==> #[trigger] self.histories@[i].wf()
    }

    /// A fresh validator with no history.
    pub fn new() -> (r: BiometricValidator)
        ensures
            r.wf(),
            r.histories@.len() == 0,
    {
        BiometricValidator { histories: Vec::new() }
    }
}


/// Whether some string in `keys` reads `pk`.
pub open spec fn key_in(keys: Seq<String>, pk: Seq<char>) -> bool {
    exists|i: int| 0 <= i < keys.len() && #[trigger] keys[i]@ == pk
}

/// Replacing the entry at `i` with one of the same key changes exactly that
/// key's samples.
proof fn lemma_hist_update(v: Seq<DeviceHistory>, i: int, e: DeviceHistory)
    requires
        0 <= i < v.len(),
        hist_unique(v),
        e.pubkey@ == v[i].pubkey@,
    ensures
        hist_unique(v.update(i, e)),
        hist_has(v.update(i, e), e.pubkey@),
        hr_of(v.update(i, e), e.pubkey@) == e.hr@,
        motion_of(v.update(i, e), e.pubkey@) == e.motion@,
        forall|pk: Seq<char>|
            pk != e.pubkey@ ==> #[trigger] hist_has(v.update(i, e), pk) == hist_has(v, pk),
        forall|pk: Seq<char>|
            pk != e.pubkey@ ==> #[trigger] hr_of(v.update(i, e), pk) == hr_of(v, pk),
        forall|pk: Seq<char>|
            pk != e.pubkey@ ==> #[trigger] motion_of(v.update(i, e), pk) == motion_of(v, pk),
{
    let w = v.update(i, e);
    assert(w[i].pubkey@ == e.pubkey@);
    assert forall|a: int, b: int| 0 <= a < b < w.len() implies #[trigger] w[a].pubkey@
        != #[trigger] w[b].pubkey@ by {
        assert(v[a].pubkey@ != v[b].pubkey@);
        if a != i && b != i {
            assert(w[a] == v[a] && w[b] == v[b]);
        }
    }
    assert(hist_has(w, e.pubkey@));
    let j = hist_at(w, e.pubkey@);
    if j != i {
        assert(w[j] == v[j]);
        assert(v[j].pubkey@ == v[i].pubkey@);
        assert(false);
    }
    assert forall|pk: Seq<char>| pk != e.pubkey@ implies #[trigger] hist_has(w, pk) == hist_has(
        v,
        pk,
    ) by {
        if hist_has(v, pk) {
            let k = hist_at(v, pk);
            assert(k != i);
            assert(w[k] == v[k]);
            assert(hist_has(w, pk));
        }
        if hist_has(w, pk) {
            let k = hist_at(w, pk);
            assert(k != i);
            assert(w[k] == v[k]);
            assert(hist_has(v, pk));
        }
    }
    assert forall|pk: Seq<char>| pk != e.pubkey@ implies #[trigger] hr_of(w, pk) == hr_of(v, pk)
        && #[trigger] motion_of(w, pk) == motion_of(v, pk) by {
        if hist_has(v, pk) {
            let k = hist_at(v, pk);
            assert(v[k].pubkey@ == pk);
            assert(k != i);
            assert(w[k] == v[k]);
            assert(hist_has(w, pk));
            let k2 = hist_at(w, pk);
            assert(w[k2].pubkey@ == pk);
            assert(k2 != i);
            assert(w[k2] == v[k2]);
            if k != k2 {
                assert(v[k].pubkey@ == v[k2].pubkey@);
                assert(false);
            }
        }
    }
}

/// Appending an entry under a fresh key leaves every other key's samples
/// unchanged and binds the new key to the new entry.
proof fn lemma_hist_push(v: Seq<DeviceHistory>, e: DeviceHistory)
    requires
        hist_unique(v),
        !hist_has(v, e.pubkey@),
    ensures
        hist_unique(v.push(e)),
        hist_has(v.push(e), e.pubkey@),
        hr_of(v.push(e), e.pubkey@) == e.hr@,
        motion_of(v.push(e), e.pubkey@) == e.motion@,
        forall|pk: Seq<char>|
            pk != e.pubkey@ ==> #[trigger] hist_has(v.push(e), pk) == hist_has(v, pk),
        forall|pk: Seq<char>|
            pk != e.pubkey@ ==> #[trigger] hr_of(v.push(e), pk) == hr_of(v, pk),
        forall|pk: Seq<char>|
            pk != e.pubkey@ ==> #[trigger] motion_of(v.push(e), pk) == motion_of(v, pk),
{
    let w = v.push(e);
    let n = v.len() as int;
    assert forall|a: int, b: int| 0 <= a < b < w.len() implies #[trigger] w[a].pubkey@
        != #[trigger] w[b].pubkey@ by {
        if b < n {
            assert(v[a].pubkey@ != v[b].pubkey@);
        } else {
            assert(w[b] == e);
            assert(w[a] == v[a]);
            if v[a].pubkey@ == e.pubkey@ {
                assert(hist_has(v, e.pubkey@));
            }
        }
    }
    assert(w[n].pubkey@ == e.pubkey@);
    assert(hist_has(w, e.pubkey@));
    let j = hist_at(w, e.pubkey@);
    if j != n {
        assert(w[j] == v[j]);
        assert(hist_has(v, e.pubkey@));
        assert(false);
    }
    assert forall|pk: Seq<char>| pk != e.pubkey@ implies #[trigger] hist_has(w, pk) == hist_has(
        v,
        pk,
    ) by {
        if hist_has(v, pk) {
            let k = hist_at(v, pk);
            assert(w[k] == v[k]);
            assert(hist_has(w, pk));
        }
        if hist_has(w, pk) {
            let k = hist_at(w, pk);
            if k < n {
                assert(w[k] == v[k]);
                assert(hist_has(v, pk));
            } else {
                assert(w[k] == e);
                assert(false);
            }
        }
    }
    assert forall|pk: Seq<char>| pk != e.pubkey@ implies #[trigger] hr_of(w, pk) == hr_of(v, pk)
        && #[trigger] motion_of(w, pk) == motion_of(v, pk) by {
        if hist_has(v, pk) {
            let k = hist_at(v, pk);
            assert(v[k].pubkey@ == pk);
            assert(w[k] == v[k]);
            assert(hist_has(w, pk));
            let k2 = hist_at(w, pk);
            assert(w[k2].pubkey@ == pk);
            assert(k2 != n);
            assert(w[k2] == v[k2]);
            if k != k2 {
                assert(v[k].pubkey@ == v[k2].pubkey@);
                assert(false);
            }
        }
    }
}

/// Sum of heart-rate samples, exactly.
fn hr_sum(v: &Vec<u16>) -> (s: u64)
    requires
        v@.len() <= MAX_HISTORY,
        forall|i: int| 0 <= i < v@.len() ==> #[trigger] v@[i] <= 220,
    ensures
        s as int == sum16(v@),
        s <= 220 * v@.len(),
{
    let mut s: u64 = 0;
    for i in 0..v.len()
        invariant
            s as int == sum16(v@.take(i as int)),
            s <= 220 * i,
            v@.len() <= MAX_HISTORY,
            forall|k: int| 0 <= k < v@.len() ==> #[trigger] v@[k] <= 220,
    {
        proof {
            assert(v@.take(i + 1).drop_last() =~= v@.take(i as int));
            assert(v@.take(i + 1).last() == v@[i as int]);
        }
        s = s + v[i] as u64;
    }
    proof {
        assert(v@.take(v@.len() as int) =~= v@);
    }
    s
}

/// Sum of motion samples, exactly.
fn motion_sum(v: &Vec<u64>) -> (s: u64)
    requires
        v@.len() <= MAX_HISTORY,
        forall|i: int| 0 <= i < v@.len() ==> #[trigger] v@[i] <= MOTION_CAP,
    ensures
        s as int == sum64(v@),
        s <= MOTION_CAP * v@.len(),
{
    let mut s: u64 = 0;
    for i in 0..v.len()
        invariant
            s as int == sum64(v@.take(i as int)),
            s <= MOTION_CAP * i,
            v@.len() <= MAX_HISTORY,
            forall|k: int| 0 <= k < v@.len() ==> #[trigger] v@[k] <= MOTION_CAP,
    {
        proof {
            assert(v@.take(i + 1).drop_last() =~= v@.take(i as int));
            assert(v@.take(i + 1).last() == v@[i as int]);
        }
        s = s + v[i];
    }
    proof {
        assert(v@.take(v@.len() as int) =~= v@);
    }
    s
}

/// The scaled squared-deviation sum of the heart-rate samples, exactly.
fn hr_sq_dev(v: &Vec<u16>, sum: u64) -> (d: u64)
    requires
        v@.len() <= MAX_HISTORY,
        forall|i: int| 0 <= i < v@.len() ==> #[trigger] v@[i] <= 220,
        sum as int == sum16(v@),
        sum <= 220 * v@.len(),
    ensures
        d as int == sq_dev16(v@),
{
    let n: u64 = v.len() as u64;
    let mut d: u64 = 0;
    for i in 0..v.len()
        invariant
            n == v@.len(),
            d as int == sq_dev16_upto(v@, i as int),
            d <= i * 174240000,
            sum as int == sum16(v@),
            sum <= 220 * v@.len(),
            v@.len() <= MAX_HISTORY,
            forall|k: int| 0 <= k < v@.len() ==> #[trigger] v@[k] <= 220,
    {
        proof {
            vstd::arithmetic::mul::lemma_mul_upper_bound(
                v@.len() as int,
                60,
                v@[i as int] as int,
                220,
            );
            vstd::arithmetic::mul::lemma_mul_nonnegative(v@.len() as int, v@[i as int] as int);
        }
        let term: i64 = (n * v[i] as u64) as i64 - sum as i64;
        proof {
            assert(-13200 <= term as int && term as int <= 13200);
            assert(0 <= term as int * term as int && term as int * term as int <= 174240000)
                by (nonlinear_arith)
                requires
                    -13200 <= term as int && term as int <= 13200,
            ;
            assert(sq(v@.len() * v@[i as int] - sum16(v@)) == term as int * term as int);
        }
        d = d + (term * term) as u64;
    }
    d
}

/// The scaled squared-deviation sum of the motion samples, exactly.
fn motion_sq_dev(v: &Vec<u64>, sum: u64) -> (d: u128)
    requires
        v@.len() <= MAX_HISTORY,
        forall|i: int| 0 <= i < v@.len() ==> #[trigger] v@[i] <= MOTION_CAP,
        sum as int == sum64(v@),
        sum <= MOTION_CAP * v@.len(),
    ensures
        d as int == sq_dev64(v@),
{
    let n: u64 = v.len() as u64;
    let mut d: u128 = 0;
    for i in 0..v.len()
        invariant
            n == v@.len(),
            d as int == sq_dev64_upto(v@, i as int),
            d <= (i as u128) * 360000000000000000u128,
            sum as int == sum64(v@),
            sum <= MOTION_CAP * v@.len(),
            v@.len() <= MAX_HISTORY,
            forall|k: int| 0 <= k < v@.len() ==> #[trigger] v@[k] <= MOTION_CAP,
    {
        proof {
            vstd::arithmetic::mul::lemma_mul_upper_bound(
                v@.len() as int,
                60,
                v@[i as int] as int,
                MOTION_CAP as int,
            );
            vstd::arithmetic::mul::lemma_mul_nonnegative(v@.len() as int, v@[i as int] as int);
        }
        let term: i64 = (n as i128 * v[i] as i128 - sum as i128) as i64;
        proof {
            assert(-600000000 <= term as int && term as int <= 600000000);
            assert(0 <= term as int * term as int && term as int * term as int
                <= 360000000000000000) by (nonlinear_arith)
                requires
                    -600000000 <= term as int && term as int <= 600000000,
            ;
            assert(sq(v@.len() * v@[i as int] - sum64(v@)) == term as int * term as int);
        }
        d = d + (term as i128 * term as i128) as u128;
    }
    d
}

/// Count the equal sample pairs two apart among the last eight samples.
fn period2(v: &Vec<u16>) -> (c: u64)
    requires
        v@.len() >= 8,
    ensures
        c as int == period2_count(v@, 6),
{
    let n: usize = v.len();
    let mut c: u64 = 0;
    let mut k: usize = 0;
    while k < 6
        invariant
            n == v@.len(),
            8 <= n,
            k <= 6,
            c as int == period2_count(v@, k as int),
            c <= k,
        decreases 6 - k,
    {
        k = k + 1;
        if v[n - k] == v[n - k - 2] {
            c = c + 1;
        }
    }
    c
}

/// Do the last ten samples collapse to one value?
fn is_constant10(v: &Vec<u16>) -> (r: bool)
    requires
        v@.len() >= 10,
    ensures
        r == constant10(v@),
{
    let n: usize = v.len();
    let last: u16 = v[n - 1];
    let mut j: usize = n - 10;
    while j < n
        invariant
            n == v@.len(),
            10 <= n,
            n - 10 <= j <= n,
            last == v@[n - 1],
            forall|t: int| n - 10 <= t < j ==> #[trigger] v@[t] == v@[n - 1],
        decreases n - j,
    {
        if v[j] != last {
            return false;
        }
        j = j + 1;
    }
    true
}


/// The reported SDNN in micro-BPM: the square root of
/// `sq_dev * 10^12 / (n^2 (n-1))`, computed as an integer.
pub open spec fn sdnn_micro_spec(s: Seq<u16>) -> int {
    if s.len() >= 2 {
        isqrt_spec(sq_dev16(s) * 1000000000000 / (s.len() - 1) as int) / s.len() as int
    } else {
        0
    }
}

/// Compute the SDNN of the heart-rate samples in micro-BPM.
fn hr_sdnn_micro(v: &Vec<u16>, sqdev: u64) -> (r: u64)
    requires
        2 <= v@.len() <= MAX_HISTORY,
        sqdev as int == sq_dev16(v@),
        sqdev <= 10454400000,
    ensures
        r as int == sdnn_micro_spec(v@),
{
    let q: u128 = sqdev as u128 * 1000000000000u128 / (v.len() as u128 - 1);
    let root: u64 = crate::num::isqrt_exact(q);
    root / (v.len() as u64)
}

/// Append the two little-endian bytes of a heart-rate sample.
fn push_le_u16(out: &mut Vec<u8>, v: u16)
    ensures
        final(out)@ == old(out)@ + le_bytes(v as nat, 2),
{
    out.push((v % 256) as u8);
    out.push((v / 256) as u8);
    proof {
        assert(le_bytes((v as nat) / 256 / 256, 0) =~= Seq::<u8>::empty());
        assert(le_bytes((v as nat) / 256, 1) =~= seq![((v as nat / 256) % 256) as u8]);
        assert(out@ =~= old(out)@ + le_bytes(v as nat, 2));
    }
}

/// The entropy bytes of one sample: four fields, eight little-endian bytes
/// each.
fn entropy_bytes(hr: u16, mag: u64, sdnn: u64, salt: u64) -> (r: Vec<u8>)
    ensures
        r@ == sha256_of(entropy_preimage(hr, mag, sdnn, salt)),
        r@.len() == 32,
{
    let mut buf: Vec<u8> = Vec::new();
    push_le_u64(&mut buf, hr as u64);
    push_le_u64(&mut buf, mag);
    push_le_u64(&mut buf, sdnn);
    push_le_u64(&mut buf, salt);
    proof {
        assert(le_bytes(hr as u64 as nat, 8) == le_bytes(hr as nat, 8));
        assert(buf@ =~= entropy_preimage(hr, mag, sdnn, salt));
    }
    sha256(buf.as_slice())
}

/// The bytes of all heart-rate samples, two little-endian bytes each.
pub open spec fn samples16_bytes(s: Seq<u16>) -> Seq<u8>
    decreases s.len(),
{
    if s.len() == 0 {
        Seq::empty()
    } else {
        samples16_bytes(s.drop_last()) + le_bytes(s.last() as nat, 2)
    }
}

/// The bytes of all motion samples, eight little-endian bytes each.
pub open spec fn samples64_bytes(s: Seq<u64>) -> Seq<u8>
    decreases s.len(),
{
    if s.len() == 0 {
        Seq::empty()
    } else {
        samples64_bytes(s.drop_last()) + le_bytes(s.last() as nat, 8)
    }
}

/// The heart-rate part of the aggregate entropy preimage: for each device
/// its key's bytes, then its samples.
pub open spec fn hr_section(v: Seq<DeviceHistory>) -> Seq<u8>
    decreases v.len(),
{
    if v.len() == 0 {
        Seq::empty()
    } else {
        hr_section(v.drop_last()) + utf8(v.last().pubkey@) + samples16_bytes(v.last().hr@)
    }
}

/// The motion part of the aggregate entropy preimage.
pub open spec fn motion_section(v: Seq<DeviceHistory>) -> Seq<u8>
    decreases v.len(),
{
    if v.len() == 0 {
        Seq::empty()
    } else {
        motion_section(v.drop_last()) + utf8(v.last().pubkey@) + samples64_bytes(v.last().motion@)
    }
}

/// Whether a history sequence differs from another only at one key.
impl BiometricValidator {
    /// Find the entry index for a device key.
    fn find(&self, pk: &String) -> (r: Option<usize>)
        ensures
            match r {
                Some(i) => i < self.histories@.len() && self.histories@[i as int].pubkey@ == pk@,
                None => !hist_has(self.histories@, pk@),
            },
    {
        for i in 0..self.histories.len()
            invariant
                forall|j: int| 0 <= j < i ==> #[trigger] self.histories@[j].pubkey@ != pk@,
        {
            if self.histories[i].pubkey == *pk {
                return Some(i);
            }
        }
        None
    }

    /// Record one sample for a device, appending and trimming its bounded
    /// history; every other device's history is untouched.
    fn touch(&mut self, pk: &String, hr: u16, mag: u64) -> (idx: usize)
        requires
            old(self).wf(),
            30 <= hr <= 220,
            mag <= MOTION_CAP,
        ensures
            final(self).wf(),
            idx < final(self).histories@.len(),
            final(self).histories@[idx as int].pubkey@ == pk@,
            hist_has(final(self).histories@, pk@),
            hr_of(final(self).histories@, pk@) == push_trim16(
                hr_of(old(self).histories@, pk@),
                hr,
            ),
            motion_of(final(self).histories@, pk@) == push_trim64(
                motion_of(old(self).histories@, pk@),
                mag,
            ),
            final(self).histories@[idx as int].hr@ == hr_of(final(self).histories@, pk@),
            final(self).histories@[idx as int].motion@ == motion_of(final(self).histories@, pk@),
            forall|pk2: Seq<char>|
                pk2 != pk@ ==> #[trigger] hist_has(final(self).histories@, pk2) == hist_has(
                    old(self).histories@,
                    pk2,
                ),
            forall|pk2: Seq<char>|
                pk2 != pk@ ==> #[trigger] hr_of(final(self).histories@, pk2) == hr_of(
                    old(self).histories@,
                    pk2,
                ),
            forall|pk2: Seq<char>|
                pk2 != pk@ ==> #[trigger] motion_of(final(self).histories@, pk2) == motion_of(
                    old(self).histories@,
                    pk2,
                ),
    {
        let found = self.find(pk);
        match found {
            Some(i) => {
                proof {
                    assert(hist_has(self.histories@, pk@));
                    let k = hist_at(self.histories@, pk@);
                    if k != i as int {
                        assert(self.histories@[k].pubkey@ == self.histories@[i as int].pubkey@);
                        assert(false);
                    }
                }
                let ghost orig = self.histories@;
                let mut e = self.histories.remove(i);
                e.hr.push(hr);
                if e.hr.len() > MAX_HISTORY {
                    e.hr.remove(0);
                    proof {
                        assert(e.hr@ =~= push_trim16(orig[i as int].hr@, hr));
                    }
                }
                proof {
                    assert(e.hr@ =~= push_trim16(orig[i as int].hr@, hr));
                }
                e.motion.push(mag);
                if e.motion.len() > MAX_HISTORY {
                    e.motion.remove(0);
                    proof {
                        assert(e.motion@ =~= push_trim64(orig[i as int].motion@, mag));
                    }
                }
                proof {
                    assert(e.motion@ =~= push_trim64(orig[i as int].motion@, mag));
                }
                let ghost efinal = e;
                self.histories.insert(i, e);
                proof {
                    assert(orig[i as int].wf());
                    assert(efinal.wf()) by {
                        let s0 = orig[i as int].hr@;
                        let t = s0.push(hr);
                        assert(forall|t0: int|
                            0 <= t0 < t.len() ==> 30 <= #[trigger] t[t0] && t[t0] <= 220);
                        let m0 = orig[i as int].motion@;
                        let tm = m0.push(mag);
                        assert(forall|t0: int|
                            0 <= t0 < tm.len() ==> #[trigger] tm[t0] <= MOTION_CAP);
                    }
                    assert(self.histories@ =~= orig.update(i as int, efinal));
                    lemma_hist_update(orig, i as int, efinal);
                    assert forall|j: int|
                        0 <= j < self.histories@.len() implies #[trigger] self.histories@[j].wf()
                        by {
                        if j != i as int {
                            assert(self.histories@[j] == orig[j]);
                            assert(orig[j].wf());
                        }
                    }
                }
                i
            },
            None => {
                let mut hr_v: Vec<u16> = Vec::new();
                hr_v.push(hr);
                let mut motion_v: Vec<u64> = Vec::new();
                motion_v.push(mag);
                let e = DeviceHistory { pubkey: pk.clone(), hr: hr_v, motion: motion_v };
                let ghost orig = self.histories@;
                let ghost efinal = e;
                let idx = self.histories.len();
                self.histories.push(e);
                proof {
                    lemma_hist_push(orig, efinal);
                    assert(efinal.hr@ =~= push_trim16(hr_of(orig, pk@), hr));
                    assert(efinal.motion@ =~= push_trim64(motion_of(orig, pk@), mag));
                }
                idx
            },
        }
    }
}


/// Is some key of `keys` equal to `pk`?
fn key_member(keys: &Vec<String>, pk: &String) -> (r: bool)
    ensures
        r == key_in(keys@, pk@),
{
    for i in 0..keys.len()
        invariant
            forall|j: int| 0 <= j < i ==> #[trigger] keys@[j]@ != pk@,
    {
        if keys[i] == *pk {
            return true;
        }
    }
    false
}

impl BiometricValidator {
    /// Validate one heartbeat sample against the device's history and
    /// extract per-sample entropy.
    ///
    /// A heart rate outside physiological bounds is rejected outright and
    /// recorded nowhere.  Otherwise the sample is appended to the device's
    /// bounded history and the confidence score is exactly
    /// `confidence_spec` over the updated history; the heartbeat passes when
    /// the score reaches 0.3.  The salt mixes the caller's clock into the
    /// entropy digest.
    pub fn validate(
        &mut self,
        device_pubkey: &String,
        heart_rate: u16,
        motion_magnitude: u64,
        temperature: i32,
        salt: u64,
    ) -> (r: BiometricResult)
        requires
            old(self).wf(),
        ensures
            final(self).wf(),
            !(30 <= heart_rate <= 220) ==> final(self).histories@ == old(self).histories@
                && r.is_valid == false && r.confidence == 0 && r.entropy_bits@.len() == 0
                && r.hrv_sdnn == 0 && r.reason is Some,
            30 <= heart_rate <= 220 ==> {
                let mag = if motion_magnitude > MOTION_CAP {
                    MOTION_CAP as u64
                } else {
                    motion_magnitude
                };
                let h = push_trim16(hr_of(old(self).histories@, device_pubkey@), heart_rate);
                let m = push_trim64(motion_of(old(self).histories@, device_pubkey@), mag);
                &&& hr_of(final(self).histories@, device_pubkey@) == h
                &&& motion_of(final(self).histories@, device_pubkey@) == m
                &&& r.confidence as int == confidence_spec(
                    temp_outside(temperature as int),
                    h,
                    m,
                )
                &&& r.is_valid == (r.confidence >= 300000)
                &&& r.hrv_sdnn as int == (if h.len() >= 5 {
                    sdnn_micro_spec(h)
                } else {
                    0
                })
                &&& r.entropy_bits@ == sha256_of(
                    entropy_preimage(heart_rate, mag, r.hrv_sdnn, salt),
                )
                &&& (r.reason is Some <==> (temp_outside(temperature as int) || low_hrv(h)
                    || high_hrv(h) || periodic(h) || hr_motion_mismatch(h, m) || constant_motion(
                    h,
                    m,
                )))
            },
            forall|pk2: Seq<char>|
                pk2 != device_pubkey@ ==> #[trigger] hist_has(final(self).histories@, pk2)
                    == hist_has(old(self).histories@, pk2) && #[trigger] hr_of(
                    final(self).histories@,
                    pk2,
                ) == hr_of(old(self).histories@, pk2) && motion_of(final(self).histories@, pk2)
                    == motion_of(old(self).histories@, pk2),
    {
        if heart_rate < 30 || heart_rate > 220 {
            return BiometricResult {
                is_valid: false,
                confidence: 0,
                reason: Some(String::from_str("heart rate outside physiological bounds")),
                entropy_bits: Vec::new(),
                hrv_sdnn: 0,
            };
        }
        let mag: u64 = if motion_magnitude > MOTION_CAP {
            MOTION_CAP
        } else {
            motion_magnitude
        };
        let idx: usize = self.touch(device_pubkey, heart_rate, mag);
        let ghost h = hr_of(self.histories@, device_pubkey@);
        let ghost m = motion_of(self.histories@, device_pubkey@);
        let n: usize = self.histories[idx].hr.len();
        let mn: usize = self.histories[idx].motion.len();
        proof {
            assert(self.histories@[idx as int].wf());
        }
        let hsum: u64 = hr_sum(&self.histories[idx].hr);
        let hdev: u64 = hr_sq_dev(&self.histories[idx].hr, hsum);
        let msum: u64 = motion_sum(&self.histories[idx].motion);
        let mdev: u128 = motion_sq_dev(&self.histories[idx].motion, msum);
        proof {
            assert(n <= 60);
            assert(hdev as int == sq_dev16(h));
            assert(hdev <= 60 * 174240000) by {
                lemma_sq_dev16_bound(h);
            }
        }
        let sdnn: u64 = if n >= 5 {
            hr_sdnn_micro(&self.histories[idx].hr, hdev)
        } else {
            0
        };

        let nn: u64 = n as u64;
        let mnn: u64 = mn as u64;
        let temp_out: bool = temperature < 33000 || temperature > 42000;
        let mut low: bool = false;
        let mut high: bool = false;
        let mut per: bool = false;
        if n >= 10 {
            proof {
                vstd::arithmetic::mul::lemma_mul_upper_bound(nn as int, 60, nn as int, 60);
                vstd::arithmetic::mul::lemma_mul_upper_bound(
                    (nn * nn) as int,
                    3600,
                    (nn - 1) as int,
                    59,
                );
                vstd::arithmetic::mul::lemma_mul_nonnegative(nn as int, nn as int);
                vstd::arithmetic::mul::lemma_mul_nonnegative((nn * nn) as int, (nn - 1) as int);
            }
            low = 4 * hdev < nn * nn * (nn - 1);
            high = hdev > 1600 * (nn * nn * (nn - 1));
            let p2: u64 = period2(&self.histories[idx].hr);
            let c10: bool = is_constant10(&self.histories[idx].hr);
            per = p2 >= 5 || c10;
        }
        let mut mismatch: bool = false;
        let mut cmotion: bool = false;
        if n >= 10 && mn >= 10 {
            proof {
                vstd::arithmetic::mul::lemma_mul_upper_bound(mnn as int, 60, mnn as int, 60);
                vstd::arithmetic::mul::lemma_mul_upper_bound(
                    (mnn * mnn) as int,
                    3600,
                    (mnn - 1) as int,
                    59,
                );
                vstd::arithmetic::mul::lemma_mul_nonnegative(mnn as int, mnn as int);
                vstd::arithmetic::mul::lemma_mul_nonnegative((mnn * mnn) as int, (mnn - 1) as int);
            }
            mismatch = hsum > 130 * nn && msum < 50000 * mnn;
            cmotion = mdev < 1000000u128 * ((mnn * mnn * (mnn - 1)) as u128) && msum > 10000 * mnn;
        }
        proof {
            assert(low == low_hrv(h));
            assert(high == high_hrv(h));
            assert(per == periodic(h));
            assert(mismatch == hr_motion_mismatch(h, m));
            assert(cmotion == constant_motion(h, m));
        }

        let mut confidence: u64 = 1000000;
        if temp_out {
            confidence = confidence * 3 / 10;
        }
        if low {
            confidence = confidence * 2 / 10;
        }
        if high {
            confidence = confidence * 4 / 10;
        }
        if per {
            confidence = confidence * 3 / 10;
        }
        if mismatch {
            confidence = confidence * 5 / 10;
        }
        if cmotion {
            confidence = confidence * 4 / 10;
        }

        let reason: Option<String> = if low {
            Some(String::from_str("heart-rate variability too low: possible synthetic signal"))
        } else if high {
            Some(String::from_str("heart-rate variability too high: possible random noise"))
        } else if per {
            Some(String::from_str("heart rate shows a periodic pattern"))
        } else if temp_out {
            Some(String::from_str("temperature outside the plausible human range"))
        } else if mismatch {
            Some(String::from_str("high heart rate with no motion"))
        } else if cmotion {
            Some(String::from_str("motion magnitude too constant"))
        } else {
            None
        };

        let entropy_bits: Vec<u8> = entropy_bytes(heart_rate, mag, sdnn, salt);
        BiometricResult { is_valid: confidence >= 300000, confidence, reason, entropy_bits, hrv_sdnn: sdnn }
    }

    /// Evict the histories of every device that is not in the active set.
    pub fn cleanup(&mut self, active_pubkeys: &Vec<String>)
        requires
            old(self).wf(),
        ensures
            final(self).wf(),
            forall|pk: Seq<char>|
                #[trigger] hist_has(final(self).histories@, pk) ==> hist_has(
                    old(self).histories@,
                    pk,
                ) && key_in(active_pubkeys@, pk),
            forall|pk: Seq<char>|
                hist_has(old(self).histories@, pk) && key_in(active_pubkeys@, pk)
                    ==> #[trigger] hist_has(final(self).histories@, pk) && hr_of(
                    final(self).histories@,
                    pk,
                ) == hr_of(old(self).histories@, pk) && motion_of(final(self).histories@, pk)
                    == motion_of(old(self).histories@, pk),
    {
        let ghost orig = self.histories@;
        let mut kept: Vec<DeviceHistory> = Vec::new();
        proof {
            assert(self.histories@ =~= orig.take(self.histories@.len() as int));
        }
        while self.histories.len() > 0
            invariant
                hist_unique(orig),
                forall|j: int| 0 <= j < orig.len() ==> #[trigger] orig[j].wf(),
                self.histories@ == orig.take(self.histories@.len() as int),
                hist_unique(kept@),
                forall|j: int| 0 <= j < kept@.len() ==> #[trigger] kept@[j].wf(),
                forall|pk: Seq<char>|
                    #[trigger] hist_has(kept@, pk) ==> key_in(active_pubkeys@, pk) && hist_has(
                        orig,
                        pk,
                    ) && hr_of(kept@, pk) == hr_of(orig, pk) && motion_of(kept@, pk) == motion_of(
                        orig,
                        pk,
                    ),
                forall|pk: Seq<char>|
                    hist_has(orig, pk) && key_in(active_pubkeys@, pk) && !hist_has(
                        self.histories@,
                        pk,
                    ) ==> #[trigger] hist_has(kept@, pk),
                forall|pk: Seq<char>|
                    #[trigger] hist_has(kept@, pk) ==> !hist_has(self.histories@, pk),
                self.histories@.len() <= orig.len(),
            decreases self.histories@.len(),
        {
            let ghost pre = self.histories@;
            let popped = self.histories.pop();
            let e = match popped {
                Some(e) => e,
                None => {
                    proof {
                        assert(false);
                    }
                    continue ;
                },
            };
            let ghost l = pre.len() as int - 1;
            proof {
                assert(pre == orig.take(l + 1));
                assert(e == orig[l]);
                assert(self.histories@ =~= orig.take(l));
                assert(orig[l].wf());
            }
            let keep = key_member(active_pubkeys, &e.pubkey);
            if keep {
                proof {
                    assert(hist_has(pre, e.pubkey@)) by {
                        assert(pre[l].pubkey@ == e.pubkey@);
                    }
                    assert(!hist_has(kept@, e.pubkey@));
                    lemma_hist_push(kept@, e);
                    assert(hist_has(orig, e.pubkey@)) by {
                        assert(orig[l].pubkey@ == e.pubkey@);
                    }
                    let k = hist_at(orig, e.pubkey@);
                    if k != l {
                        assert(orig[k].pubkey@ == orig[l].pubkey@);
                        assert(false);
                    }
                    assert(hr_of(orig, e.pubkey@) == e.hr@);
                    assert(motion_of(orig, e.pubkey@) == e.motion@);
                }
                let ghost keptpre = kept@;
                let ghost epush = e;
                kept.push(e);
                proof {
                    assert(kept@ == keptpre.push(epush));
                    assert forall|pk: Seq<char>| #[trigger] hist_has(kept@, pk) implies !hist_has(
                        self.histories@,
                        pk,
                    ) by {
                        if pk == epush.pubkey@ {
                            if hist_has(self.histories@, pk) {
                                let t = hist_at(self.histories@, pk);
                                assert(self.histories@[t] == orig[t]);
                                assert(orig[t].pubkey@ == orig[l].pubkey@);
                                assert(false);
                            }
                        } else {
                            assert(hist_has(keptpre, pk));
                            if hist_has(self.histories@, pk) {
                                let t = hist_at(self.histories@, pk);
                                assert(pre[t] == self.histories@[t]);
                                assert(hist_has(pre, pk));
                            }
                        }
                    }
                }
            } else {
                proof {
                    assert forall|pk: Seq<char>|
                        hist_has(orig, pk) && key_in(active_pubkeys@, pk) && !hist_has(
                            self.histories@,
                            pk,
                        ) implies #[trigger] hist_has(kept@, pk) by {
                        if !hist_has(pre, pk) {
                        } else {
                            let t = hist_at(pre, pk);
                            if t < l {
                                assert(self.histories@[t] == pre[t]);
                                assert(hist_has(self.histories@, pk));
                            } else {
                                assert(pre[l].pubkey@ == e.pubkey@);
                                assert(pk == e.pubkey@);
                                assert(!key_in(active_pubkeys@, pk));
                            }
                        }
                    }
                    assert forall|pk: Seq<char>| #[trigger] hist_has(kept@, pk) implies !hist_has(
                        self.histories@,
                        pk,
                    ) by {
                        if hist_has(self.histories@, pk) {
                            let t = hist_at(self.histories@, pk);
                            assert(pre[t] == self.histories@[t]);
                            assert(hist_has(pre, pk));
                        }
                    }
                }
            }
        }
        proof {
            assert(self.histories@.len() == 0);
        }
        core::mem::swap(&mut self.histories, &mut kept);
    }

    /// Aggregate the entropy of every tracked device into one 32-byte
    /// digest: all heart-rate histories, then all motion histories, each
    /// prefixed with the device key.
    pub fn aggregate_entropy(&self) -> (r: Vec<u8>)
        requires
            self.wf(),
        ensures
            r@ == sha256_of(hr_section(self.histories@) + motion_section(self.histories@)),
            r@.len() == 32,
    {
        let mut buf: Vec<u8> = Vec::new();
        for i in 0..self.histories.len()
            invariant
                self.wf(),
                buf@ == hr_section(self.histories@.take(i as int)),
        {
            let ghost pre = buf@;
            push_str_bytes(&mut buf, self.histories[i].pubkey.as_str());
            let ghost mid = buf@;
            let hr_len: usize = self.histories[i].hr.len();
            for j in 0..hr_len
                invariant
                    self.wf(),
                    i < self.histories@.len(),
                    hr_len == self.histories@[i as int].hr@.len(),
                    mid == pre + utf8(self.histories@[i as int].pubkey@),
                    buf@ == mid + samples16_bytes(self.histories@[i as int].hr@.take(j as int)),
            {
                push_le_u16(&mut buf, self.histories[i].hr[j]);
                proof {
                    let hseq = self.histories@[i as int].hr@;
                    assert(hseq.take(j + 1).drop_last() =~= hseq.take(j as int));
                    assert(hseq.take(j + 1).last() == hseq[j as int]);
                    assert(buf@ =~= mid + samples16_bytes(hseq.take(j + 1)));
                }
            }
            proof {
                let hseq = self.histories@[i as int].hr@;
                assert(hseq.take(hseq.len() as int) =~= hseq);
                assert(self.histories@.take(i + 1).drop_last() =~= self.histories@.take(i as int));
                assert(self.histories@.take(i + 1).last() == self.histories@[i as int]);
                assert(buf@ =~= hr_section(self.histories@.take(i + 1)));
            }
        }
        proof {
            assert(self.histories@.take(self.histories@.len() as int) =~= self.histories@);
        }
        let ghost hrpart = buf@;
        for i in 0..self.histories.len()
            invariant
                self.wf(),
                hrpart == hr_section(self.histories@),
                buf@ == hrpart + motion_section(self.histories@.take(i as int)),
        {
            let ghost pre = buf@;
            push_str_bytes(&mut buf, self.histories[i].pubkey.as_str());
            let ghost mid = buf@;
            let motion_len: usize = self.histories[i].motion.len();
            for j in 0..motion_len
                invariant
                    self.wf(),
                    i < self.histories@.len(),
                    motion_len == self.histories@[i as int].motion@.len(),
                    mid == pre + utf8(self.histories@[i as int].pubkey@),
                    buf@ == mid + samples64_bytes(
                        self.histories@[i as int].motion@.take(j as int),
                    ),
            {
                push_le_u64(&mut buf, self.histories[i].motion[j]);
                proof {
                    let mseq = self.histories@[i as int].motion@;
                    assert(mseq.take(j + 1).drop_last() =~= mseq.take(j as int));
                    assert(mseq.take(j + 1).last() == mseq[j as int]);
                    assert(buf@ =~= mid + samples64_bytes(mseq.take(j + 1)));
                }
            }
            proof {
                let mseq = self.histories@[i as int].motion@;
                assert(mseq.take(mseq.len() as int) =~= mseq);
                assert(self.histories@.take(i + 1).drop_last() =~= self.histories@.take(i as int));
                assert(self.histories@.take(i + 1).last() == self.histories@[i as int]);
                assert(buf@ =~= hrpart + motion_section(self.histories@.take(i + 1)));
            }
        }
        proof {
            assert(self.histories@.take(self.histories@.len() as int) =~= self.histories@);
        }
        sha256(buf.as_slice())
    }
}

/// The squared-deviation sum of a bounded heart-rate history stays under
/// `60 * 13200^2`.
proof fn lemma_sq_dev16_bound(s: Seq<u16>)
    requires
        s.len() <= MAX_HISTORY,
        forall|i: int| 0 <= i < s.len() ==> 30 <= #[trigger] s[i] && s[i] <= 220,
    ensures
        0 <= sq_dev16(s) <= 60 * 174240000,
{
    lemma_sum16_bound(s);
    lemma_sq_dev16_upto_bound(s, s.len() as int);
}

proof fn lemma_sum16_bound(s: Seq<u16>)
    requires
        s.len() <= MAX_HISTORY,
        forall|i: int| 0 <= i < s.len() ==> 30 <= #[trigger] s[i] && s[i] <= 220,
    ensures
        0 <= sum16(s) <= 220 * s.len(),
    decreases s.len(),
{
    if s.len() > 0 {
        lemma_sum16_bound(s.drop_last());
    }
}

proof fn lemma_sq_dev16_upto_bound(s: Seq<u16>, k: int)
    requires
        s.len() <= MAX_HISTORY,
        forall|i: int| 0 <= i < s.len() ==> 30 <= #[trigger] s[i] && s[i] <= 220,
        0 <= k <= s.len(),
    ensures
        0 <= sq_dev16_upto(s, k) <= k * 174240000,
    decreases k,
{
    if k > 0 {
        lemma_sq_dev16_upto_bound(s, k - 1);
        lemma_sum16_bound(s);
        let d = s.len() * s[k - 1] - sum16(s);
        assert(s.len() * s[k - 1] <= 13200 && 0 <= s.len() * s[k - 1]) by (nonlinear_arith)
            requires
                s.len() <= 60,
                0 <= s[k - 1] <= 220,
        ;
        assert(-13200 <= d && d <= 13200);
        assert(0 <= sq(d) <= 174240000) by (nonlinear_arith)
            requires
                -13200 <= d && d <= 13200,
        ;
        assert(sq_dev16_upto(s, k) <= k * 174240000) by (nonlinear_arith)
            requires
                sq_dev16_upto(s, k) == sq_dev16_upto(s, k - 1) + sq(d),
                sq_dev16_upto(s, k - 1) <= (k - 1) * 174240000,
                sq(d) <= 174240000,
                k >= 1,
        ;
    }
}

} // verus!
