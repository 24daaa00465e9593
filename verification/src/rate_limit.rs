//! A bounded in-memory rate limiter: a counting window per key.

use vstd::prelude::*;

verus! {

/// Limiter configuration.
#[derive(Debug, Clone)]
pub struct RateLimitConfig {
    /// Maximum requests per window.
    pub max_requests: u32,
    /// Window length in milliseconds.
    pub window_ms: u64,
}

impl Default for RateLimitConfig {
    /// Sixty requests per minute.
    fn default() -> (r: RateLimitConfig)
        ensures
            r.max_requests == 60,
            r.window_ms == 60000,
    {
        RateLimitConfig { max_requests: 60, window_ms: 60000 }
    }
}

/// Per-key window state.
pub struct RateEntry {
    /// The rate-limited key, usually a client address.
    pub key: String,
    /// Requests seen in the current window.
    pub count: u32,
    /// When the current window started, milliseconds.
    pub window_start: u64,
}

/// Whether some entry carries this key.
pub open spec fn rl_has(v: Seq<RateEntry>, key: Seq<char>) -> bool {
    exists|i: int| 0 <= i < v.len() && #[trigger] v[i].key@ == key
}

/// The index of the entry with this key.
pub open spec fn rl_at(v: Seq<RateEntry>, key: Seq<char>) -> int {
    choose|i: int| 0 <= i < v.len() && #[trigger] v[i].key@ == key
}

/// Entry keys are pairwise distinct.
pub open spec fn rl_unique(v: Seq<RateEntry>) -> bool {
    forall|i: int, j: int| 0 <= i < j < v.len() ==> #[trigger] v[i].key@ != #[trigger] v[j].key@
}

/// Saturating subtraction as a mathematical value.
pub open spec fn age_of(now_ms: u64, start_ms: u64) -> int {
    if now_ms >= start_ms {
        now_ms - start_ms
    } else {
        0
    }
}

/// The eviction bound: twice the window, saturated.
pub open spec fn cleanup_limit(cfg: RateLimitConfig) -> u64 {
    if cfg.window_ms > u64::MAX / 2 {
        u64::MAX
    } else {
        (2 * cfg.window_ms) as u64
    }
}

/// The count a key shows at `now`: its recorded count, or zero when the key
/// is new or its window has expired.
pub open spec fn effective_count(
    v: Seq<RateEntry>,
    key: Seq<char>,
    now_ms: u64,
    window_ms: u64,
) -> int {
    if rl_has(v, key) && age_of(now_ms, v[rl_at(v, key)].window_start) <= window_ms {
        v[rl_at(v, key)].count as int
    } else {
        0
    }
}

/// A counting-window rate limiter over string keys.
pub struct RateLimiter {
    config: RateLimitConfig,
    entries: Vec<RateEntry>,
}

/// Find an entry index by key.
fn find_entry(entries: &Vec<RateEntry>, key: &String) -> (r: Option<usize>)
    ensures
        match r {
            Some(i) => i < entries@.len() && entries@[i as int].key@ == key@,
            None => !rl_has(entries@, key@),
        },
{
    for i in 0..entries.len()
        invariant
            forall|j: int| 0 <= j < i ==> #[trigger] entries@[j].key@ != key@,
    {
        if entries[i].key == *key {
            return Some(i);
        }
    }
    proof {
        if rl_has(entries@, key@) {
            let k = rl_at(entries@, key@);
            assert(entries@[k].key@ == key@);
            assert(false);
        }
    }
    None
}


/// Replacing the entry at `i` with one of the same key changes exactly that
/// key's entry.
proof fn lemma_rl_update(v: Seq<RateEntry>, i: int, e: RateEntry)
    requires
        0 <= i < v.len(),
        rl_unique(v),
        e.key@ == v[i].key@,
    ensures
        rl_unique(v.update(i, e)),
        rl_has(v.update(i, e), e.key@),
        rl_at(v.update(i, e), e.key@) == i,
        forall|k2: Seq<char>|
            k2 != e.key@ ==> #[trigger] rl_has(v.update(i, e), k2) == rl_has(v, k2),
        forall|k2: Seq<char>|
            k2 != e.key@ && rl_has(v, k2) ==> v.update(i, e)[rl_at(v.update(i, e), k2)] == v[
                #[trigger] rl_at(v, k2)
            ],
{
    let w = v.update(i, e);
    assert(w[i].key@ == e.key@);
    assert forall|a: int, b: int| 0 <= a < b < w.len() implies #[trigger] w[a].key@
        != #[trigger] w[b].key@ by {
        assert(v[a].key@ != v[b].key@);
        if a != i && b != i {
            assert(w[a] == v[a] && w[b] == v[b]);
        }
    }
    assert(rl_has(w, e.key@));
    let j = rl_at(w, e.key@);
    if j != i {
        assert(w[j] == v[j]);
        assert(v[j].key@ == v[i].key@);
        assert(false);
    }
    assert forall|k2: Seq<char>| k2 != e.key@ implies #[trigger] rl_has(w, k2) == rl_has(
        v,
        k2,
    ) by {
        if rl_has(v, k2) {
            let k = rl_at(v, k2);
            assert(v[k].key@ == k2);
            assert(k != i);
            assert(w[k] == v[k]);
            assert(rl_has(w, k2));
        }
        if rl_has(w, k2) {
            let k = rl_at(w, k2);
            assert(k != i);
            assert(w[k] == v[k]);
            assert(rl_has(v, k2));
        }
    }
    assert forall|k2: Seq<char>| k2 != e.key@ && rl_has(v, k2) implies v.update(i, e)[rl_at(
        v.update(i, e),
        k2,
    )] == v[#[trigger] rl_at(v, k2)] by {
        let k = rl_at(v, k2);
        assert(v[k].key@ == k2);
        assert(k != i);
        assert(w[k] == v[k]);
        assert(rl_has(w, k2));
        let k3 = rl_at(w, k2);
        assert(w[k3].key@ == k2);
        assert(k3 != i);
        assert(w[k3] == v[k3]);
        if k != k3 {
            assert(v[k].key@ == v[k3].key@);
            assert(false);
        }
    }
}

/// Appending an entry under a fresh key leaves every other key's entry
/// unchanged.
proof fn lemma_rl_push(v: Seq<RateEntry>, e: RateEntry)
    requires
        rl_unique(v),
        !rl_has(v, e.key@),
    ensures
        rl_unique(v.push(e)),
        rl_has(v.push(e), e.key@),
        rl_at(v.push(e), e.key@) == v.len(),
        forall|k2: Seq<char>| k2 != e.key@ ==> #[trigger] rl_has(v.push(e), k2) == rl_has(v, k2),
        forall|k2: Seq<char>|
            k2 != e.key@ && rl_has(v, k2) ==> v.push(e)[rl_at(v.push(e), k2)] == v[
                #[trigger] rl_at(v, k2)
            ],
{
    let w = v.push(e);
    let n = v.len() as int;
    assert forall|a: int, b: int| 0 <= a < b < w.len() implies #[trigger] w[a].key@
        != #[trigger] w[b].key@ by {
        if b < n {
            assert(v[a].key@ != v[b].key@);
        } else {
            assert(w[b] == e);
            assert(w[a] == v[a]);
            if v[a].key@ == e.key@ {
                assert(rl_has(v, e.key@));
            }
        }
    }
    assert(w[n].key@ == e.key@);
    assert(rl_has(w, e.key@));
    let j = rl_at(w, e.key@);
    if j != n {
        assert(w[j] == v[j]);
        assert(rl_has(v, e.key@));
        assert(false);
    }
    assert forall|k2: Seq<char>| k2 != e.key@ implies #[trigger] rl_has(w, k2) == rl_has(
        v,
        k2,
    ) by {
        if rl_has(v, k2) {
            let k = rl_at(v, k2);
            assert(w[k] == v[k]);
            assert(rl_has(w, k2));
        }
        if rl_has(w, k2) {
            let k = rl_at(w, k2);
            if k < n {
                assert(w[k] == v[k]);
                assert(rl_has(v, k2));
            } else {
                assert(w[k] == e);
                assert(false);
            }
        }
    }
    assert forall|k2: Seq<char>| k2 != e.key@ && rl_has(v, k2) implies v.push(e)[rl_at(
        v.push(e),
        k2,
    )] == v[#[trigger] rl_at(v, k2)] by {
        let k = rl_at(v, k2);
        assert(v[k].key@ == k2);
        assert(w[k] == v[k]);
        assert(rl_has(w, k2));
        let k3 = rl_at(w, k2);
        assert(w[k3].key@ == k2);
        assert(k3 != n);
        assert(w[k3] == v[k3]);
        if k != k3 {
            assert(v[k].key@ == v[k3].key@);
            assert(false);
        }
    }
}

impl RateLimiter {
    /// The per-key window states.
    pub closed spec fn entries_view(&self) -> Seq<RateEntry> {
        self.entries@
    }

    /// The limiter's configuration.
    pub closed spec fn cfg(&self) -> RateLimitConfig {
        self.config
    }

    /// Keys stay unique.
    pub open spec fn wf(&self) -> bool {
        rl_unique(self.entries_view())
    }

    /// A fresh limiter.
    pub fn new(config: RateLimitConfig) -> (r: RateLimiter)
        ensures
            r.wf(),
            r.entries_view().len() == 0,
            r.cfg().max_requests == config.max_requests,
            r.cfg().window_ms == config.window_ms,
    {
        RateLimiter { config, entries: Vec::new() }
    }

    /// Whether a request from `key` at `now_ms` is allowed: yes exactly when
    /// the key's effective count is still under the limit.  The key's entry
    /// afterwards counts the allowed request (or carries the effective count
    /// on denial), its window starts now unless a fresh one was running, and
    /// every other key's entry is untouched.
    pub fn check(&mut self, key: &String, now_ms: u64) -> (r: bool)
        requires
            old(self).wf(),
        ensures
            final(self).wf(),
            final(self).cfg() == old(self).cfg(),
            r == (effective_count(
                old(self).entries_view(),
                key@,
                now_ms,
                old(self).cfg().window_ms,
            ) < old(self).cfg().max_requests),
            rl_has(final(self).entries_view(), key@),
            ({
                let e = final(self).entries_view()[rl_at(final(self).entries_view(), key@)];
                let eff = effective_count(
                    old(self).entries_view(),
                    key@,
                    now_ms,
                    old(self).cfg().window_ms,
                );
                &&& e.count as int == (if r {
                    eff + 1
                } else {
                    eff
                })
                &&& e.window_start == (if rl_has(old(self).entries_view(), key@) && age_of(
                    now_ms,
                    old(self).entries_view()[rl_at(old(self).entries_view(), key@)].window_start,
                ) <= old(self).cfg().window_ms {
                    old(self).entries_view()[rl_at(
                        old(self).entries_view(),
                        key@,
                    )].window_start
                } else {
                    now_ms
                })
            }),
            forall|k2: Seq<char>|
                k2 != key@ ==> #[trigger] rl_has(final(self).entries_view(), k2) == rl_has(
                    old(self).entries_view(),
                    k2,
                ),
            forall|k2: Seq<char>|
                k2 != key@ && rl_has(old(self).entries_view(), k2) ==> final(self).entries_view()[rl_at(final(self).entries_view(), k2)] == old(self).entries_view()[#[trigger] rl_at(old(self).entries_view(), k2)],
    {
        let found = find_entry(&self.entries, key);
        match found {
            Some(i) => {
                proof {
                    assert(rl_has(self.entries@, key@));
                    let k = rl_at(self.entries@, key@);
                    if k != i as int {
                        assert(self.entries@[k].key@ == self.entries@[i as int].key@);
                        assert(false);
                    }
                }
                let ghost orig = self.entries@;
                let mut e = self.entries.remove(i);
                if now_ms.saturating_sub(e.window_start) > self.config.window_ms {
                    e.count = 0;
                    e.window_start = now_ms;
                }
                let allowed = e.count < self.config.max_requests;
                if allowed {
                    e.count = e.count + 1;
                }
                let ghost efinal = e;
                self.entries.insert(i, e);
                proof {
                    assert(self.entries@ =~= orig.update(i as int, efinal));
                    lemma_rl_update(orig, i as int, efinal);
                }
                allowed
            },
            None => {
                proof {
                    if rl_has(self.entries@, key@) {
                        let k = rl_at(self.entries@, key@);
                        assert(self.entries@[k].key@ == key@);
                        assert(false);
                    }
                }
                let allowed = 0 < self.config.max_requests;
                let e = RateEntry {
                    key: key.clone(),
                    count: if allowed {
                        1
                    } else {
                        0
                    },
                    window_start: now_ms,
                };
                let ghost orig = self.entries@;
                let ghost epush = e;
                self.entries.push(e);
                proof {
                    lemma_rl_push(orig, epush);
                }
                allowed
            },
        }
    }

    /// Evict exactly the entries whose window expired more than one extra
    /// window ago: a key survives if and only if it is young enough, and a
    /// surviving entry is unchanged.
    pub fn cleanup(&mut self, now_ms: u64)
        requires
            old(self).wf(),
        ensures
            final(self).wf(),
            final(self).cfg() == old(self).cfg(),
            forall|k: Seq<char>|
                #[trigger] rl_has(final(self).entries_view(), k) <==> (rl_has(
                    old(self).entries_view(),
                    k,
                ) && age_of(
                    now_ms,
                    old(self).entries_view()[rl_at(old(self).entries_view(), k)].window_start,
                ) <= cleanup_limit(old(self).cfg())),
            forall|k: Seq<char>|
                #[trigger] rl_has(final(self).entries_view(), k) ==> final(self).entries_view()[
                    rl_at(final(self).entries_view(), k)
                ] == old(self).entries_view()[rl_at(old(self).entries_view(), k)],
    {
        let window = self.config.window_ms;
        let limit: u64 = if window > u64::MAX / 2 {
            u64::MAX
        } else {
            2 * window
        };
        let ghost orig = self.entries@;
        let mut kept: Vec<RateEntry> = Vec::new();
        proof {
            assert(self.entries@ =~= orig.take(self.entries@.len() as int));
        }
        while self.entries.len() > 0
            invariant
                self.config == old(self).config,
                orig == old(self).entries@,
                limit == cleanup_limit(self.config),
                rl_unique(orig),
                self.entries@ == orig.take(self.entries@.len() as int),
                self.entries@.len() <= orig.len(),
                rl_unique(kept@),
                forall|k: Seq<char>|
                    #[trigger] rl_has(kept@, k) ==> rl_has(orig, k) && age_of(
                        now_ms,
                        orig[rl_at(orig, k)].window_start,
                    ) <= limit && kept@[rl_at(kept@, k)] == orig[rl_at(orig, k)],
                forall|k: Seq<char>|
                    rl_has(orig, k) && age_of(now_ms, orig[rl_at(orig, k)].window_start)
                        <= limit && !rl_has(self.entries@, k) ==> #[trigger] rl_has(kept@, k),
                forall|k: Seq<char>| #[trigger] rl_has(kept@, k) ==> !rl_has(self.entries@, k),
            decreases self.entries@.len(),
        {
            let ghost pre = self.entries@;
            let popped = self.entries.pop();
            let e = match popped {
                Some(e) => e,
                None => {
                    proof {
                        assert(false);
                    }
                    continue ;
                },
            };
            let ghost l = pre.len() as int - 1;
            proof {
                assert(pre == orig.take(l + 1));
                assert(e == orig[l]);
                assert(self.entries@ =~= orig.take(l));
                assert(orig[l].key@ == e.key@);
                assert(rl_has(orig, e.key@));
                let k0 = rl_at(orig, e.key@);
                if k0 != l {
                    assert(orig[k0].key@ == orig[l].key@);
                    assert(false);
                }
            }
            let keep = now_ms.saturating_sub(e.window_start) <= limit;
            if keep {
                proof {
                    assert(!rl_has(kept@, e.key@)) by {
                        if rl_has(kept@, e.key@) {
                            assert(!rl_has(pre, e.key@));
                            assert(pre[l].key@ == e.key@);
                            assert(rl_has(pre, e.key@));
                        }
                    }
                }
                let ghost keptpre = kept@;
                let ghost epush = e;
                kept.push(e);
                proof {
                    lemma_rl_push(keptpre, epush);
                    assert forall|k: Seq<char>| #[trigger] rl_has(kept@, k) implies !rl_has(
                        self.entries@,
                        k,
                    ) by {
                        if k == epush.key@ {
                            if rl_has(self.entries@, k) {
                                let t = rl_at(self.entries@, k);
                                assert(self.entries@[t] == orig[t]);
                                assert(orig[t].key@ == orig[l].key@);
                                assert(false);
                            }
                        } else {
                            assert(rl_has(keptpre, k));
                            if rl_has(self.entries@, k) {
                                let t = rl_at(self.entries@, k);
                                assert(pre[t] == self.entries@[t]);
                                assert(rl_has(pre, k));
                            }
                        }
                    }
                }
            } else {
                proof {
                    assert forall|k: Seq<char>|
                        rl_has(orig, k) && age_of(now_ms, orig[rl_at(orig, k)].window_start)
                            <= limit && !rl_has(self.entries@, k) implies #[trigger] rl_has(
                        kept@,
                        k,
                    ) by {
                        if !rl_has(pre, k) {
                        } else {
                            let t = rl_at(pre, k);
                            assert(pre[t].key@ == k);
                            if t < l {
                                assert(self.entries@[t] == pre[t]);
                                assert(rl_has(self.entries@, k));
                            } else {
                                assert(pre[l].key@ == e.key@);
                                assert(k == e.key@);
                                let k0 = rl_at(orig, k);
                                if k0 != l {
                                    assert(orig[k0].key@ == orig[l].key@);
                                    assert(false);
                                }
                                assert(age_of(now_ms, orig[k0].window_start) > limit);
                            }
                        }
                    }
                    assert forall|k: Seq<char>| #[trigger] rl_has(kept@, k) implies !rl_has(
                        self.entries@,
                        k,
                    ) by {
                        if rl_has(self.entries@, k) {
                            let t = rl_at(self.entries@, k);
                            assert(pre[t] == self.entries@[t]);
                            assert(rl_has(pre, k));
                        }
                    }
                }
            }
        }
        proof {
            assert(self.entries@.len() == 0);
            assert forall|k: Seq<char>| !#[trigger] rl_has(self.entries@, k) by {
                if rl_has(self.entries@, k) {
                    let t = rl_at(self.entries@, k);
                    assert(false);
                }
            }
        }
        core::mem::swap(&mut self.entries, &mut kept);
    }
}

} // verus!
