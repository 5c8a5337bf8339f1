//! Time-bounded, capacity-bounded cache from raw input text to a
//! previously computed candidate list.
//!
//! Entries expire lazily: `get` answers nothing for an entry older than
//! the time-to-live but does not remove it. `set` evicts in two phases
//! once the cache is full: first every expired entry goes, then, if the
//! cache is still at capacity, the oldest third (by insertion timestamp)
//! of what remains.

use vstd::prelude::*;
use crate::models::{preds_eq, spec_elapsed, Prediction};
use crate::text;

verus! {

/// One cached input with its computed candidates and insertion instant.
pub struct CacheEntry {
    /// The raw input text that keyed the computation
    pub key: String,
    /// The candidate list computed for that input
    pub predictions: Vec<Prediction>,
    /// Insertion instant, milliseconds
    pub timestamp: u64,
}

/// All keys pairwise distinct.
pub open spec fn unique_keys(s: Seq<CacheEntry>) -> bool {
    forall|i: int, j: int|
        0 <= i < j < s.len() ==> #[trigger] s[i].key@ != #[trigger] s[j].key@
}

/// Whether some entry carries the key `k`.
pub open spec fn has_key(s: Seq<CacheEntry>, k: Seq<char>) -> bool {
    exists|i: int| 0 <= i < s.len() && #[trigger] s[i].key@ == k
}

/// Whether the entry is younger than the time-to-live at instant `now`.
pub open spec fn entry_live(e: CacheEntry, now: u64, ttl_ms: u64) -> bool {
    spec_elapsed(e.timestamp, now) < ttl_ms
}

/// Whether some entry carries the key `k` and is still live.
pub open spec fn has_live_key(s: Seq<CacheEntry>, k: Seq<char>, now: u64, ttl_ms: u64) -> bool {
    exists|i: int| 0 <= i < s.len() && #[trigger] s[i].key@ == k && entry_live(s[i], now, ttl_ms)
}

/// The entries that are still live at instant `now`.
pub open spec fn retain_live(s: Seq<CacheEntry>, now: u64, ttl_ms: u64) -> Seq<CacheEntry>
    decreases s.len(),
{
    if s.len() == 0 {
        Seq::<CacheEntry>::empty()
    } else {
        let prefix = retain_live(s.drop_last(), now, ttl_ms);
        if entry_live(s.last(), now, ttl_ms) {
            prefix.push(s.last())
        } else {
            prefix
        }
    }
}

/// The first index holding the minimal timestamp.
pub open spec fn min_ts_index(s: Seq<CacheEntry>) -> int
    recommends
        s.len() > 0,
    decreases s.len(),
{
    if s.len() <= 1 {
        0
    } else {
        let m = min_ts_index(s.drop_last());
        if s.last().timestamp < s[m].timestamp {
            s.len() - 1
        } else {
            m
        }
    }
}

/// `s` with its `k` oldest entries removed, oldest first; ties go to the
/// earliest index.
pub open spec fn remove_oldest(s: Seq<CacheEntry>, k: nat) -> Seq<CacheEntry>
    decreases k,
{
    if k == 0 || s.len() == 0 {
        s
    } else {
        remove_oldest(s.remove(min_ts_index(s)), (k - 1) as nat)
    }
}

/// What eviction does to a full cache: drop the expired entries, and if
/// the cache is still at capacity, the oldest third of what remains.
pub open spec fn cleanup_model(
    s: Seq<CacheEntry>,
    now: u64,
    ttl_ms: u64,
    max_entries: usize,
) -> Seq<CacheEntry> {
    let live = retain_live(s, now, ttl_ms);
    if live.len() >= max_entries {
        remove_oldest(live, (max_entries / 3) as nat)
    } else {
        live
    }
}

/// What `set` does to the entry list for a non-empty candidate list:
/// eviction when full, then the entry for `key` replaced or appended.
pub open spec fn set_model(
    s: Seq<CacheEntry>,
    key: String,
    predictions: Vec<Prediction>,
    now: u64,
    ttl_ms: u64,
    max_entries: usize,
) -> Seq<CacheEntry> {
    let base = if s.len() >= max_entries {
        cleanup_model(s, now, ttl_ms, max_entries)
    } else {
        s
    };
    let e = CacheEntry { key: key, predictions: predictions, timestamp: now };
    if has_key(base, key@) {
        let i = choose|i: int| 0 <= i < base.len() && #[trigger] base[i].key@ == key@;
        base.update(i, e)
    } else {
        base.push(e)
    }
}

/// Removing one index keeps the keys pairwise distinct.
proof fn lemma_remove_unique(s: Seq<CacheEntry>, i: int)
    requires
        unique_keys(s),
        0 <= i < s.len(),
    ensures
        unique_keys(s.remove(i)),
{
    let r = s.remove(i);
    assert forall|a: int, b: int| 0 <= a < b < r.len() implies #[trigger] r[a].key@
        != #[trigger] r[b].key@ by {
        let a0 = if a < i {
            a
        } else {
            a + 1
        };
        let b0 = if b < i {
            b
        } else {
            b + 1
        };
        assert(r[a] == s[a0]);
        assert(r[b] == s[b0]);
    }
}

/// The filtered list keeps the keys pairwise distinct and introduces none.
proof fn lemma_retain_live_unique(s: Seq<CacheEntry>, now: u64, ttl_ms: u64)
    requires
        unique_keys(s),
    ensures
        unique_keys(retain_live(s, now, ttl_ms)),
        forall|k: Seq<char>|
            #[trigger] has_key(retain_live(s, now, ttl_ms), k) ==> has_key(s, k),
    decreases s.len(),
{
    if s.len() == 0 {
    } else {
        assert(unique_keys(s.drop_last())) by {
            assert(forall|i: int|
                0 <= i < s.drop_last().len() ==> s.drop_last()[i] == #[trigger] s[i]);
        }
        lemma_retain_live_unique(s.drop_last(), now, ttl_ms);
        let prefix = retain_live(s.drop_last(), now, ttl_ms);
        let r = retain_live(s, now, ttl_ms);
        assert forall|k: Seq<char>| #[trigger] has_key(r, k) implies has_key(s, k) by {
            let i = choose|i: int| 0 <= i < r.len() && #[trigger] r[i].key@ == k;
            if entry_live(s.last(), now, ttl_ms) && i == r.len() - 1 {
                assert(s[s.len() - 1].key@ == k);
            } else {
                assert(prefix[i].key@ == k);
                assert(has_key(prefix, k));
                assert(has_key(s.drop_last(), k));
                let j = choose|j: int|
                    0 <= j < s.drop_last().len() && #[trigger] s.drop_last()[j].key@ == k;
                assert(s[j].key@ == k);
            }
        }
        if entry_live(s.last(), now, ttl_ms) {
            assert forall|a: int, b: int| 0 <= a < b < r.len() implies #[trigger] r[a].key@
                != #[trigger] r[b].key@ by {
                if b == r.len() - 1 {
                    assert(r[a] == prefix[a]);
                    assert(has_key(prefix, r[a].key@));
                    assert(has_key(s.drop_last(), r[a].key@));
                    let j = choose|j: int|
                        0 <= j < s.drop_last().len() && #[trigger] s.drop_last()[j].key@
                            == r[a].key@;
                    assert(s[j].key@ == r[a].key@);
                    assert(s[j].key@ != s[s.len() - 1].key@);
                } else {
                    assert(r[a] == prefix[a] && r[b] == prefix[b]);
                }
            }
        }
    }
}

/// Repeated removal of the oldest entry keeps the keys pairwise distinct
/// and removes exactly `k` entries, or all of them.
proof fn lemma_remove_oldest_unique(s: Seq<CacheEntry>, k: nat)
    requires
        unique_keys(s),
    ensures
        unique_keys(remove_oldest(s, k)),
        remove_oldest(s, k).len() == if s.len() >= k {
            s.len() - k
        } else {
            0int
        },
    decreases k,
{
    if k == 0 || s.len() == 0 {
    } else {
        let i = min_ts_index(s);
        lemma_min_ts_index_bounds(s);
        lemma_remove_unique(s, i);
        lemma_remove_oldest_unique(s.remove(i), (k - 1) as nat);
    }
}

/// The minimal-timestamp index is in bounds.
proof fn lemma_min_ts_index_bounds(s: Seq<CacheEntry>)
    requires
        s.len() > 0,
    ensures
        0 <= min_ts_index(s) < s.len(),
    decreases s.len(),
{
    if s.len() > 1 {
        lemma_min_ts_index_bounds(s.drop_last());
    }
}

/// The prediction cache. Shared across requests by the embedding
/// application; here a plain value.
pub struct PredictionCache {
    /// The cached entries, keys pairwise distinct
    pub entries: Vec<CacheEntry>,
    /// Capacity; eviction runs when an insertion finds the cache at
    /// or above it
    pub max_entries: usize,
    /// Time-to-live of an entry, milliseconds
    pub entry_ttl_ms: u64,
}

impl PredictionCache {
    /// The cache invariant: keys are pairwise distinct.
    pub open spec fn wf(self) -> bool {
        unique_keys(self.entries@)
    }

    /// An empty cache with the given capacity and time-to-live.
    pub fn new(max_entries: usize, entry_ttl_ms: u64) -> (r: Self)
        ensures
            r.wf(),
            r.entries@.len() == 0,
            r.max_entries == max_entries,
            r.entry_ttl_ms == entry_ttl_ms,
    {
        PredictionCache { entries: Vec::new(), max_entries, entry_ttl_ms }
    }

    /// The cached candidates for `key` if the entry exists and has not
    /// expired; a stale entry stays in place but yields nothing.
    #[verifier::loop_isolation(false)]
    pub fn get(&self, key: &str, now_ms: u64) -> (r: Option<Vec<Prediction>>)
        requires
            self.wf(),
        ensures
            (r is Some) == has_live_key(self.entries@, key@, now_ms, self.entry_ttl_ms),
            r matches Some(ps) ==> forall|i: int|
                0 <= i < self.entries@.len() && #[trigger] self.entries@[i].key@ == key@
                    ==> preds_eq(ps@, self.entries@[i].predictions@),
    {
        let mut i: usize = 0;
        while i < self.entries.len()
            invariant
                0 <= i <= self.entries@.len(),
                forall|j: int| 0 <= j < i ==> #[trigger] self.entries@[j].key@ != key@,
            decreases self.entries@.len() - i,
        {
            if text::str_eq(self.entries[i].key.as_str(), key) {
                let e = &self.entries[i];
                let live = if now_ms >= e.timestamp {
                    now_ms - e.timestamp < self.entry_ttl_ms
                } else {
                    0 < self.entry_ttl_ms
                };
                if live {
                    let ps = e.predictions.clone();
                    proof {
                        assert(preds_eq(ps@, e.predictions@));
                        assert(has_live_key(self.entries@, key@, now_ms, self.entry_ttl_ms));
                    }
                    return Some(ps);
                } else {
                    proof {
                        assert(forall|j: int|
                            0 <= j < self.entries@.len() && #[trigger] self.entries@[j].key@
                                == key@ ==> j == i);
                    }
                    return None;
                }
            }
            i = i + 1;
        }
        None
    }

    /// Whether a live entry for `key` exists.
    #[verifier::loop_isolation(false)]
    pub fn contains(&self, key: &str, now_ms: u64) -> (r: bool)
        requires
            self.wf(),
        ensures
            r == has_live_key(self.entries@, key@, now_ms, self.entry_ttl_ms),
    {
        let mut i: usize = 0;
        while i < self.entries.len()
            invariant
                0 <= i <= self.entries@.len(),
                forall|j: int| 0 <= j < i ==> #[trigger] self.entries@[j].key@ != key@,
            decreases self.entries@.len() - i,
        {
            if text::str_eq(self.entries[i].key.as_str(), key) {
                let e = &self.entries[i];
                let live = if now_ms >= e.timestamp {
                    now_ms - e.timestamp < self.entry_ttl_ms
                } else {
                    0 < self.entry_ttl_ms
                };
                proof {
                    if !live {
                        assert(forall|j: int|
                            0 <= j < self.entries@.len() && #[trigger] self.entries@[j].key@
                                == key@ ==> j == i);
                    }
                }
                return live;
            }
            i = i + 1;
        }
        false
    }

    /// Stores `predictions` under `key` at instant `now_ms`, evicting
    /// first when the cache is full. An empty list is never cached.
    #[verifier::loop_isolation(false)]
    pub fn set(&mut self, key: String, predictions: Vec<Prediction>, now_ms: u64)
        requires
            old(self).wf(),
        ensures
            final(self).wf(),
            final(self).max_entries == old(self).max_entries,
            final(self).entry_ttl_ms == old(self).entry_ttl_ms,
            predictions@.len() == 0 ==> final(self).entries@ == old(self).entries@,
            predictions@.len() > 0 ==> final(self).entries@ == set_model(
                old(self).entries@,
                key,
                predictions,
                now_ms,
                old(self).entry_ttl_ms,
                old(self).max_entries,
            ),
    {
        if predictions.len() == 0 {
            return;
        }
        let ghost orig = self.entries@;
        if self.entries.len() >= self.max_entries {
            self.cleanup_cache(now_ms);
        }
        proof {
            if orig.len() >= self.max_entries {
                assert(self.entries@ == cleanup_model(
                    orig,
                    now_ms,
                    self.entry_ttl_ms,
                    self.max_entries,
                ));
            }
        }
        let ghost base = self.entries@;
        proof {
            assert(unique_keys(base));
        }
        // replace the entry for the key, or append a new one
        let mut i: usize = 0;
        while i < self.entries.len()
            invariant
                0 <= i <= self.entries@.len(),
                self.entries@ == base,
                self.max_entries == old(self).max_entries,
                self.entry_ttl_ms == old(self).entry_ttl_ms,
                forall|j: int| 0 <= j < i ==> #[trigger] self.entries@[j].key@ != key@,
            decreases self.entries@.len() - i,
        {
            if text::str_eq(self.entries[i].key.as_str(), key.as_str()) {
                let ghost kv = key;
                let ghost pv = predictions;
                let e = CacheEntry { key, predictions, timestamp: now_ms };
                self.entries.set(i, e);
                proof {
                    let w = choose|w: int| 0 <= w < base.len() && #[trigger] base[w].key@
                        == kv@;
                    assert(w == i);
                    assert(self.entries@ == base.update(
                        i as int,
                        CacheEntry { key: kv, predictions: pv, timestamp: now_ms },
                    ));
                    assert(unique_keys(self.entries@)) by {
                        assert(forall|a: int|
                            0 <= a < base.len() && a != i ==> #[trigger] self.entries@[a]
                                == base[a]);
                        assert(self.entries@[i as int].key@ == base[i as int].key@);
                    }
                }
                return;
            }
            i = i + 1;
        }
        let e = CacheEntry { key, predictions, timestamp: now_ms };
        self.entries.push(e);
        proof {
            assert(!has_key(base, key@));
            assert(unique_keys(self.entries@)) by {
                assert(forall|a: int|
                    0 <= a < base.len() ==> #[trigger] self.entries@[a] == base[a]);
            }
        }
    }

    /// Replaces, inside the entry for `key`, the first cached candidate
    /// whose text equals `old_prediction`'s by `new_prediction`; reports
    /// whether a replacement happened.
    #[verifier::loop_isolation(false)]
    pub fn update_prediction(
        &mut self,
        key: &str,
        old_prediction: &Prediction,
        new_prediction: Prediction,
    ) -> (r: bool)
        requires
            old(self).wf(),
        ensures
            final(self).wf(),
            final(self).max_entries == old(self).max_entries,
            final(self).entry_ttl_ms == old(self).entry_ttl_ms,
            r == (exists|i: int|
                0 <= i < old(self).entries@.len() && #[trigger] old(self).entries@[i].key@ == key@
                    && crate::ranking::contains_text(
                    old(self).entries@[i].predictions@,
                    old_prediction.text@,
                )),
            !r ==> final(self).entries@ == old(self).entries@,
            r ==> exists|i: int, j: int|
                {
                    &&& 0 <= i < old(self).entries@.len()
                    &&& old(self).entries@[i].key@ == key@
                    &&& 0 <= j < old(self).entries@[i].predictions@.len()
                    &&& old(self).entries@[i].predictions@[j].text@ == old_prediction.text@
                    &&& forall|l: int|
                        0 <= l < j ==> #[trigger] old(self).entries@[i].predictions@[l].text@
                            != old_prediction.text@
                    &&& final(self).entries@.len() == old(self).entries@.len()
                    &&& (forall|l: int|
                        0 <= l < old(self).entries@.len() && l != i
                            ==> #[trigger] final(self).entries@[l] == old(self).entries@[l])
                    &&& final(self).entries@[i].key == old(self).entries@[i].key
                    &&& final(self).entries@[i].timestamp == old(self).entries@[i].timestamp
                    &&& final(self).entries@[i].predictions@ == #[trigger] old(
                        self,
                    ).entries@[i].predictions@.update(j, new_prediction)
                },
    {
        let ghost orig = self.entries@;
        let mut i: usize = 0;
        while i < self.entries.len()
            invariant
                0 <= i <= self.entries@.len(),
                self.entries@ == orig,
                self.max_entries == old(self).max_entries,
                self.entry_ttl_ms == old(self).entry_ttl_ms,
                forall|j: int| 0 <= j < i ==> #[trigger] self.entries@[j].key@ != key@,
            decreases self.entries@.len() - i,
        {
            if text::str_eq(self.entries[i].key.as_str(), key) {
                let mut e = self.entries.remove(i);
                let ghost eo = e;
                let mut j: usize = 0;
                while j < e.predictions.len()
                    invariant
                        0 <= j <= e.predictions@.len(),
                        e == eo,
                        i < orig.len(),
                        self.entries@ == orig.remove(i as int),
                        self.max_entries == old(self).max_entries,
                        self.entry_ttl_ms == old(self).entry_ttl_ms,
                        forall|l: int|
                            0 <= l < j ==> #[trigger] e.predictions@[l].text@
                                != old_prediction.text@,
                    decreases e.predictions@.len() - j,
                {
                    if text::str_eq(e.predictions[j].text.as_str(), old_prediction.text.as_str()) {
                        e.predictions.set(j, new_prediction);
                        let ghost en = e;
                        self.entries.insert(i, e);
                        proof {
                            assert(en.key == eo.key);
                            assert(en.timestamp == eo.timestamp);
                            assert(en.predictions@ == eo.predictions@.update(
                                j as int,
                                new_prediction,
                            ));
                            assert(self.entries@ =~= orig.update(i as int, en));
                            assert(forall|l: int|
                                0 <= l < orig.len() && l != i
                                    ==> #[trigger] self.entries@[l] == orig[l]);
                            assert(unique_keys(self.entries@)) by {
                                assert(self.entries@[i as int].key@ == orig[i as int].key@);
                            }
                            assert(crate::ranking::contains_text(
                                orig[i as int].predictions@,
                                old_prediction.text@,
                            ));
                        }
                        return true;
                    }
                    j = j + 1;
                }
                self.entries.insert(i, e);
                proof {
                    assert(self.entries@ =~= orig);
                    assert(forall|l: int|
                        0 <= l < orig.len() && #[trigger] orig[l].key@ == key@ ==> l == i);
                    assert(!crate::ranking::contains_text(
                        orig[i as int].predictions@,
                        old_prediction.text@,
                    ));
                }
                return false;
            }
            i = i + 1;
        }
        false
    }

    /// Removes every entry.
    pub fn clear(&mut self)
        ensures
            final(self).wf(),
            final(self).entries@.len() == 0,
            final(self).max_entries == old(self).max_entries,
            final(self).entry_ttl_ms == old(self).entry_ttl_ms,
    {
        self.entries.clear();
    }

    /// Two-phase eviction: drop expired entries, then, if still at
    /// capacity, the oldest third.
    #[verifier::loop_isolation(false)]
    fn cleanup_cache(&mut self, now_ms: u64)
        requires
            old(self).wf(),
        ensures
            final(self).wf(),
            final(self).max_entries == old(self).max_entries,
            final(self).entry_ttl_ms == old(self).entry_ttl_ms,
            final(self).entries@ == cleanup_model(
                old(self).entries@,
                now_ms,
                old(self).entry_ttl_ms,
                old(self).max_entries,
            ),
    {
        let ghost orig = self.entries@;
        // phase one: keep only entries that have not expired
        let mut live: Vec<CacheEntry> = Vec::new();
        let ghost mut done: int = 0;
        while self.entries.len() > 0
            invariant
                0 <= done <= orig.len(),
                self.entries@ =~= orig.subrange(done, orig.len() as int),
                live@ == retain_live(orig.subrange(0, done), now_ms, self.entry_ttl_ms),
                self.entry_ttl_ms == old(self).entry_ttl_ms,
                self.max_entries == old(self).max_entries,
            decreases self.entries@.len(),
        {
            let e = self.entries.remove(0);
            proof {
                assert(e == orig[done]);
                let prev = orig.subrange(0, done);
                let next = orig.subrange(0, done + 1);
                assert(next.drop_last() =~= prev);
                assert(next.last() == orig[done]);
            }
            let keep = if now_ms >= e.timestamp {
                now_ms - e.timestamp < self.entry_ttl_ms
            } else {
                0 < self.entry_ttl_ms
            };
            if keep {
                live.push(e);
            }
            proof {
                done = done + 1;
                assert(self.entries@ =~= orig.subrange(done, orig.len() as int));
            }
        }
        proof {
            assert(orig.subrange(0, orig.len() as int) =~= orig);
            lemma_retain_live_unique(orig, now_ms, self.entry_ttl_ms);
        }
        // phase two: if still at capacity, remove the oldest third
        if live.len() >= self.max_entries {
            let mut k: usize = self.max_entries / 3;
            let ghost liveseq = live@;
            let ghost removed: int = 0;
            proof {
                lemma_remove_oldest_unique(live@, (self.max_entries / 3) as nat);
            }
            while k > 0 && live.len() > 0
                invariant
                    live@ == remove_oldest(liveseq, (self.max_entries / 3 - k) as nat),
                    unique_keys(liveseq),
                    0 <= k <= self.max_entries / 3,
                    self.max_entries == old(self).max_entries,
                    self.entry_ttl_ms == old(self).entry_ttl_ms,
                decreases k,
            {
                let ghost before = live@;
                let mut idx: usize = 0;
                let mut m: usize = 1;
                while m < live.len()
                    invariant
                        0 <= idx < m <= live@.len(),
                        live@.len() > 0,
                        idx == min_ts_index(live@.subrange(0, m as int)),
                        live@ == before,
                    decreases live@.len() - m,
                {
                    proof {
                        let prev = live@.subrange(0, m as int);
                        let next = live@.subrange(0, m + 1);
                        assert(next.drop_last() =~= prev);
                        assert(next.last() == live@[m as int]);
                        lemma_min_ts_index_bounds(prev);
                    }
                    if live[m].timestamp < live[idx].timestamp {
                        idx = m;
                    }
                    m = m + 1;
                }
                proof {
                    assert(live@.subrange(0, live@.len() as int) =~= live@);
                }
                live.remove(idx);
                proof {
                    assert(before.remove(min_ts_index(before)) == live@);
                    assert(remove_oldest(liveseq, (self.max_entries / 3 - k + 1) as nat)
                        == live@) by {
                        lemma_remove_oldest_step(liveseq, (self.max_entries / 3 - k) as nat);
                    }
                }
                k = k - 1;
            }
            proof {
                if k > 0 {
                    assert(live@.len() == 0);
                    lemma_remove_oldest_empty(liveseq, (self.max_entries / 3 - k) as nat, (
                    self.max_entries / 3) as nat);
                }
                lemma_remove_oldest_unique(liveseq, (self.max_entries / 3) as nat);
            }
        }
        self.entries = live;
    }
}

/// Law: what one `predict` call cached, a second call on the same input
/// within the time-to-live finds live and answers with the identical
/// list — same order, same scores.
pub proof fn lemma_cache_hit_stability(
    entries: Seq<CacheEntry>,
    key: Seq<char>,
    ps: Seq<Prediction>,
    t1: u64,
    t2: u64,
    ttl_ms: u64,
)
    requires
        unique_keys(entries),
        exists|i: int|
            {
                &&& 0 <= i < entries.len()
                &&& #[trigger] entries[i].key@ == key
                &&& entries[i].timestamp == t1
                &&& preds_eq(entries[i].predictions@, ps)
            },
        t1 <= t2,
        t2 - t1 < ttl_ms,
    ensures
        has_live_key(entries, key, t2, ttl_ms),
        forall|i: int|
            0 <= i < entries.len() && #[trigger] entries[i].key@ == key ==> preds_eq(
                entries[i].predictions@,
                ps,
            ),
{
    let w = choose|w: int|
        {
            &&& 0 <= w < entries.len()
            &&& #[trigger] entries[w].key@ == key
            &&& entries[w].timestamp == t1
            &&& preds_eq(entries[w].predictions@, ps)
        };
    assert(entry_live(entries[w], t2, ttl_ms));
    assert forall|i: int|
        0 <= i < entries.len() && #[trigger] entries[i].key@ == key implies preds_eq(
        entries[i].predictions@,
        ps,
    ) by {
        if i != w {
            assert(entries[i].key@ != entries[w].key@);
        }
    }
}

/// Law: once the time-to-live has elapsed, the entry — never removed by
/// `get` — no longer answers.
pub proof fn lemma_ttl_expiry(entries: Seq<CacheEntry>, key: Seq<char>, now: u64, ttl_ms: u64)
    requires
        unique_keys(entries),
        forall|i: int|
            0 <= i < entries.len() && #[trigger] entries[i].key@ == key ==> spec_elapsed(
                entries[i].timestamp,
                now,
            ) >= ttl_ms,
    ensures
        !has_live_key(entries, key, now, ttl_ms),
{
}

/// Filtering keeps at most as many entries.
proof fn lemma_retain_live_len(s: Seq<CacheEntry>, now: u64, ttl_ms: u64)
    ensures
        retain_live(s, now, ttl_ms).len() <= s.len(),
    decreases s.len(),
{
    if s.len() > 0 {
        lemma_retain_live_len(s.drop_last(), now, ttl_ms);
    }
}

/// Law: an insertion never grows a full cache beyond its capacity, for
/// any capacity of at least three.
pub proof fn lemma_set_capacity(
    s: Seq<CacheEntry>,
    key: String,
    predictions: Vec<Prediction>,
    now: u64,
    ttl_ms: u64,
    max_entries: usize,
)
    requires
        unique_keys(s),
        s.len() <= max_entries,
        max_entries >= 3,
    ensures
        set_model(s, key, predictions, now, ttl_ms, max_entries).len() <= max_entries,
{
    let base = if s.len() >= max_entries {
        cleanup_model(s, now, ttl_ms, max_entries)
    } else {
        s
    };
    if s.len() >= max_entries {
        let live = retain_live(s, now, ttl_ms);
        lemma_retain_live_len(s, now, ttl_ms);
        lemma_retain_live_unique(s, now, ttl_ms);
        if live.len() >= max_entries {
            lemma_remove_oldest_unique(live, (max_entries / 3) as nat);
            assert(base.len() == live.len() - max_entries / 3);
            assert(base.len() <= max_entries - max_entries / 3);
            assert(max_entries / 3 >= 1);
        } else {
            assert(base.len() < max_entries);
        }
        assert(base.len() < max_entries);
    }
    if has_key(base, key@) {
        assert(set_model(s, key, predictions, now, ttl_ms, max_entries).len() == base.len());
    } else {
        assert(set_model(s, key, predictions, now, ttl_ms, max_entries).len() == base.len() + 1);
    }
}

/// Whether `e` occurs in `s` and is live.
pub open spec fn live_member(s: Seq<CacheEntry>, e: CacheEntry, now: u64, ttl_ms: u64) -> bool {
    exists|i: int| 0 <= i < s.len() && #[trigger] s[i] == e && entry_live(e, now, ttl_ms)
}

/// Whether `e` occurs in `s`.
pub open spec fn member(s: Seq<CacheEntry>, e: CacheEntry) -> bool {
    exists|i: int| 0 <= i < s.len() && #[trigger] s[i] == e
}

/// Every filtered entry is a live entry of the original list.
proof fn lemma_retain_live_members(s: Seq<CacheEntry>, now: u64, ttl_ms: u64)
    ensures
        forall|j: int|
            0 <= j < retain_live(s, now, ttl_ms).len() ==> live_member(
                s,
                #[trigger] retain_live(s, now, ttl_ms)[j],
                now,
                ttl_ms,
            ),
    decreases s.len(),
{
    if s.len() == 0 {
    } else {
        lemma_retain_live_members(s.drop_last(), now, ttl_ms);
        let prefix = retain_live(s.drop_last(), now, ttl_ms);
        let r = retain_live(s, now, ttl_ms);
        assert forall|j: int| 0 <= j < r.len() implies live_member(s, r[j], now, ttl_ms) by {
            if entry_live(s.last(), now, ttl_ms) && j == r.len() - 1 {
                assert(s[s.len() - 1] == r[j]);
            } else {
                assert(r[j] == prefix[j]);
                assert(live_member(s.drop_last(), prefix[j], now, ttl_ms));
                let i = choose|i: int|
                    0 <= i < s.drop_last().len() && #[trigger] s.drop_last()[i] == prefix[j]
                        && entry_live(prefix[j], now, ttl_ms);
                assert(s[i] == r[j]);
            }
        }
    }
}

/// Every entry left after removals is an entry of the original list.
proof fn lemma_remove_oldest_members(s: Seq<CacheEntry>, k: nat)
    ensures
        forall|j: int|
            0 <= j < remove_oldest(s, k).len() ==> member(s, #[trigger] remove_oldest(s, k)[j]),
    decreases k,
{
    if k == 0 || s.len() == 0 {
        assert forall|j: int| 0 <= j < remove_oldest(s, k).len() implies member(
            s,
            remove_oldest(s, k)[j],
        ) by {
            assert(s[j] == remove_oldest(s, k)[j]);
        }
    } else {
        let m = min_ts_index(s);
        lemma_min_ts_index_bounds(s);
        let s2 = s.remove(m);
        lemma_remove_oldest_members(s2, (k - 1) as nat);
        assert(remove_oldest(s, k) == remove_oldest(s2, (k - 1) as nat));
        assert forall|j: int| 0 <= j < remove_oldest(s, k).len() implies member(
            s,
            remove_oldest(s, k)[j],
        ) by {
            assert(member(s2, remove_oldest(s2, (k - 1) as nat)[j]));
            let i2 = choose|i2: int|
                0 <= i2 < s2.len() && #[trigger] s2[i2] == remove_oldest(s2, (k - 1) as nat)[j];
            if i2 < m {
                assert(s[i2] == remove_oldest(s, k)[j]);
            } else {
                assert(s[i2 + 1] == remove_oldest(s, k)[j]);
            }
        }
    }
}

/// Law: eviction removes expired entries before any age-based removal;
/// after an insertion into a full cache, every surviving entry is the
/// fresh one or was still live.
pub proof fn lemma_eviction_order(
    s: Seq<CacheEntry>,
    key: String,
    predictions: Vec<Prediction>,
    now: u64,
    ttl_ms: u64,
    max_entries: usize,
)
    requires
        unique_keys(s),
        s.len() >= max_entries,
    ensures
        forall|j: int|
            0 <= j < set_model(s, key, predictions, now, ttl_ms, max_entries).len() ==> {
                ||| #[trigger] set_model(s, key, predictions, now, ttl_ms, max_entries)[j].key@
                    == key@
                ||| live_member(
                    s,
                    set_model(s, key, predictions, now, ttl_ms, max_entries)[j],
                    now,
                    ttl_ms,
                )
            },
{
    let live = retain_live(s, now, ttl_ms);
    let base = cleanup_model(s, now, ttl_ms, max_entries);
    let result = set_model(s, key, predictions, now, ttl_ms, max_entries);
    lemma_retain_live_members(s, now, ttl_ms);
    lemma_remove_oldest_members(live, (max_entries / 3) as nat);
    assert forall|j: int| 0 <= j < base.len() implies live_member(s, base[j], now, ttl_ms) by {
        if live.len() >= max_entries {
            assert(member(live, base[j]));
            let w = choose|w: int| 0 <= w < live.len() && #[trigger] live[w] == base[j];
            assert(live_member(s, live[w], now, ttl_ms));
        } else {
            assert(live_member(s, live[j], now, ttl_ms));
        }
    }
    assert forall|j: int| 0 <= j < result.len() implies {
        ||| #[trigger] result[j].key@ == key@
        ||| live_member(s, result[j], now, ttl_ms)
    } by {
        if has_key(base, key@) {
            let w = choose|w: int| 0 <= w < base.len() && #[trigger] base[w].key@ == key@;
            if j != w {
                assert(result[j] == base[j]);
                assert(live_member(s, base[j], now, ttl_ms));
            }
        } else {
            if j < base.len() {
                assert(result[j] == base[j]);
                assert(live_member(s, base[j], now, ttl_ms));
            }
        }
    }
}

/// One more removal step unfolds `remove_oldest` from the front.
proof fn lemma_remove_oldest_step(s: Seq<CacheEntry>, k: nat)
    requires
        remove_oldest(s, k).len() > 0,
    ensures
        remove_oldest(s, k + 1) == remove_oldest(s, k).remove(min_ts_index(remove_oldest(s, k))),
    decreases k,
{
    if k == 0 {
        assert(remove_oldest(s, 1) == remove_oldest(s.remove(min_ts_index(s)), 0));
    } else {
        if s.len() == 0 {
            assert(remove_oldest(s, k) == s);
        } else {
            lemma_remove_oldest_step(s.remove(min_ts_index(s)), (k - 1) as nat);
        }
    }
}

/// Once everything is removed, further removals change nothing.
proof fn lemma_remove_oldest_empty(s: Seq<CacheEntry>, k1: nat, k2: nat)
    requires
        k1 <= k2,
        remove_oldest(s, k1).len() == 0,
    ensures
        remove_oldest(s, k2) == remove_oldest(s, k1),
    decreases k2 - k1,
{
    if k1 < k2 {
        assert(remove_oldest(s, k1 + 1) == remove_oldest(s, k1)) by {
            lemma_remove_oldest_unfold(s, k1);
        }
        lemma_remove_oldest_empty(s, k1 + 1, k2);
    }
}

/// `remove_oldest` on an exhausted list is the list itself.
proof fn lemma_remove_oldest_unfold(s: Seq<CacheEntry>, k: nat)
    requires
        remove_oldest(s, k).len() == 0,
    ensures
        remove_oldest(s, k + 1) == remove_oldest(s, k),
    decreases k,
{
    if k == 0 {
        assert(s.len() == 0);
    } else {
        if s.len() == 0 {
        } else {
            lemma_remove_oldest_unfold(s.remove(min_ts_index(s)), (k - 1) as nat);
        }
    }
}

} // verus!
