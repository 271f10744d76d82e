//! The decision cache: a TTL-bounded store from an observation fingerprint
//! to a previously computed action. When full, the entry with the oldest
//! insertion time leaves, never any other.

use vstd::prelude::*;
use crate::model::{clone_action, spec_sat_add_u64, AgentAction};

verus! {

/// A cached action with its insertion time and time-to-live, both in
/// milliseconds.
#[derive(Clone, Debug)]
pub struct CachedDecision {
    pub action: AgentAction,
    /// When the entry was inserted.
    pub timestamp_ms: u64,
    /// How long past insertion the entry answers.
    pub ttl_ms: u64,
}

/// The cache: fingerprint-keyed entries, a capacity, and hit/miss counters.
#[derive(Clone, Debug)]
pub struct DecisionCache {
    pub entries: Vec<(u64, CachedDecision)>,
    pub max_size: usize,
    pub hit_count: u64,
    pub miss_count: u64,
}

/// Some entry carries the key.
pub open spec fn cache_has_key(s: Seq<(u64, CachedDecision)>, key: u64) -> bool {
    exists|i: int| 0 <= i < s.len() && (#[trigger] s[i]).0 == key
}

/// The index of the entry carrying the key (unique under `unique_keys`).
pub open spec fn cache_idx_of_key(s: Seq<(u64, CachedDecision)>, key: u64) -> int {
    choose|i: int| 0 <= i < s.len() && (#[trigger] s[i]).0 == key
}

/// No two entries share a key.
pub open spec fn unique_keys(s: Seq<(u64, CachedDecision)>) -> bool {
    forall|i: int, j: int| 0 <= i < j < s.len() ==> (#[trigger] s[i]).0 != (#[trigger] s[j]).0
}

/// The entry still answers at time `now`.
pub open spec fn spec_live(d: CachedDecision, now_ms: u64) -> bool {
    now_ms < d.timestamp_ms + d.ttl_ms
}

/// What a query at time `now` answers: the stored action, if the key is
/// present and its entry still lives.
pub open spec fn spec_lookup(
    s: Seq<(u64, CachedDecision)>,
    key: u64,
    now_ms: u64,
) -> Option<AgentAction> {
    if cache_has_key(s, key) && spec_live(s[cache_idx_of_key(s, key)].1, now_ms) {
        Some(s[cache_idx_of_key(s, key)].1.action)
    } else {
        None
    }
}

/// The index of the first entry with the smallest insertion time (meaningful
/// for non-empty `s`).
pub open spec fn spec_oldest_idx(s: Seq<(u64, CachedDecision)>) -> int
    decreases s.len(),
{
    if s.len() <= 1 {
        0
    } else {
        let p = spec_oldest_idx(s.drop_last());
        if s[p].1.timestamp_ms <= s.last().1.timestamp_ms {
            p
        } else {
            s.len() - 1
        }
    }
}

/// The first oldest entry is a valid index and no entry is older: what
/// eviction removes is exactly an entry with the smallest insertion time.
pub proof fn lemma_oldest_is_minimal(s: Seq<(u64, CachedDecision)>)
    requires
        s.len() >= 1,
    ensures
        0 <= spec_oldest_idx(s) < s.len(),
        forall|j: int|
            0 <= j < s.len() ==> (#[trigger] s[j]).1.timestamp_ms
                >= s[spec_oldest_idx(s)].1.timestamp_ms,
    decreases s.len(),
{
    if s.len() > 1 {
        lemma_oldest_is_minimal(s.drop_last());
        assert forall|j: int| 0 <= j < s.len() implies (#[trigger] s[j]).1.timestamp_ms
            >= s[spec_oldest_idx(s)].1.timestamp_ms by {
            if j < s.len() - 1 {
                assert(s.drop_last()[j] == s[j]);
            }
        }
    }
}

/// `s` with the entry for `key` replaced, or the new entry appended.
pub open spec fn spec_cache_upsert(
    s: Seq<(u64, CachedDecision)>,
    key: u64,
    d: CachedDecision,
) -> Seq<(u64, CachedDecision)> {
    if cache_has_key(s, key) {
        s.update(cache_idx_of_key(s, key), (key, d))
    } else {
        s.push((key, d))
    }
}

/// What one insertion does: a full cache first loses its first oldest entry,
/// then the key's entry is replaced or appended.
pub open spec fn spec_cache_insert(
    s: Seq<(u64, CachedDecision)>,
    max_size: usize,
    key: u64,
    d: CachedDecision,
) -> Seq<(u64, CachedDecision)> {
    let s1 = if s.len() >= max_size {
        s.remove(spec_oldest_idx(s))
    } else {
        s
    };
    spec_cache_upsert(s1, key, d)
}

impl DecisionCache {
    pub open spec fn wf(self) -> bool {
        &&& unique_keys(self.entries@)
        &&& self.entries@.len() <= self.max_size
        &&& self.max_size >= 1
    }

    /// An empty cache with the given capacity.
    pub fn new(max_size: usize) -> (r: DecisionCache)
        requires
            max_size >= 1,
        ensures
            r.entries@.len() == 0,
            r.max_size == max_size,
            r.hit_count == 0,
            r.miss_count == 0,
            r.wf(),
    {
        DecisionCache { entries: Vec::new(), max_size, hit_count: 0, miss_count: 0 }
    }

    /// Answers from the cache: a live entry is a hit and stays; an expired
    /// entry is dropped and, like an absent key, counts as a miss.
    pub fn get(&mut self, key: u64, now_ms: u64) -> (r: Option<AgentAction>)
        requires
            old(self).wf(),
        ensures
            final(self).wf(),
            r == spec_lookup(old(self).entries@, key, now_ms),
            final(self).max_size == old(self).max_size,
            match r {
                Some(_) => {
                    &&& final(self).entries@ == old(self).entries@
                    &&& final(self).hit_count == spec_sat_add_u64(old(self).hit_count, 1)
                    &&& final(self).miss_count == old(self).miss_count
                },
                None => {
                    &&& final(self).entries@ == (if cache_has_key(old(self).entries@, key) {
                        old(self).entries@.remove(cache_idx_of_key(old(self).entries@, key))
                    } else {
                        old(self).entries@
                    })
                    &&& final(self).miss_count == spec_sat_add_u64(old(self).miss_count, 1)
                    &&& final(self).hit_count == old(self).hit_count
                },
            },
    {
        let mut i: usize = 0;
        while i < self.entries.len()
            invariant
                old(self).wf(),
                *self == *old(self),
                0 <= i <= self.entries@.len(),
                forall|k: int| 0 <= k < i ==> (#[trigger] self.entries@[k]).0 != key,
            decreases self.entries@.len() - i,
        {
            if self.entries[i].0 == key {
                proof {
                    assert(cache_has_key(self.entries@, key));
                    let k = cache_idx_of_key(self.entries@, key);
                    if k != i as int {
                        assert(self.entries@[k].0 == self.entries@[i as int].0);
                        assert(false);
                    }
                }
                let live = is_live(&self.entries[i].1, now_ms);
                if live {
                    self.hit_count = if self.hit_count < 0xffff_ffff_ffff_ffff {
                        self.hit_count + 1
                    } else {
                        self.hit_count
                    };
                    return Some(clone_action(&self.entries[i].1.action));
                } else {
                    self.entries.remove(i);
                    self.miss_count = if self.miss_count < 0xffff_ffff_ffff_ffff {
                        self.miss_count + 1
                    } else {
                        self.miss_count
                    };
                    proof {
                        lemma_remove_keeps_unique(old(self).entries@, i as int);
                    }
                    return None;
                }
            }
            i = i + 1;
        }
        proof {
            if cache_has_key(self.entries@, key) {
                let k = choose|k: int|
                    0 <= k < self.entries@.len() && (#[trigger] self.entries@[k]).0 == key;
                assert(self.entries@[k].0 != key);
            }
        }
        self.miss_count = if self.miss_count < 0xffff_ffff_ffff_ffff {
            self.miss_count + 1
        } else {
            self.miss_count
        };
        None
    }

    /// Stores an action under the key: a full cache first evicts its first
    /// oldest entry, then the key's entry is replaced or appended.
    pub fn insert(&mut self, key: u64, action: AgentAction, ttl_ms: u64, now_ms: u64)
        requires
            old(self).wf(),
        ensures
            final(self).wf(),
            final(self).entries@ == spec_cache_insert(
                old(self).entries@,
                old(self).max_size,
                key,
                CachedDecision { action, timestamp_ms: now_ms, ttl_ms },
            ),
            final(self).max_size == old(self).max_size,
            final(self).hit_count == old(self).hit_count,
            final(self).miss_count == old(self).miss_count,
    {
        if self.entries.len() >= self.max_size {
            let oldest = self.find_oldest();
            self.entries.remove(oldest);
            proof {
                lemma_remove_keeps_unique(old(self).entries@, oldest as int);
            }
        }
        let d = CachedDecision { action, timestamp_ms: now_ms, ttl_ms };
        self.upsert_entry(key, d);
    }

    /// The index of the first entry with the smallest insertion time.
    fn find_oldest(&self) -> (r: usize)
        requires
            self.entries@.len() >= 1,
        ensures
            r as int == spec_oldest_idx(self.entries@),
            r < self.entries@.len(),
    {
        let s = &self.entries;
        let mut best: usize = 0;
        let mut i: usize = 1;
        proof {
            assert(s@.take(1).drop_last() =~= s@.take(0));
            assert(spec_oldest_idx(s@.take(1)) == 0);
        }
        while i < s.len()
            invariant
                s == &self.entries,
                1 <= i <= s@.len(),
                best < i,
                best as int == spec_oldest_idx(s@.take(i as int)),
            decreases s@.len() - i,
        {
            proof {
                assert(s@.take(i + 1).drop_last() =~= s@.take(i as int));
                assert(s@.take(i + 1).last() == s@[i as int]);
                assert forall|k: int| 0 <= k < i implies s@.take(i + 1)[k] == s@.take(i as int)[k]
                    by {}
            }
            if !(s[best].1.timestamp_ms <= s[i].1.timestamp_ms) {
                best = i;
            }
            i = i + 1;
        }
        proof {
            assert(s@.take(s@.len() as int) =~= s@);
        }
        best
    }

    /// Replaces the entry carrying `key` by the decision, or appends it.
    fn upsert_entry(&mut self, key: u64, d: CachedDecision)
        requires
            unique_keys(old(self).entries@),
        ensures
            final(self).entries@ == spec_cache_upsert(old(self).entries@, key, d),
            unique_keys(final(self).entries@),
            final(self).entries@.len() == old(self).entries@.len() || final(self).entries@.len()
                == old(self).entries@.len() + 1,
            cache_has_key(old(self).entries@, key) ==> final(self).entries@.len() == old(
                self,
            ).entries@.len(),
            final(self).max_size == old(self).max_size,
            final(self).hit_count == old(self).hit_count,
            final(self).miss_count == old(self).miss_count,
    {
        let mut i: usize = 0;
        while i < self.entries.len()
            invariant
                unique_keys(self.entries@),
                *self == *old(self),
                0 <= i <= self.entries@.len(),
                forall|k: int| 0 <= k < i ==> (#[trigger] self.entries@[k]).0 != key,
            decreases self.entries@.len() - i,
        {
            if self.entries[i].0 == key {
                proof {
                    assert(cache_has_key(self.entries@, key));
                    let k = cache_idx_of_key(self.entries@, key);
                    if k != i as int {
                        assert(self.entries@[k].0 == self.entries@[i as int].0);
                        assert(false);
                    }
                }
                let slot = &mut self.entries[i];
                *slot = (key, d);
                return ;
            }
            i = i + 1;
        }
        proof {
            if cache_has_key(self.entries@, key) {
                let k = choose|k: int|
                    0 <= k < self.entries@.len() && (#[trigger] self.entries@[k]).0 == key;
                assert(self.entries@[k].0 != key);
            }
        }
        self.entries.push((key, d));
        proof {
            assert forall|p: int, q: int| 0 <= p < q < self.entries@.len() implies
                (#[trigger] self.entries@[p]).0 != (#[trigger] self.entries@[q]).0 by {
                if q == self.entries@.len() - 1 {
                    assert(old(self).entries@[p].0 != key);
                }
            }
        }
    }

    /// Drops every entry that no longer answers at time `now`.
    pub fn clear_expired(&mut self, now_ms: u64)
        requires
            old(self).wf(),
        ensures
            final(self).wf(),
            final(self).entries@ == old(self).entries@.filter(
                |e: (u64, CachedDecision)| spec_live(e.1, now_ms),
            ),
            final(self).max_size == old(self).max_size,
            final(self).hit_count == old(self).hit_count,
            final(self).miss_count == old(self).miss_count,
    {
        let ghost pred = |e: (u64, CachedDecision)| spec_live(e.1, now_ms);
        let mut kept: Vec<(u64, CachedDecision)> = Vec::new();
        let mut i: usize = 0;
        proof {
            reveal(Seq::filter);
            assert(self.entries@.take(0).filter(pred) =~= Seq::<(u64, CachedDecision)>::empty());
        }
        while i < self.entries.len()
            invariant
                old(self).wf(),
                *self == *old(self),
                0 <= i <= self.entries@.len(),
                kept@ == self.entries@.take(i as int).filter(pred),
                pred == (|e: (u64, CachedDecision)| spec_live(e.1, now_ms)),
            decreases self.entries@.len() - i,
        {
            proof {
                reveal(Seq::filter);
                assert(self.entries@.take(i + 1).drop_last() =~= self.entries@.take(i as int));
                assert(self.entries@.take(i + 1).last() == self.entries@[i as int]);
            }
            let e = &self.entries[i];
            let live = is_live(&e.1, now_ms);
            if live {
                let copied = (
                    e.0,
                    CachedDecision {
                        action: clone_action(&e.1.action),
                        timestamp_ms: e.1.timestamp_ms,
                        ttl_ms: e.1.ttl_ms,
                    },
                );
                proof {
                    assert(copied == self.entries@[i as int]);
                }
                kept.push(copied);
            }
            i = i + 1;
        }
        proof {
            assert(self.entries@.take(self.entries@.len() as int) =~= self.entries@);
            lemma_filter_len_le(self.entries@, pred);
            lemma_filter_unique(self.entries@, pred);
        }
        self.entries = kept;
    }
}

/// The entry still answers at time `now`.
fn is_live(d: &CachedDecision, now_ms: u64) -> (r: bool)
    ensures
        r == spec_live(*d, now_ms),
{
    if d.ttl_ms <= 0xffff_ffff_ffff_ffffu64 - d.timestamp_ms {
        now_ms < d.timestamp_ms + d.ttl_ms
    } else {
        true
    }
}

/// Every key of the filtered sequence is a key of the original.
proof fn lemma_filter_keys_subset(
    s: Seq<(u64, CachedDecision)>,
    pred: spec_fn((u64, CachedDecision)) -> bool,
    k: u64,
)
    requires
        cache_has_key(s.filter(pred), k),
    ensures
        cache_has_key(s, k),
    decreases s.len(),
{
    reveal(Seq::filter);
    if s.len() > 0 {
        let f = s.filter(pred);
        let fi = choose|fi: int| 0 <= fi < f.len() && (#[trigger] f[fi]).0 == k;
        if pred(s.last()) && fi == f.len() - 1 {
            assert(s[s.len() - 1].0 == k);
        } else {
            assert(cache_has_key(s.drop_last().filter(pred), k));
            lemma_filter_keys_subset(s.drop_last(), pred, k);
            let j = choose|j: int|
                0 <= j < s.drop_last().len() && (#[trigger] s.drop_last()[j]).0 == k;
            assert(s[j].0 == k);
        }
    }
}

/// Filtering a uniquely keyed sequence keeps the keys unique.
proof fn lemma_filter_unique(
    s: Seq<(u64, CachedDecision)>,
    pred: spec_fn((u64, CachedDecision)) -> bool,
)
    requires
        unique_keys(s),
    ensures
        unique_keys(s.filter(pred)),
    decreases s.len(),
{
    reveal(Seq::filter);
    if s.len() > 0 {
        let dl = s.drop_last();
        assert(unique_keys(dl)) by {
            assert forall|p: int, q: int| 0 <= p < q < dl.len() implies (#[trigger] dl[p]).0
                != (#[trigger] dl[q]).0 by {
                assert(s[p].0 != s[q].0);
            }
        }
        lemma_filter_unique(dl, pred);
        if pred(s.last()) {
            let f = s.filter(pred);
            assert(f == dl.filter(pred).push(s.last()));
            assert forall|p: int, q: int| 0 <= p < q < f.len() implies (#[trigger] f[p]).0
                != (#[trigger] f[q]).0 by {
                if q == f.len() - 1 {
                    if f[p].0 == s.last().0 {
                        assert(cache_has_key(dl.filter(pred), s.last().0));
                        lemma_filter_keys_subset(dl, pred, s.last().0);
                        let j = choose|j: int| 0 <= j < dl.len() && (#[trigger] dl[j]).0
                            == s.last().0;
                        assert(s[j].0 == s[s.len() - 1].0);
                        assert(false);
                    }
                }
            }
        }
    }
}

/// Removing an entry keeps the keys unique.
proof fn lemma_remove_keeps_unique(s: Seq<(u64, CachedDecision)>, i: int)
    requires
        unique_keys(s),
        0 <= i < s.len(),
    ensures
        unique_keys(s.remove(i)),
{
    let t = s.remove(i);
    assert forall|p: int, q: int| 0 <= p < q < t.len() implies (#[trigger] t[p]).0
        != (#[trigger] t[q]).0 by {
        let op = if p < i {
            p
        } else {
            p + 1
        };
        let oq = if q < i {
            q
        } else {
            q + 1
        };
        assert(s[op].0 != s[oq].0);
    }
}

/// Filtering never grows a sequence.
proof fn lemma_filter_len_le(s: Seq<(u64, CachedDecision)>, pred: spec_fn((u64, CachedDecision)) -> bool)
    ensures
        s.filter(pred).len() <= s.len(),
    decreases s.len(),
{
    if s.len() > 0 {
        lemma_filter_len_le(s.drop_last(), pred);
    }
}

/// Inserting and then querying the same key within its time-to-live answers
/// the inserted action.
pub proof fn lemma_cache_hit_after_insert(
    s: Seq<(u64, CachedDecision)>,
    max_size: usize,
    key: u64,
    action: AgentAction,
    ttl_ms: u64,
    now_ms: u64,
    query_ms: u64,
)
    requires
        unique_keys(s),
        max_size >= 1,
        now_ms <= query_ms,
        query_ms < now_ms + ttl_ms,
    ensures
        spec_lookup(
            spec_cache_insert(s, max_size, key, CachedDecision {
                action,
                timestamp_ms: now_ms,
                ttl_ms,
            }),
            key,
            query_ms,
        ) == Some(action),
{
    let d = CachedDecision { action, timestamp_ms: now_ms, ttl_ms };
    let s1 = if s.len() >= max_size {
        s.remove(spec_oldest_idx(s))
    } else {
        s
    };
    if s.len() >= max_size {
        lemma_oldest_is_minimal(s);
        lemma_remove_keeps_unique(s, spec_oldest_idx(s));
    }
    let s2 = spec_cache_upsert(s1, key, d);
    if cache_has_key(s1, key) {
        let k = cache_idx_of_key(s1, key);
        assert(0 <= k < s1.len() && s1[k].0 == key);
        assert(s2[k] == (key, d));
        assert(cache_has_key(s2, key));
        let k2 = cache_idx_of_key(s2, key);
        assert(0 <= k2 < s2.len() && s2[k2].0 == key);
        if k2 != k {
            assert(s2[k2].0 == s1[k2].0);
            assert(s1[k2].0 != s1[k].0);
        }
        assert(spec_live(s2[k2].1, query_ms));
    } else {
        assert(s2[s2.len() - 1] == (key, d));
        assert(cache_has_key(s2, key));
        let k2 = cache_idx_of_key(s2, key);
        assert(0 <= k2 < s2.len() && s2[k2].0 == key);
        if k2 != s2.len() - 1 {
            assert(s1[k2].0 == key);
        }
        assert(spec_live(s2[k2].1, query_ms));
    }
}

/// Querying the same key at or past the end of its time-to-live is a miss.
pub proof fn lemma_cache_expiry_after_insert(
    s: Seq<(u64, CachedDecision)>,
    max_size: usize,
    key: u64,
    action: AgentAction,
    ttl_ms: u64,
    now_ms: u64,
    query_ms: u64,
)
    requires
        unique_keys(s),
        max_size >= 1,
        query_ms >= now_ms + ttl_ms,
    ensures
        spec_lookup(
            spec_cache_insert(s, max_size, key, CachedDecision {
                action,
                timestamp_ms: now_ms,
                ttl_ms,
            }),
            key,
            query_ms,
        ) is None,
{
    let d = CachedDecision { action, timestamp_ms: now_ms, ttl_ms };
    let s1 = if s.len() >= max_size {
        s.remove(spec_oldest_idx(s))
    } else {
        s
    };
    if s.len() >= max_size {
        lemma_oldest_is_minimal(s);
        lemma_remove_keeps_unique(s, spec_oldest_idx(s));
    }
    let s2 = spec_cache_upsert(s1, key, d);
    if cache_has_key(s1, key) {
        let k = cache_idx_of_key(s1, key);
        assert(0 <= k < s1.len() && s1[k].0 == key);
        assert(s2[k] == (key, d));
        assert(cache_has_key(s2, key));
        let k2 = cache_idx_of_key(s2, key);
        assert(0 <= k2 < s2.len() && s2[k2].0 == key);
        if k2 != k {
            assert(s2[k2].0 == s1[k2].0);
            assert(s1[k2].0 != s1[k].0);
        }
        assert(!spec_live(s2[k2].1, query_ms));
    } else {
        assert(s2[s2.len() - 1] == (key, d));
        assert(cache_has_key(s2, key));
        let k2 = cache_idx_of_key(s2, key);
        assert(0 <= k2 < s2.len() && s2[k2].0 == key);
        if k2 != s2.len() - 1 {
            assert(s1[k2].0 == key);
        }
        assert(!spec_live(s2[k2].1, query_ms));
    }
}

} // verus!
