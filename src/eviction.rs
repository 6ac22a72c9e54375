//! Eviction: heat decay and the cleanup passes over the cache.
use crate::cache::{CacheEntry, colder_eq, decayed};
use crate::store::{EvictRule, Storage, survives, queued_removed, removed_path, entries_within, lemma_queued_compose};
use crate::accounting::total_bytes;
use vstd::prelude::*;

verus! {

/// What a cleanup pass did, and what it left.
#[derive(Clone, Copy, Debug, PartialEq, Eq, Structural)]
pub struct CleanupResult {
    pub removed_count: u64,
    pub freed_bytes: u128,
    pub remaining_count: u64,
    pub remaining_bytes: u128,
}

/// Every entry of `b` is in `a`; the ones of `a` that are not in `b` are each
/// colder than or as cold as every entry of `b`.
pub open spec fn evicted_coldest_first(a: Seq<CacheEntry>, b: Seq<CacheEntry>) -> bool {
    &&& forall|j: int| 0 <= j < b.len() ==> a.contains(#[trigger] b[j])
    &&& forall|i: int, j: int| 0 <= i < a.len() && !b.contains(a[i]) && 0 <= j < b.len()
        ==> colder_eq(#[trigger] a[i], #[trigger] b[j])
}

/// Storage usage (objects and cache) that starts automatic cleanup: the
/// smallest usage that is at least `trigger_percent` of the capacity.
pub open spec fn trigger_bytes(s: &Storage) -> int {
    (s.config.capacity_bytes * s.config.trigger_percent + 99) / 100
}

/// Storage usage that automatic cleanup brings the store down to: the
/// largest usage that is at most `target_percent` of the capacity.
pub open spec fn target_bytes(s: &Storage) -> int {
    (s.config.capacity_bytes * s.config.target_percent) / 100
}

pub open spec fn object_bytes(s: &Storage) -> int {
    total_bytes(s.catalog.charges())
}

pub open spec fn usage(s: &Storage) -> int {
    object_bytes(s) + s.cache.total()
}

/// Bytes held by a sequence of cache entries.
pub open spec fn entries_total(s: Seq<CacheEntry>) -> int {
    total_bytes(s.map_values(|e: CacheEntry| crate::cache::entry_charge(e)))
}

/// The entries that survive the age filter of `cleanup`.
pub open spec fn age_survivors(entries: Seq<CacheEntry>, max_age: Option<u64>, now: i64) -> Seq<CacheEntry> {
    match max_age {
        Some(a) => entries.filter(survives(EvictRule::OlderThan { now, max_age: a })),
        None => entries,
    }
}

impl Storage {
    /// The cache's byte total fits the counters that report it.
    pub proof fn lemma_cache_total_fits(&self)
        requires
            self.cache.entries@.len() <= usize::MAX,
        ensures
            0 <= self.cache.total() <= u128::MAX,
    {
        let n = self.cache.entries@.len();
        crate::accounting::lemma_bounds(self.cache.charges(), 0);
        assert((n as int) * (u64::MAX as int) <= (usize::MAX as int) * (u64::MAX as int)) by (nonlinear_arith)
            requires n <= usize::MAX;
        assert((usize::MAX as int) * (u64::MAX as int) <= u128::MAX) by (nonlinear_arith)
            requires usize::MAX <= u64::MAX;
    }

    /// Removes the coldest entries, one at a time, while `base` plus the
    /// cache's bytes is over `limit` and entries are left.
    pub fn evict_coldest_over(&mut self, base: u128, limit: u128) -> (r: (u64, u128))
        requires
            old(self).wf(),
        ensures
            final(self).wf(),
            base + final(self).cache.total() <= limit || final(self).cache.entries@.len() == 0,
            base + old(self).cache.total() <= limit ==> *final(self) == *old(self),
            evicted_coldest_first(old(self).cache.entries@, final(self).cache.entries@),
            r.0 == old(self).cache.entries@.len() - final(self).cache.entries@.len(),
            r.1 == old(self).cache.total() - final(self).cache.total(),
            final(self).catalog == old(self).catalog,
            final(self).reservations == old(self).reservations,
            final(self).config == old(self).config,
            queued_removed(old(self).pending_deletes@, final(self).pending_deletes@, old(self).cache.entries@, final(self).cache.entries@),
            // It stops as soon as it is within the limit: the last entry it
            // removed was still needed.
            *final(self) == *old(self) || exists|i: int| 0 <= i < old(self).cache.entries@.len()
                && !final(self).cache.entries@.contains(old(self).cache.entries@[i])
                && base + final(self).cache.total() + old(self).cache.entries@[i].size > limit,
    {
        let ghost start = *self;
        let ghost olds = self.cache.entries@;
        let ghost sp = self.pending_deletes@.len() as int;
        let stats = self.cache.stats(None);
        let mut total: u128 = stats.total_bytes;
        let mut removed: u64 = 0;
        let mut freed: u128 = 0;
        let count = self.cache.entries.len();
        proof {
            assert(olds.len() == count);
            start.lemma_cache_total_fits();
            assert forall|j: int| 0 <= j < olds.len() implies olds.contains(#[trigger] olds[j]) by {}
        }
        while (base > limit || total > limit - base) && self.cache.entries.len() > 0
            invariant
                self.wf(),
                olds == start.cache.entries@,
                olds.len() <= usize::MAX,
                start.cache.total() <= u128::MAX,
                total == self.cache.total(),
                removed + self.cache.entries@.len() == olds.len(),
                freed + total == start.cache.total(),
                self.catalog == start.catalog,
                self.reservations == start.reservations,
                self.config == start.config,
                evicted_coldest_first(olds, self.cache.entries@),
                removed == 0 ==> *self == start,
                base + start.cache.total() <= limit ==> removed == 0,
                sp == start.pending_deletes@.len(),
                self.pending_deletes@.len() == sp + removed,
                self.pending_deletes@.subrange(0, sp) == start.pending_deletes@,
                forall|j: int| sp <= j < self.pending_deletes@.len() ==>
                    #[trigger] removed_path(olds, self.cache.entries@, self.pending_deletes@[j]),
                removed == 0 || exists|i: int| 0 <= i < olds.len() && !self.cache.entries@.contains(olds[i])
                    && base + total + olds[i].size > limit,
            decreases self.cache.entries@.len(),
        {
            let ghost pre = *self;
            let ghost cur = self.cache.entries@;
            if let Some(m) = self.cache.coldest() {
            let e = self.evict_at(m);
            proof {
                assert(self.cache.charges() =~= pre.cache.charges().remove(m as int));
                crate::accounting::lemma_remove(pre.cache.charges(), m as int, 0);
                crate::accounting::lemma_bounds(self.cache.charges(), 0);
                assert(pre.cache.charges()[m as int].1 == e.size);
                let now_s = self.cache.entries@;
                assert(now_s =~= cur.remove(m as int));
                assert forall|j: int| 0 <= j < now_s.len() implies olds.contains(#[trigger] now_s[j]) by {
                    let j0 = if j < m { j } else { j + 1 };
                    assert(now_s[j] == cur[j0]);
                }
                assert forall|i: int, j: int| 0 <= i < olds.len() && !now_s.contains(olds[i]) && 0 <= j < now_s.len()
                    implies colder_eq(#[trigger] olds[i], #[trigger] now_s[j]) by {
                    let j0 = if j < m { j } else { j + 1 };
                    assert(now_s[j] == cur[j0]);
                    if cur.contains(olds[i]) {
                        let x = choose|x: int| 0 <= x < cur.len() && cur[x] == olds[i];
                        if x != m {
                            let x1 = if x < m { x } else { x - 1 };
                            assert(now_s[x1] == cur[x]);
                        }
                        assert(colder_eq(cur[m as int], cur[j0]));
                    }
                }
                // The removed entry is gone for good: keys are unique.
                assert(!now_s.contains(e)) by {
                    if now_s.contains(e) {
                        let y = choose|y: int| 0 <= y < now_s.len() && now_s[y] == e;
                        let y0 = if y < m { y } else { y + 1 };
                        assert(now_s[y] == cur[y0]);
                        assert(cur[y0].cache_key@ == cur[m as int].cache_key@);
                    }
                }
                assert(olds.contains(cur[m as int]));
                let xe = choose|x: int| 0 <= x < olds.len() && olds[x] == cur[m as int];
                assert(self.pending_deletes@.subrange(0, sp) =~= pre.pending_deletes@.subrange(0, sp));
                assert forall|j: int| sp <= j < self.pending_deletes@.len() implies
                    #[trigger] removed_path(olds, now_s, self.pending_deletes@[j]) by {
                    if j < pre.pending_deletes@.len() {
                        assert(self.pending_deletes@[j] == pre.pending_deletes@[j]);
                        assert(removed_path(olds, cur, pre.pending_deletes@[j]));
                        let i = choose|i: int| 0 <= i < olds.len() && !cur.contains(olds[i])
                            && pre.pending_deletes@[j] == olds[i].file_path;
                        if now_s.contains(olds[i]) {
                            let y = choose|y: int| 0 <= y < now_s.len() && now_s[y] == olds[i];
                            let y0 = if y < m { y } else { y + 1 };
                            assert(now_s[y] == cur[y0]);
                        }
                    } else {
                        assert(self.pending_deletes@[j] == e.file_path);
                        assert(!now_s.contains(olds[xe]));
                    }
                }
                assert(!now_s.contains(olds[xe]) && base + (total - e.size) + olds[xe].size > limit);
            }
            total = total - e.size as u128;
            removed = removed + 1;
            freed = freed + e.size as u128;
            }
        }
        (removed, freed)
    }

    fn summary(&self, removed: u64, freed: u128) -> (r: CleanupResult)
        ensures
            r.removed_count == removed,
            r.freed_bytes == freed,
            r.remaining_count == self.cache.entries@.len(),
            r.remaining_bytes == self.cache.total(),
    {
        let stats = self.cache.stats(None);
        CleanupResult {
            removed_count: removed,
            freed_bytes: freed,
            remaining_count: stats.entry_count,
            remaining_bytes: stats.total_bytes,
        }
    }

    /// Multiplies every heat score by the configured decay factor. Entries
    /// are not removed; returns how many were updated.
    pub fn decay(&mut self) -> (r: usize)
        requires
            old(self).wf(),
        ensures
            final(self).wf(),
            r == old(self).cache.entries@.len(),
            final(self).cache.entries@.len() == old(self).cache.entries@.len(),
            forall|i: int| 0 <= i < old(self).cache.entries@.len() ==> {
                let o = #[trigger] old(self).cache.entries@[i];
                final(self).cache.entries@[i] == CacheEntry { heat: decayed(o.heat, old(self).config.decay_num, old(self).config.decay_den), ..o }
            },
            forall|i: int| 0 <= i < old(self).cache.entries@.len() ==>
                #[trigger] final(self).cache.entries@[i].heat <= old(self).cache.entries@[i].heat,
            final(self).catalog == old(self).catalog,
            final(self).tokens == old(self).tokens,
            final(self).reservations == old(self).reservations,
            final(self).config == old(self).config,
            final(self).pending_deletes == old(self).pending_deletes,
    {
        let ghost before = *self;
        let r = self.cache.decay(self.config.decay_num, self.config.decay_den);
        proof {
            assert forall|i: int| 0 <= i < self.cache.entries@.len() implies
                crate::store::has_original(self.catalog.records@, #[trigger] self.cache.entries@[i]) by {
                assert(crate::store::has_original(before.catalog.records@, before.cache.entries@[i]));
                let j = choose|j: int| 0 <= j < before.catalog.records@.len()
                    && before.catalog.records@[j].hash@ == before.cache.entries@[i].original_hash@
                    && before.catalog.records@[j].owner_token_id == before.cache.entries@[i].owner_token_id;
                assert(self.catalog.records@[j].hash@ == self.cache.entries@[i].original_hash@);
            }
            assert forall|k: int| 0 <= k < self.tokens.tokens@.len() implies
                (#[trigger] self.tokens.tokens@[k]).used_upload_size == self.charged(self.tokens.tokens@[k].id) by {
                assert(before.tokens.tokens@[k] == self.tokens.tokens@[k]);
            }
        }
        r
    }

    /// Removes every cache entry; original objects are untouched.
    pub fn clear_cache(&mut self) -> (r: CleanupResult)
        requires
            old(self).wf(),
        ensures
            final(self).wf(),
            final(self).cache.entries@.len() == 0,
            r == (CleanupResult {
                removed_count: old(self).cache.entries@.len() as u64,
                freed_bytes: old(self).cache.total() as u128,
                remaining_count: 0,
                remaining_bytes: 0,
            }),
            final(self).catalog == old(self).catalog,
            final(self).reservations == old(self).reservations,
            queued_removed(old(self).pending_deletes@, final(self).pending_deletes@, old(self).cache.entries@, final(self).cache.entries@),
    {
        let ghost before = *self;
        let (removed, freed) = self.evict_matching(&EvictRule::All);
        proof {
            let f = before.cache.entries@.filter(survives(EvictRule::All));
            broadcast use vstd::seq_lib::group_filter_ensures;
            if f.len() > 0 {
                assert(survives(EvictRule::All)(f[0]));
            }
            assert(self.cache.charges() =~= Seq::<crate::accounting::Charge>::empty());
        }
        self.summary(removed, freed)
    }

    /// Removes the entries created more than `max_age` seconds before `now`
    /// (when given), then, while the cache holds more than `max_size` bytes
    /// (when given), the coldest entries.
    pub fn cleanup(&mut self, max_age: Option<u64>, max_size: Option<u64>, now: i64) -> (r: CleanupResult)
        requires
            old(self).wf(),
        ensures
            final(self).wf(),
            max_size is None ==> final(self).cache.entries@ == age_survivors(old(self).cache.entries@, max_age, now),
            max_size matches Some(m) ==> {
                let kept = age_survivors(old(self).cache.entries@, max_age, now);
                &&& final(self).cache.total() <= m
                &&& evicted_coldest_first(kept, final(self).cache.entries@)
                // Nothing more goes when the survivors fit the budget...
                &&& entries_total(kept) <= m ==> final(self).cache.entries@ == kept
                // ...and removal stops once within it.
                &&& final(self).cache.entries@ == kept || exists|i: int| 0 <= i < kept.len()
                    && !final(self).cache.entries@.contains(kept[i]) && final(self).cache.total() + kept[i].size > m
            },
            queued_removed(old(self).pending_deletes@, final(self).pending_deletes@, old(self).cache.entries@, final(self).cache.entries@),
            r.removed_count == old(self).cache.entries@.len() - final(self).cache.entries@.len(),
            r.freed_bytes == old(self).cache.total() - final(self).cache.total(),
            r.remaining_count == final(self).cache.entries@.len(),
            r.remaining_bytes == final(self).cache.total(),
            final(self).catalog == old(self).catalog,
            final(self).reservations == old(self).reservations,
    {
        let mut removed: u64 = 0;
        let mut freed: u128 = 0;
        // The entry count fits a usize, which bounds the byte totals below.
        let _count = self.cache.entries.len();
        let ghost before = *self;
        proof {
            self.lemma_cache_total_fits();
        }
        match max_age {
            Some(a) => {
                let (n, b) = self.evict_matching(&EvictRule::OlderThan { now, max_age: a });
                removed = n;
                freed = b;
            },
            None => {
                proof {
                    assert(self.pending_deletes@.subrange(0, self.pending_deletes@.len() as int) =~= self.pending_deletes@);
                    assert forall|j: int| 0 <= j < self.cache.entries@.len()
                        implies self.cache.entries@.contains(#[trigger] self.cache.entries@[j]) by {}
                }
            },
        }
        let ghost mid = *self;
        proof {
            assert(mid.cache.entries@ == age_survivors(before.cache.entries@, max_age, now));
            assert(mid.cache.charges() =~= mid.cache.entries@.map_values(|e: CacheEntry| crate::cache::entry_charge(e)));
        }
        match max_size {
            Some(m) => {
                let (n, b) = self.evict_coldest_over(0, m as u128);
                proof {
                    lemma_queued_compose(before.pending_deletes@, mid.pending_deletes@, self.pending_deletes@,
                        before.cache.entries@, mid.cache.entries@, self.cache.entries@);
                    crate::accounting::lemma_bounds(self.cache.charges(), 0);
                    crate::accounting::lemma_bounds(mid.cache.charges(), 0);
                    assert(removed + n <= before.cache.entries@.len());
                }
                removed = removed + n;
                freed = freed + b;
                if self.cache.entries.len() == 0 {
                    proof {
                        assert(self.cache.charges() =~= Seq::<crate::accounting::Charge>::empty());
                    }
                }
            },
            None => {},
        }
        self.summary(removed, freed)
    }

    /// Cleans up only when storage usage has reached the trigger threshold;
    /// then removes the coldest entries until usage is at or below the target
    /// threshold or the cache is empty.
    pub fn auto_cleanup(&mut self) -> (r: CleanupResult)
        requires
            old(self).wf(),
        ensures
            final(self).wf(),
            usage(old(self)) < trigger_bytes(old(self)) ==> *final(self) == *old(self) && r.removed_count == 0,
            usage(final(self)) <= target_bytes(old(self)) || final(self).cache.entries@.len() == 0
                || usage(old(self)) < trigger_bytes(old(self)),
            // Removal stops once usage is at or below the target.
            *final(self) == *old(self) || exists|i: int| 0 <= i < old(self).cache.entries@.len()
                && !final(self).cache.entries@.contains(old(self).cache.entries@[i])
                && usage(final(self)) + old(self).cache.entries@[i].size > target_bytes(old(self)),
            queued_removed(old(self).pending_deletes@, final(self).pending_deletes@, old(self).cache.entries@, final(self).cache.entries@),
            evicted_coldest_first(old(self).cache.entries@, final(self).cache.entries@),
            r.removed_count == old(self).cache.entries@.len() - final(self).cache.entries@.len(),
            r.freed_bytes == old(self).cache.total() - final(self).cache.total(),
            r.remaining_count == final(self).cache.entries@.len(),
            r.remaining_bytes == final(self).cache.total(),
            final(self).catalog == old(self).catalog,
            final(self).reservations == old(self).reservations,
            final(self).config == old(self).config,
    {
        let objects = self.catalog.aggregate_stats(None).total_bytes;
        let cached = self.cache.stats(None).total_bytes;
        let cap = self.config.capacity_bytes as u128;
        proof {
            assert((self.config.capacity_bytes as int) * (self.config.trigger_percent as int) <= (u64::MAX as int) * 100) by (nonlinear_arith)
                requires self.config.trigger_percent <= 100;
            assert((self.config.capacity_bytes as int) * (self.config.target_percent as int) <= (u64::MAX as int) * 100) by (nonlinear_arith)
                requires self.config.target_percent <= 100;
        }
        let trigger = (cap * self.config.trigger_percent as u128 + 99) / 100;
        let target = (cap * self.config.target_percent as u128) / 100;
        if objects < trigger && cached < trigger - objects {
            proof {
                assert(self.pending_deletes@.subrange(0, self.pending_deletes@.len() as int) =~= self.pending_deletes@);
            }
            return self.summary(0, 0);
        }
        let (n, b) = self.evict_coldest_over(objects, target);
        proof {
            crate::accounting::lemma_bounds(self.cache.charges(), 0);
        }
        self.summary(n, b)
    }
}

} // verus!
