//! The index of derived artifacts (resized or transformed variants), each
//! with a heat score that hits raise and decay lowers.
use crate::accounting::{owned_bytes, owned_count, total_bytes, Charge, lemma_bounds, lemma_prefix};
use crate::error::StoreError;
use crate::text::same_text;
use vstd::prelude::*;

verus! {

/// Heat is kept in thousandths of a hit; a hit adds one whole unit.
pub const HEAT_PER_HIT: u64 = 1000;

#[derive(Clone, Debug)]
pub struct CacheEntry {
    pub cache_key: String,
    pub original_hash: String,
    /// Where the artifact's bytes are stored, relative to the storage root.
    pub file_path: String,
    pub size: u64,
    /// Thousandths of a hit.
    pub heat: u64,
    pub created_at: i64,
    pub last_hit: Option<i64>,
    pub owner_token_id: Option<i32>,
}

impl CacheEntry {
    pub fn duplicate(&self) -> (r: CacheEntry)
        ensures
            r == *self,
    {
        CacheEntry {
            cache_key: self.cache_key.clone(),
            original_hash: self.original_hash.clone(),
            file_path: self.file_path.clone(),
            size: self.size,
            heat: self.heat,
            created_at: self.created_at,
            last_hit: self.last_hit,
            owner_token_id: self.owner_token_id,
        }
    }
}

pub open spec fn entry_charge(e: CacheEntry) -> Charge {
    (e.owner_token_id, e.size)
}

/// When the entry was last used: its last hit, or its creation.
pub open spec fn last_touch(e: CacheEntry) -> i64 {
    match e.last_hit {
        Some(t) => t,
        None => e.created_at,
    }
}

/// Eviction order: lower heat first, then the longer unused.
pub open spec fn colder_eq(a: CacheEntry, b: CacheEntry) -> bool {
    a.heat < b.heat || (a.heat == b.heat && last_touch(a) <= last_touch(b))
}

/// The entry after a hit at `now`: one more unit of heat (saturating) and
/// the hit time stamped.
pub open spec fn bumped(o: CacheEntry, now: i64) -> CacheEntry {
    CacheEntry {
        heat: if o.heat > u64::MAX - HEAT_PER_HIT { u64::MAX } else { (o.heat + HEAT_PER_HIT) as u64 },
        last_hit: Some(now),
        ..o
    }
}

/// Heat after one decay step by `num / den`.
pub open spec fn decayed(heat: u64, num: u64, den: u64) -> u64 {
    ((heat as int * num as int) / (den as int)) as u64
}

/// Count and size of the cache.
#[derive(Clone, Copy, Debug, PartialEq, Eq, Structural)]
pub struct CacheStats {
    pub entry_count: u64,
    pub total_bytes: u128,
}

pub struct CacheIndex {
    pub entries: Vec<CacheEntry>,
}

impl CacheIndex {
    pub open spec fn charges(&self) -> Seq<Charge> {
        self.entries@.map_values(|e: CacheEntry| entry_charge(e))
    }

    /// Keys are unique.
    pub open spec fn wf(&self) -> bool {
        forall|i: int, j: int|
            0 <= i < self.entries@.len() && 0 <= j < self.entries@.len() && i != j
                ==> self.entries@[i].cache_key@ != self.entries@[j].cache_key@
    }

    pub open spec fn has_key(&self, k: Seq<char>) -> bool {
        exists|i: int| 0 <= i < self.entries@.len() && self.entries@[i].cache_key@ == k
    }

    pub open spec fn total(&self) -> int {
        total_bytes(self.charges())
    }

    pub fn new() -> (r: Self)
        ensures
            r.wf(),
            r.entries@.len() == 0,
    {
        CacheIndex { entries: Vec::new() }
    }

    pub fn position(&self, key: &str) -> (r: Option<usize>)
        ensures
            match r {
                Some(i) => i < self.entries@.len() && self.entries@[i as int].cache_key@ == key@,
                None => !self.has_key(key@),
            },
    {
        let mut i: usize = 0;
        while i < self.entries.len()
            invariant
                i <= self.entries@.len(),
                forall|k: int| 0 <= k < i ==> self.entries@[k].cache_key@ != key@,
            decreases self.entries@.len() - i,
        {
            if same_text(self.entries[i].cache_key.as_str(), key) {
                return Some(i);
            }
            i = i + 1;
        }
        None
    }

    /// The entry stored under `key`.
    pub fn find(&self, key: &str) -> (r: Option<CacheEntry>)
        ensures
            match r {
                Some(e) => e.cache_key@ == key@ && self.entries@.contains(e),
                None => !self.has_key(key@),
            },
    {
        match self.position(key) {
            Some(i) => {
                let e = self.entries[i].duplicate();
                assert(self.entries@[i as int] == e);
                Some(e)
            },
            None => None,
        }
    }

    /// Adds an entry; one with the same key already there is a conflict.
    pub fn insert(&mut self, e: CacheEntry) -> (r: Result<(), StoreError>)
        requires
            old(self).wf(),
        ensures
            final(self).wf(),
            old(self).has_key(e.cache_key@) ==> r == Err::<(), StoreError>(StoreError::Conflict) && *final(self) == *old(self),
            !old(self).has_key(e.cache_key@) ==> r is Ok && final(self).entries@ == old(self).entries@.push(e),
    {
        match self.position(e.cache_key.as_str()) {
            Some(_) => Err(StoreError::Conflict),
            None => {
                self.entries.push(e);
                Ok(())
            },
        }
    }

    /// Removes the entry at `i`.
    pub fn remove_at(&mut self, i: usize) -> (r: CacheEntry)
        requires
            old(self).wf(),
            i < old(self).entries@.len(),
        ensures
            final(self).wf(),
            r == old(self).entries@[i as int],
            final(self).entries@ == old(self).entries@.remove(i as int),
    {
        let r = self.entries.remove(i);
        assert forall|a: int, b: int|
            0 <= a < self.entries@.len() && 0 <= b < self.entries@.len() && a != b
                implies self.entries@[a].cache_key@ != self.entries@[b].cache_key@ by {
            let a0 = if a < i { a } else { a + 1 };
            let b0 = if b < i { b } else { b + 1 };
            assert(self.entries@[a] == old(self).entries@[a0]);
            assert(self.entries@[b] == old(self).entries@[b0]);
        }
        r
    }

    /// A hit: heat rises by one unit (saturating) and the hit time is stamped.
    /// Returns whether the entry exists.
    pub fn bump_heat(&mut self, key: &str, now: i64) -> (r: bool)
        requires
            old(self).wf(),
        ensures
            final(self).wf(),
            r == old(self).has_key(key@),
            final(self).charges() == old(self).charges(),
            !r ==> *final(self) == *old(self),
            forall|i: int| 0 <= i < old(self).entries@.len() && old(self).entries@[i].cache_key@ == key@ ==>
                final(self).entries@ == old(self).entries@.update(i, bumped(old(self).entries@[i], now)),
    {
        match self.position(key) {
            Some(i) => {
                let h = self.entries[i].heat;
                let new_heat = if h > u64::MAX - HEAT_PER_HIT { u64::MAX } else { h + HEAT_PER_HIT };
                self.entries[i].heat = new_heat;
                self.entries[i].last_hit = Some(now);
                assert forall|j: int| 0 <= j < old(self).entries@.len() && old(self).entries@[j].cache_key@ == key@ implies j == i by {}
                assert(final(self).charges() =~= old(self).charges());
                true
            },
            None => false,
        }
    }

    /// Multiplies every heat by `num / den`, rounding down. Entries are never
    /// removed here. Returns how many entries were updated (all of them).
    pub fn decay(&mut self, num: u64, den: u64) -> (r: usize)
        requires
            old(self).wf(),
            0 < num < den,
        ensures
            final(self).wf(),
            r == old(self).entries@.len(),
            final(self).charges() == old(self).charges(),
            final(self).entries@.len() == old(self).entries@.len(),
            forall|i: int| 0 <= i < old(self).entries@.len() ==> {
                let o = #[trigger] old(self).entries@[i];
                final(self).entries@[i] == CacheEntry { heat: decayed(o.heat, num, den), ..o }
            },
            forall|i: int| 0 <= i < old(self).entries@.len() ==>
                #[trigger] final(self).entries@[i].heat <= old(self).entries@[i].heat,
    {
        let n = self.entries.len();
        let mut i: usize = 0;
        while i < n
            invariant
                0 < num < den,
                n == old(self).entries@.len(),
                self.entries@.len() == n,
                i <= n,
                forall|k: int| 0 <= k < i ==> {
                    let o = #[trigger] old(self).entries@[k];
                    self.entries@[k] == CacheEntry { heat: decayed(o.heat, num, den), ..o }
                },
                forall|k: int| i <= k < n ==> #[trigger] self.entries@[k] == old(self).entries@[k],
            decreases n - i,
        {
            let h = self.entries[i].heat;
            assert((h as int) * (num as int) <= (u64::MAX as int) * (u64::MAX as int)) by (nonlinear_arith)
                requires h <= u64::MAX, num <= u64::MAX;
            let prod: u128 = (h as u128) * (num as u128);
            let q: u128 = prod / (den as u128);
            proof {
                assert((h as int) * (num as int) <= (h as int) * (den as int)) by (nonlinear_arith)
                    requires num < den;
                assert(q <= h) by (nonlinear_arith)
                    requires q == prod / (den as u128), prod == (h as int) * (num as int), (h as int) * (num as int) <= (h as int) * (den as int), den > 0;
            }
            self.entries[i].heat = q as u64;
            i = i + 1;
        }
        assert forall|i: int| 0 <= i < n implies #[trigger] self.entries@[i].heat <= old(self).entries@[i].heat by {
            let h = old(self).entries@[i].heat;
            assert((h as int) * (num as int) / (den as int) <= h) by (nonlinear_arith)
                requires 0 < num < den;
        }
        assert(self.charges() =~= old(self).charges());
        assert forall|a: int, b: int|
            0 <= a < self.entries@.len() && 0 <= b < self.entries@.len() && a != b
                implies self.entries@[a].cache_key@ != self.entries@[b].cache_key@ by {
            assert(self.entries@[a].cache_key == old(self).entries@[a].cache_key);
            assert(self.entries@[b].cache_key == old(self).entries@[b].cache_key);
        }
        n
    }

    /// Index of an entry that is colder than or as cold as every other.
    pub fn coldest(&self) -> (r: Option<usize>)
        ensures
            self.entries@.len() == 0 <==> r is None,
            match r {
                Some(m) => m < self.entries@.len() && forall|k: int|
                    0 <= k < self.entries@.len() ==> colder_eq(self.entries@[m as int], #[trigger] self.entries@[k]),
                None => true,
            },
    {
        if self.entries.len() == 0 {
            return None;
        }
        let mut m: usize = 0;
        let mut j: usize = 1;
        while j < self.entries.len()
            invariant
                m < j <= self.entries@.len(),
                forall|k: int| 0 <= k < j ==> colder_eq(self.entries@[m as int], #[trigger] self.entries@[k]),
            decreases self.entries@.len() - j,
        {
            let a = &self.entries[j];
            let b = &self.entries[m];
            let ta = match a.last_hit { Some(t) => t, None => a.created_at };
            let tb = match b.last_hit { Some(t) => t, None => b.created_at };
            if a.heat < b.heat || (a.heat == b.heat && ta < tb) {
                m = j;
            }
            j = j + 1;
        }
        Some(m)
    }

    /// Count and size of the cache, or of one owner's part of it.
    pub fn stats(&self, owner: Option<i32>) -> (r: CacheStats)
        ensures
            match owner {
                Some(t) => r.entry_count == owned_count(self.charges(), t) && r.total_bytes == owned_bytes(self.charges(), t),
                None => r.entry_count == self.entries@.len() && r.total_bytes == self.total(),
            },
    {
        let ghost c = self.charges();
        let ghost t: i32 = match owner { Some(t) => t, None => 0 };
        let mut count: u64 = 0;
        let mut bytes: u128 = 0;
        let mut i: usize = 0;
        while i < self.entries.len()
            invariant
                i <= self.entries@.len(),
                c == self.charges(),
                c.len() == self.entries@.len(),
                count <= i,
                owner is Some ==> owner == Some(t),
                match owner {
                    Some(t) => count == owned_count(c.subrange(0, i as int), t) && bytes == owned_bytes(c.subrange(0, i as int), t),
                    None => count == i && bytes == total_bytes(c.subrange(0, i as int)),
                },
            decreases self.entries@.len() - i,
        {
            proof {
                lemma_prefix(c, i as int, t);
                lemma_bounds(c.subrange(0, i as int), t);
                assert((i as int) * (u64::MAX as int) <= (usize::MAX as int) * (u64::MAX as int)) by (nonlinear_arith)
                    requires i <= usize::MAX;
            }
            let e = &self.entries[i];
            let counted = match owner {
                Some(t) => e.owner_token_id == Some(t),
                None => true,
            };
            if counted {
                count = count + 1;
                bytes = bytes + e.size as u128;
            }
            i = i + 1;
        }
        assert(c.subrange(0, c.len() as int) =~= c);
        CacheStats { entry_count: count, total_bytes: bytes }
    }
}

} // verus!
