//! The content catalog: object records keyed by content hash.
use crate::accounting::{owned_bytes, owned_count, total_bytes, Charge, lemma_bounds, lemma_prefix};
use crate::error::StoreError;
use crate::text::same_text;
use vstd::prelude::*;

verus! {

/// An uploaded object.
#[derive(Clone, Debug)]
pub struct ObjectRecord {
    /// Hex digest of the bytes salted with the owner's id; the primary key.
    pub hash: String,
    pub size: u64,
    pub mime_type: String,
    /// `None` for anonymous uploads.
    pub owner_token_id: Option<i32>,
    pub created_at: i64,
    pub last_accessed: Option<i64>,
    pub access_count: u64,
    pub original_filename: Option<String>,
    pub extension: String,
}

impl ObjectRecord {
    /// A field-by-field copy.
    pub fn duplicate(&self) -> (r: ObjectRecord)
        ensures
            r == *self,
    {
        let original_filename = match &self.original_filename {
            Some(n) => Some(n.clone()),
            None => None,
        };
        ObjectRecord {
            hash: self.hash.clone(),
            size: self.size,
            mime_type: self.mime_type.clone(),
            owner_token_id: self.owner_token_id,
            created_at: self.created_at,
            last_accessed: self.last_accessed,
            access_count: self.access_count,
            original_filename,
            extension: self.extension.clone(),
        }
    }
}

pub open spec fn record_charge(r: ObjectRecord) -> Charge {
    (r.owner_token_id, r.size)
}

/// Whether an owner filter admits a record.
pub open spec fn owner_matches(owner: Option<i32>, r: ObjectRecord) -> bool {
    match owner {
        Some(t) => r.owner_token_id == Some(t),
        None => true,
    }
}

/// Count and size of a set of objects.
#[derive(Clone, Copy, Debug, PartialEq, Eq, Structural)]
pub struct ObjectStats {
    pub count: u64,
    pub total_bytes: u128,
}

pub struct ContentCatalog {
    pub records: Vec<ObjectRecord>,
}

impl ContentCatalog {
    pub open spec fn charges(&self) -> Seq<Charge> {
        self.records@.map_values(|r: ObjectRecord| record_charge(r))
    }

    /// No two records share a hash.
    pub open spec fn wf(&self) -> bool {
        forall|i: int, j: int|
            0 <= i < self.records@.len() && 0 <= j < self.records@.len() && i != j
                ==> self.records@[i].hash@ != self.records@[j].hash@
    }

    pub open spec fn has_hash(&self, h: Seq<char>) -> bool {
        exists|i: int| 0 <= i < self.records@.len() && self.records@[i].hash@ == h
    }

    pub fn new() -> (r: Self)
        ensures
            r.wf(),
            r.records@.len() == 0,
    {
        ContentCatalog { records: Vec::new() }
    }

    pub fn position(&self, hash: &str) -> (r: Option<usize>)
        ensures
            match r {
                Some(i) => i < self.records@.len() && self.records@[i as int].hash@ == hash@,
                None => !self.has_hash(hash@),
            },
    {
        let mut i: usize = 0;
        while i < self.records.len()
            invariant
                i <= self.records@.len(),
                forall|k: int| 0 <= k < i ==> self.records@[k].hash@ != hash@,
            decreases self.records@.len() - i,
        {
            if same_text(self.records[i].hash.as_str(), hash) {
                return Some(i);
            }
            i = i + 1;
        }
        None
    }

    /// Position of the first record owned by `owner`.
    pub fn first_owned_by(&self, owner: i32) -> (r: Option<usize>)
        ensures
            match r {
                Some(i) => i < self.records@.len() && self.records@[i as int].owner_token_id == Some(owner),
                None => forall|i: int| 0 <= i < self.records@.len() ==> (#[trigger] self.records@[i]).owner_token_id != Some(owner),
            },
    {
        let mut i: usize = 0;
        while i < self.records.len()
            invariant
                i <= self.records@.len(),
                forall|k: int| 0 <= k < i ==> (#[trigger] self.records@[k]).owner_token_id != Some(owner),
            decreases self.records@.len() - i,
        {
            if self.records[i].owner_token_id == Some(owner) {
                return Some(i);
            }
            i = i + 1;
        }
        None
    }

    /// The record stored under `hash`.
    pub fn find_by_hash(&self, hash: &str) -> (r: Option<ObjectRecord>)
        requires
            self.wf(),
        ensures
            match r {
                Some(rec) => rec.hash@ == hash@ && self.records@.contains(rec),
                None => !self.has_hash(hash@),
            },
    {
        match self.position(hash) {
            Some(i) => {
                let rec = self.records[i].duplicate();
                assert(self.records@[i as int] == rec);
                Some(rec)
            },
            None => None,
        }
    }

    /// Adds a record; a record with the same hash already there is a conflict
    /// and leaves the catalog as it was.
    pub fn insert(&mut self, rec: ObjectRecord) -> (r: Result<(), StoreError>)
        requires
            old(self).wf(),
        ensures
            final(self).wf(),
            old(self).has_hash(rec.hash@) ==> r == Err::<(), StoreError>(StoreError::Conflict) && *final(self) == *old(self),
            !old(self).has_hash(rec.hash@) ==> r is Ok && final(self).records@ == old(self).records@.push(rec),
    {
        match self.position(rec.hash.as_str()) {
            Some(_) => Err(StoreError::Conflict),
            None => {
                self.records.push(rec);
                Ok(())
            },
        }
    }

    /// Removes and returns the record stored under `hash`.
    pub fn delete_by_hash(&mut self, hash: &str) -> (r: Result<ObjectRecord, StoreError>)
        requires
            old(self).wf(),
        ensures
            final(self).wf(),
            !old(self).has_hash(hash@) ==> r == Err::<ObjectRecord, StoreError>(StoreError::NotFound) && *final(self) == *old(self),
            old(self).has_hash(hash@) ==> exists|i: int|
                0 <= i < old(self).records@.len() && old(self).records@[i].hash@ == hash@
                    && r == Ok::<ObjectRecord, StoreError>(old(self).records@[i])
                    && final(self).records@ == old(self).records@.remove(i),
    {
        match self.position(hash) {
            Some(i) => {
                let rec = self.records.remove(i);
                assert(final(self).wf()) by {
                    assert forall|a: int, b: int|
                        0 <= a < self.records@.len() && 0 <= b < self.records@.len() && a != b
                            implies self.records@[a].hash@ != self.records@[b].hash@ by {
                        let a0 = if a < i { a } else { a + 1 };
                        let b0 = if b < i { b } else { b + 1 };
                        assert(self.records@[a] == old(self).records@[a0]);
                        assert(self.records@[b] == old(self).records@[b0]);
                    }
                }
                Ok(rec)
            },
            None => Err(StoreError::NotFound),
        }
    }

    /// Counts an access: bumps the counter (saturating) and stamps the time.
    /// Returns whether the object exists.
    pub fn touch_access(&mut self, hash: &str, now: i64) -> (r: bool)
        requires
            old(self).wf(),
        ensures
            final(self).wf(),
            r == old(self).has_hash(hash@),
            final(self).charges() == old(self).charges(),
            !r ==> *final(self) == *old(self),
            forall|i: int| 0 <= i < old(self).records@.len() && old(self).records@[i].hash@ == hash@ ==> {
                let o = old(self).records@[i];
                final(self).records@ == old(self).records@.update(
                    i,
                    ObjectRecord {
                        last_accessed: Some(now),
                        access_count: if o.access_count == u64::MAX { o.access_count } else { (o.access_count + 1) as u64 },
                        ..o
                    },
                )
            },
    {
        match self.position(hash) {
            Some(i) => {
                let c = self.records[i].access_count;
                self.records[i].last_accessed = Some(now);
                if c < u64::MAX {
                    self.records[i].access_count = c + 1;
                }
                assert forall|j: int| 0 <= j < old(self).records@.len() && old(self).records@[j].hash@ == hash@ implies j == i by {}
                assert(final(self).charges() =~= old(self).charges());
                true
            },
            None => false,
        }
    }

    /// The records that an owner filter admits, in catalog order.
    pub open spec fn filtered(&self, owner: Option<i32>) -> Seq<ObjectRecord> {
        self.records@.filter(|r: ObjectRecord| owner_matches(owner, r))
    }

    /// One page of the records that `owner` admits, and how many it admits.
    pub fn query(&self, owner: Option<i32>, offset: usize, limit: usize) -> (r: (Vec<ObjectRecord>, usize))
        ensures
            r.1 == self.filtered(owner).len(),
            r.0@ == self.filtered(owner).subrange(
                if offset < r.1 { offset as int } else { r.1 as int },
                if offset < r.1 && limit < r.1 - offset { offset + limit } else { r.1 as int },
            ),
    {
        let ghost all = self.records@;
        let ghost pred = |r: ObjectRecord| owner_matches(owner, r);
        let mut matched: Vec<ObjectRecord> = Vec::new();
        let mut i: usize = 0;
        while i < self.records.len()
            invariant
                i <= all.len(),
                all == self.records@,
                pred == (|r: ObjectRecord| owner_matches(owner, r)),
                matched@ == all.subrange(0, i as int).filter(pred),
            decreases all.len() - i,
        {
            let ghost before = all.subrange(0, i as int);
            assert(all.subrange(0, i + 1) =~= before.push(all[i as int]));
            assert(before.push(all[i as int]).drop_last() =~= before);
            proof {
                reveal(Seq::filter);
            }
            let keep = match owner {
                Some(t) => self.records[i].owner_token_id == Some(t),
                None => true,
            };
            if keep {
                matched.push(self.records[i].duplicate());
            }
            i = i + 1;
        }
        assert(all.subrange(0, all.len() as int) =~= all);
        let total = matched.len();
        let start = if offset < total { offset } else { total };
        let end = if offset < total && limit < total - offset { offset + limit } else { total };
        let mut page: Vec<ObjectRecord> = Vec::new();
        let mut k: usize = start;
        while k < end
            invariant
                start <= k <= end <= total,
                total == matched@.len(),
                page@ == matched@.subrange(start as int, k as int),
            decreases end - k,
        {
            page.push(matched[k].duplicate());
            k = k + 1;
            assert(page@ =~= matched@.subrange(start as int, k as int));
        }
        (page, total)
    }

    /// Count and bytes of the objects that `owner` admits.
    pub fn aggregate_stats(&self, owner: Option<i32>) -> (r: ObjectStats)
        ensures
            match owner {
                Some(t) => r.count == owned_count(self.charges(), t) && r.total_bytes == owned_bytes(self.charges(), t),
                None => r.count == self.records@.len() && r.total_bytes == total_bytes(self.charges()),
            },
    {
        let ghost c = self.charges();
        let ghost t: i32 = match owner { Some(t) => t, None => 0 };
        let mut count: u64 = 0;
        let mut bytes: u128 = 0;
        let mut i: usize = 0;
        while i < self.records.len()
            invariant
                i <= self.records@.len(),
                c == self.charges(),
                c.len() == self.records@.len(),
                owner is Some ==> owner == Some(t),
                match owner {
                    Some(t) => count == owned_count(c.subrange(0, i as int), t) && bytes == owned_bytes(c.subrange(0, i as int), t),
                    None => count == i && bytes == total_bytes(c.subrange(0, i as int)),
                },
            decreases self.records@.len() - i,
        {
            proof {
                lemma_prefix(c, i as int, t);
                lemma_bounds(c.subrange(0, i as int), t);
                assert((i as int) * (u64::MAX as int) <= (usize::MAX as int) * (u64::MAX as int)) by (nonlinear_arith)
                    requires i <= usize::MAX;
            }
            let r = &self.records[i];
            let counted = match owner {
                Some(t) => r.owner_token_id == Some(t),
                None => true,
            };
            if counted {
                count = count + 1;
                bytes = bytes + r.size as u128;
            }
            i = i + 1;
        }
        assert(c.subrange(0, c.len() as int) =~= c);
        ObjectStats { count, total_bytes: bytes }
    }
}

} // verus!
