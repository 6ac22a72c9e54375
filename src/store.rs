//! The store as a whole: tokens, catalog, cache and the uploads in flight,
//! kept so that every token's usage is exactly what is charged to it.
use crate::accounting::{owned_bytes, Charge, lemma_push, lemma_remove, lemma_share_within};
use crate::cache::{CacheEntry, CacheIndex, HEAT_PER_HIT, bumped, entry_charge};
use crate::catalog::{ContentCatalog, ObjectRecord, record_charge};
use crate::digest::{cache_key, cache_key_input, content_hash, content_key, is_digest, sha256_hex};
use crate::error::{InvalidInput, StoreError};
use crate::mime::{detect_file_type, extension_of, format_of, mime_of};
use crate::quota::{ApiTokenInfo, QuotaError, TokenRepository, exempt, usage_moved, with_usage};
use vstd::prelude::*;
use vstd::string::StringExecFns;
use vstd::string::StrSliceExecFns;

verus! {

/// Limits and eviction settings, fixed when the store is made.
#[derive(Clone, Copy, Debug, PartialEq, Eq, Structural)]
pub struct StorageConfig {
    /// Largest accepted upload, in bytes.
    pub max_file_size: u64,
    /// Storage capacity that the eviction thresholds are fractions of.
    pub capacity_bytes: u64,
    /// Usage (percent of capacity) at which automatic cleanup starts.
    pub trigger_percent: u64,
    /// Usage (percent of capacity) that automatic cleanup brings the store down to.
    pub target_percent: u64,
    /// Heat is multiplied by `decay_num / decay_den` on each decay pass.
    pub decay_num: u64,
    pub decay_den: u64,
}

impl StorageConfig {
    pub open spec fn valid(&self) -> bool {
        &&& self.target_percent <= self.trigger_percent <= 100
        &&& 0 < self.decay_num < self.decay_den
    }
}

/// Where an object's bytes live: `hash[0:2]/hash[2:4]/hash.ext`.
pub open spec fn blob_key_of(hash: Seq<char>, ext: Seq<char>) -> Seq<char> {
    hash.subrange(0, 2) + "/"@ + hash.subrange(2, 4) + "/"@ + hash + "."@ + ext
}

/// Builds `prefix + key[0:2]/key[2:4]/key.ext`.
pub fn shard_path(prefix: &str, key: &str, ext: &str) -> (r: String)
    requires
        key@.len() >= 4,
    ensures
        r@ == prefix@ + blob_key_of(key@, ext@),
{
    let mut s = prefix.to_owned();
    s.append(key.substring_char(0, 2));
    s.append("/");
    s.append(key.substring_char(2, 4));
    s.append("/");
    s.append(key);
    s.append(".");
    s.append(ext);
    assert(s@ =~= prefix@ + blob_key_of(key@, ext@));
    s
}

/// The answer to the first half of an upload.
pub enum UploadStep {
    /// The same content from the same owner is stored already: nothing was
    /// reserved and no blob needs writing.
    Existing(ObjectRecord),
    /// Quota is reserved; write the bytes to `blob_key`, then call
    /// `finish_upload` with the hash and whether the write succeeded.
    Write { record: ObjectRecord, blob_key: String },
}

pub struct Storage {
    pub tokens: TokenRepository,
    pub catalog: ContentCatalog,
    pub cache: CacheIndex,
    /// Uploads whose quota is reserved and whose blob write is outstanding.
    pub reservations: Vec<ObjectRecord>,
    /// Blob paths that no record refers to any more, to be deleted.
    pub pending_deletes: Vec<String>,
    pub config: StorageConfig,
}

/// The object that `e` derives from is in `records`, with the same owner.
pub open spec fn has_original(records: Seq<ObjectRecord>, e: CacheEntry) -> bool {
    exists|j: int| 0 <= j < records.len() && records[j].hash@ == e.original_hash@ && records[j].owner_token_id == e.owner_token_id
}

/// Whether every owner that some item is charged to has a token.
pub open spec fn owners_known(c: Seq<Charge>, tokens: Seq<ApiTokenInfo>) -> bool {
    forall|i: int| 0 <= i < c.len() && !exempt(#[trigger] c[i].0) ==> crate::quota::has_id(tokens, c[i].0->0)
}

/// What the first half of an upload promises, from state `old` to state
/// `new`, for `data` uploaded by `owner` at `now` with answer `r`.
pub open spec fn begin_upload_post(
    old: Storage,
    new: Storage,
    data: Seq<u8>,
    original_filename: Option<String>,
    owner: Option<i32>,
    now: i64,
    r: Result<UploadStep, StoreError>,
) -> bool {
    &&& new.wf()
    &&& data.len() == 0 ==> r == Err::<UploadStep, StoreError>(StoreError::Invalid(InvalidInput::Empty))
    &&& data.len() > 0 && data.len() > old.config.max_file_size
        ==> r == Err::<UploadStep, StoreError>(StoreError::Invalid(InvalidInput::TooLarge))
    &&& data.len() > 0 && data.len() <= old.config.max_file_size && format_of(data) is None
        ==> r == Err::<UploadStep, StoreError>(StoreError::Invalid(InvalidInput::UnknownType))
    &&& r is Err ==> new == old
    // Known content is answered from the catalog, with nothing reserved.
    &&& format_of(data) is Some && 0 < data.len() <= old.config.max_file_size
        && old.catalog.has_hash(content_key(data, owner)) ==> {
        &&& r == Ok::<UploadStep, StoreError>(UploadStep::Existing(upload_answer(old, data, owner)->0))
        &&& new == old
    }
    // New content: reserve, or refuse for quota.
    &&& format_of(data) is Some && 0 < data.len() <= old.config.max_file_size
        && !old.catalog.has_hash(content_key(data, owner)) ==> {
        &&& !exempt(owner) && !old.tokens.contains_id(owner->0)
            ==> r == Err::<UploadStep, StoreError>(StoreError::NotFound)
        &&& forall|i: int| 0 <= i < old.tokens.tokens@.len() && Some(old.tokens.tokens@[i].id) == owner ==>
            (r == Err::<UploadStep, StoreError>(StoreError::QuotaExceeded)
                <==> old.tokens.tokens@[i].used_upload_size + data.len() > crate::quota::usage_cap(old.tokens.tokens@[i]))
        &&& exempt(owner) ==> r is Ok
        &&& forall|i: int| 0 <= i < old.tokens.tokens@.len() && Some(old.tokens.tokens@[i].id) == owner ==>
            (r is Ok <==> old.tokens.tokens@[i].used_upload_size + data.len() <= crate::quota::usage_cap(old.tokens.tokens@[i]))
        &&& r is Ok ==> (r matches Ok(UploadStep::Write { record, blob_key }) && {
            let f = format_of(data)->0;
            &&& record.hash@ == content_key(data, owner)
            &&& record.size == data.len()
            &&& record.mime_type@ == mime_of(f)
            &&& record.extension@ == extension_of(f)
            &&& record.owner_token_id == owner
            &&& record.created_at == now
            &&& record.last_accessed is None
            &&& record.access_count == 0
            &&& record.original_filename == original_filename
            &&& blob_key@ == blob_key_of(record.hash@, record.extension@)
            &&& new.reservations@ == old.reservations@.push(record)
            &&& new.catalog == old.catalog
            &&& new.cache == old.cache
            &&& usage_moved(old.tokens.tokens@, new.tokens.tokens@, owner, data.len() as int)
        })
    }
}

/// The record that an upload of `data` by `owner` is answered with, when the
/// catalog already holds that content.
pub open spec fn upload_answer(s: Storage, data: Seq<u8>, owner: Option<i32>) -> Option<ObjectRecord> {
    let k = content_key(data, owner);
    if s.catalog.has_hash(k) {
        Some(choose|r: ObjectRecord| s.catalog.records@.contains(r) && r.hash@ == k)
    } else {
        None
    }
}

impl Storage {
    pub open spec fn reserved_charges(&self) -> Seq<Charge> {
        self.reservations@.map_values(|r: ObjectRecord| record_charge(r))
    }

    /// Bytes charged to the token `t`: its objects, its cache entries and its
    /// uploads in flight.
    pub open spec fn charged(&self, t: i32) -> int {
        owned_bytes(self.catalog.charges(), t) + owned_bytes(self.cache.charges(), t)
            + owned_bytes(self.reserved_charges(), t)
    }

    /// Each token's usage is what is charged to it.
    pub open spec fn usage_consistent(&self) -> bool {
        forall|i: int| 0 <= i < self.tokens.tokens@.len() ==>
            (#[trigger] self.tokens.tokens@[i]).used_upload_size == self.charged(self.tokens.tokens@[i].id)
    }

    pub open spec fn wf(&self) -> bool {
        &&& self.tokens.wf()
        &&& self.catalog.wf()
        &&& self.cache.wf()
        &&& self.config.valid()
        &&& self.usage_consistent()
        &&& owners_known(self.catalog.charges(), self.tokens.tokens@)
        &&& owners_known(self.cache.charges(), self.tokens.tokens@)
        &&& owners_known(self.reserved_charges(), self.tokens.tokens@)
        &&& forall|i: int| 0 <= i < self.catalog.records@.len() ==> is_digest(#[trigger] self.catalog.records@[i].hash@)
        &&& forall|i: int| 0 <= i < self.reservations@.len() ==> is_digest(#[trigger] self.reservations@[i].hash@)
        &&& forall|i: int| 0 <= i < self.cache.entries@.len() ==> has_original(self.catalog.records@, #[trigger] self.cache.entries@[i])
    }

    pub fn new(config: StorageConfig) -> (r: Self)
        requires
            config.valid(),
        ensures
            r.wf(),
            r.config == config,
            r.tokens.tokens@.len() == 0,
            r.catalog.records@.len() == 0,
            r.cache.entries@.len() == 0,
            r.reservations@.len() == 0,
    {
        let r = Storage {
            tokens: TokenRepository::new(),
            catalog: ContentCatalog::new(),
            cache: CacheIndex::new(),
            reservations: Vec::new(),
            pending_deletes: Vec::new(),
            config,
        };
        assert(r.catalog.charges() =~= Seq::<Charge>::empty());
        assert(r.cache.charges() =~= Seq::<Charge>::empty());
        assert(r.reserved_charges() =~= Seq::<Charge>::empty());
        r
    }

    /// First half of an upload: validate, look the content up, and reserve
    /// quota for new content. Nothing changes unless the result is `Write`.
    pub fn begin_upload(&mut self, data: &[u8], original_filename: Option<String>, owner: Option<i32>, now: i64)
        -> (r: Result<UploadStep, StoreError>)
        requires
            old(self).wf(),
        ensures
            begin_upload_post(*old(self), *final(self), data@, original_filename, owner, now, r),
    {
        if data.len() == 0 {
            return Err(StoreError::Invalid(InvalidInput::Empty));
        }
        if data.len() as u64 > self.config.max_file_size {
            return Err(StoreError::Invalid(InvalidInput::TooLarge));
        }
        let format = match detect_file_type(data) {
            Some(f) => f,
            None => { return Err(StoreError::Invalid(InvalidInput::UnknownType)); },
        };
        let hash = content_hash(data, owner);
        match self.catalog.find_by_hash(hash.as_str()) {
            Some(rec) => {
                proof {
                    let k = content_key(data@, owner);
                    let c = choose|r: ObjectRecord| self.catalog.records@.contains(r) && r.hash@ == k;
                    let i = choose|i: int| 0 <= i < self.catalog.records@.len() && self.catalog.records@[i] == rec;
                    let j = choose|j: int| 0 <= j < self.catalog.records@.len() && self.catalog.records@[j] == c;
                    assert(i == j);
                }
                return Ok(UploadStep::Existing(rec));
            },
            None => {},
        }
        let size = data.len() as u64;
        let ghost before = *self;
        match self.tokens.charge(owner, size) {
            Ok(()) => {},
            Err(QuotaError::NotFound) => { return Err(StoreError::NotFound); },
            Err(QuotaError::QuotaExceeded) => { return Err(StoreError::QuotaExceeded); },
        }
        let extension = format.extension();
        let blob_key = shard_path("", hash.as_str(), extension.as_str());
        proof {
            reveal_strlit("");
        }
        assert(""@ + blob_key_of(hash@, extension@) =~= blob_key_of(hash@, extension@));
        let record = ObjectRecord {
            hash,
            size,
            mime_type: format.mime_type(),
            owner_token_id: owner,
            created_at: now,
            last_accessed: None,
            access_count: 0,
            original_filename,
            extension,
        };
        let out = record.duplicate();
        assert(is_digest(out.hash@));
        self.reservations.push(record);
        proof {
            assert forall|i: int| 0 <= i < self.reservations@.len() implies is_digest(#[trigger] self.reservations@[i].hash@) by {
                if i < before.reservations@.len() {
                    assert(self.reservations@[i] == before.reservations@[i]);
                    assert(is_digest(before.reservations@[i].hash@));
                } else {
                    assert(self.reservations@[i] == out);
                }
            }
            let c = record_charge(out);
            assert(self.reserved_charges() =~= before.reserved_charges().push(c));
            assert forall|i: int| 0 <= i < self.tokens.tokens@.len() implies
                (#[trigger] self.tokens.tokens@[i]).used_upload_size == self.charged(self.tokens.tokens@[i].id) by {
                lemma_push(before.reserved_charges(), c, self.tokens.tokens@[i].id);
                assert(before.tokens.tokens@[i].id == self.tokens.tokens@[i].id);
            }
            assert(owners_known(self.reserved_charges(), self.tokens.tokens@)) by {
                assert forall|i: int| 0 <= i < self.reserved_charges().len() && !exempt(#[trigger] self.reserved_charges()[i].0)
                    implies crate::quota::has_id(self.tokens.tokens@, self.reserved_charges()[i].0->0) by {
                    if i < before.reserved_charges().len() {
                        let k = choose|k: int| 0 <= k < before.tokens.tokens@.len() && before.tokens.tokens@[k].id == before.reserved_charges()[i].0->0;
                        assert(self.tokens.tokens@[k].id == before.tokens.tokens@[k].id);
                    } else {
                        let k = choose|k: int| 0 <= k < before.tokens.tokens@.len() && before.tokens.tokens@[k].id == owner->0;
                        assert(self.tokens.tokens@[k].id == before.tokens.tokens@[k].id);
                    }
                }
            }
            lemma_owners_kept(before.catalog.charges(), before.tokens.tokens@, self.tokens.tokens@);
            lemma_owners_kept(before.cache.charges(), before.tokens.tokens@, self.tokens.tokens@);
        }
        Ok(UploadStep::Write { record: out, blob_key })
    }
}

impl Storage {
    pub open spec fn has_reservation(&self, h: Seq<char>) -> bool {
        exists|i: int| 0 <= i < self.reservations@.len() && self.reservations@[i].hash@ == h
    }

    fn reservation_position(&self, hash: &str) -> (r: Option<usize>)
        ensures
            match r {
                Some(i) => i < self.reservations@.len() && self.reservations@[i as int].hash@ == hash@,
                None => !self.has_reservation(hash@),
            },
    {
        let mut i: usize = 0;
        while i < self.reservations.len()
            invariant
                i <= self.reservations@.len(),
                forall|k: int| 0 <= k < i ==> self.reservations@[k].hash@ != hash@,
            decreases self.reservations@.len() - i,
        {
            if crate::text::same_text(self.reservations[i].hash.as_str(), hash) {
                return Some(i);
            }
            i = i + 1;
        }
        None
    }

    /// Second half of an upload, once the blob write has finished or failed.
    /// A failed write gives the reservation back. A successful one commits
    /// the record; when the same content was committed meanwhile, the
    /// reservation is given back and the committed record is returned.
    pub fn finish_upload(&mut self, hash: &str, written: bool) -> (r: Result<ObjectRecord, StoreError>)
        requires
            old(self).wf(),
        ensures
            final(self).wf(),
            final(self).cache == old(self).cache,
            final(self).config == old(self).config,
            r matches Ok(e) ==> final(self).catalog.records@.contains(e) && e.hash@ == hash@,
            !old(self).has_reservation(hash@) ==> r == Err::<ObjectRecord, StoreError>(StoreError::NotFound) && *final(self) == *old(self),
            old(self).has_reservation(hash@) ==> exists|i: int|
                0 <= i < old(self).reservations@.len() && (#[trigger] old(self).reservations@[i]).hash@ == hash@
                && final(self).reservations@ == old(self).reservations@.remove(i) && {
                    let rec = old(self).reservations@[i];
                    let given_back = usage_moved(old(self).tokens.tokens@, final(self).tokens.tokens@, rec.owner_token_id, -(rec.size as int));
                    &&& !written ==> r == Err::<ObjectRecord, StoreError>(StoreError::IoFailure)
                        && final(self).catalog == old(self).catalog && given_back
                    &&& written && !old(self).catalog.has_hash(hash@) ==> r == Ok::<ObjectRecord, StoreError>(rec)
                        && final(self).catalog.records@ == old(self).catalog.records@.push(rec)
                        && final(self).tokens == old(self).tokens
                    &&& written && old(self).catalog.has_hash(hash@) ==> (r matches Ok(e) && e.hash@ == hash@
                        && old(self).catalog.records@.contains(e))
                        && final(self).catalog == old(self).catalog && given_back
                },
    {
        let i = match self.reservation_position(hash) {
            None => { return Err(StoreError::NotFound); },
            Some(i) => i,
        };
        let ghost before = *self;
        let rec = self.reservations.remove(i);
        let ghost c = record_charge(rec);
        proof {
            assert forall|k: int| 0 <= k < self.reservations@.len() implies is_digest(#[trigger] self.reservations@[k].hash@) by {
                let k0 = if k < i { k } else { k + 1 };
                assert(self.reservations@[k] == before.reservations@[k0]);
            }
            assert(self.reserved_charges() =~= before.reserved_charges().remove(i as int));
            assert(before.reserved_charges()[i as int] == c);
            assert(owners_known(self.reserved_charges(), self.tokens.tokens@)) by {
                assert forall|k: int| 0 <= k < self.reserved_charges().len() && !exempt(#[trigger] self.reserved_charges()[k].0)
                    implies crate::quota::has_id(self.tokens.tokens@, self.reserved_charges()[k].0->0) by {
                    let k0 = if k < i { k } else { k + 1 };
                    assert(self.reserved_charges()[k] == before.reserved_charges()[k0]);
                }
            }
        }
        if written {
            let copy = rec.duplicate();
            match self.catalog.insert(copy) {
                Ok(()) => {
                    proof {
                        assert forall|k: int| 0 <= k < self.catalog.records@.len() implies is_digest(#[trigger] self.catalog.records@[k].hash@) by {
                            if k < before.catalog.records@.len() {
                                assert(self.catalog.records@[k] == before.catalog.records@[k]);
                            }
                        }
                        assert(self.catalog.charges() =~= before.catalog.charges().push(c));
                        assert forall|k: int| 0 <= k < self.tokens.tokens@.len() implies
                            (#[trigger] self.tokens.tokens@[k]).used_upload_size == self.charged(self.tokens.tokens@[k].id) by {
                            let t = self.tokens.tokens@[k].id;
                            lemma_push(before.catalog.charges(), c, t);
                            lemma_remove(before.reserved_charges(), i as int, t);
                        }
                        assert(owners_known(self.catalog.charges(), self.tokens.tokens@)) by {
                            assert forall|k: int| 0 <= k < self.catalog.charges().len() && !exempt(#[trigger] self.catalog.charges()[k].0)
                                implies crate::quota::has_id(self.tokens.tokens@, self.catalog.charges()[k].0->0) by {
                                if k == before.catalog.charges().len() {
                                    assert(before.reserved_charges()[i as int] == self.catalog.charges()[k]);
                                } else {
                                    assert(before.catalog.charges()[k] == self.catalog.charges()[k]);
                                }
                            }
                        }
                        let last = self.catalog.records@.len() - 1;
                        assert(self.catalog.records@[last] == rec);
                        assert forall|k: int| 0 <= k < self.cache.entries@.len() implies
                            has_original(self.catalog.records@, #[trigger] self.cache.entries@[k]) by {
                            assert(has_original(before.catalog.records@, before.cache.entries@[k]));
                            let j = choose|j: int| 0 <= j < before.catalog.records@.len()
                                && before.catalog.records@[j].hash@ == before.cache.entries@[k].original_hash@
                                && before.catalog.records@[j].owner_token_id == before.cache.entries@[k].owner_token_id;
                            assert(self.catalog.records@[j] == before.catalog.records@[j]);
                        }
                    }
                    return Ok(rec);
                },
                Err(_) => {},
            }
        }
        self.tokens.refund(rec.owner_token_id, rec.size);
        proof {
            assert forall|k: int| 0 <= k < self.tokens.tokens@.len() implies
                (#[trigger] self.tokens.tokens@[k]).used_upload_size == self.charged(self.tokens.tokens@[k].id) by {
                let t = self.tokens.tokens@[k].id;
                assert(t == before.tokens.tokens@[k].id);
                lemma_remove(before.reserved_charges(), i as int, t);
                lemma_share_within(before.reserved_charges(), i as int, t);
                crate::accounting::lemma_bounds(before.catalog.charges(), t);
                crate::accounting::lemma_bounds(before.cache.charges(), t);
                crate::accounting::lemma_bounds(self.reserved_charges(), t);
            }
            lemma_owners_kept(before.catalog.charges(), before.tokens.tokens@, self.tokens.tokens@);
            lemma_owners_kept(before.cache.charges(), before.tokens.tokens@, self.tokens.tokens@);
            lemma_owners_kept(self.reserved_charges(), before.tokens.tokens@, self.tokens.tokens@);
        }
        if !written {
            return Err(StoreError::IoFailure);
        }
        match self.catalog.find_by_hash(hash) {
            Some(existing) => Ok(existing),
            None => Err(StoreError::Conflict),
        }
    }
}

/// `new_p` is `old_p` with one path queued for each entry of `before` that
/// is gone from `after`: every queued path is the file of such an entry.
pub open spec fn queued_removed(old_p: Seq<String>, new_p: Seq<String>, before: Seq<CacheEntry>, after: Seq<CacheEntry>) -> bool {
    &&& new_p.len() == old_p.len() + before.len() - after.len()
    &&& new_p.subrange(0, old_p.len() as int) == old_p
    &&& forall|j: int| old_p.len() <= j < new_p.len() ==> #[trigger] removed_path(before, after, new_p[j])
}

/// `p` is the file of an entry of `before` that is gone from `after`.
pub open spec fn removed_path(before: Seq<CacheEntry>, after: Seq<CacheEntry>, p: String) -> bool {
    exists|i: int| 0 <= i < before.len() && !after.contains(before[i]) && p == before[i].file_path
}

/// Filtering keeps a sequence whose elements all pass.
pub proof fn lemma_filter_keeps_all<A>(s: Seq<A>, p: spec_fn(A) -> bool)
    requires
        forall|i: int| 0 <= i < s.len() ==> p(#[trigger] s[i]),
    ensures
        s.filter(p) == s,
    decreases s.len(),
{
    reveal(Seq::filter);
    if s.len() > 0 {
        lemma_filter_keeps_all(s.drop_last(), p);
        assert(s.drop_last().push(s.last()) =~= s);
    }
}

/// Removing an element that fails the filter does not change the filtered sequence.
pub proof fn lemma_filter_remove<A>(s: Seq<A>, p: spec_fn(A) -> bool, k: int)
    requires
        0 <= k < s.len(),
        !p(s[k]),
    ensures
        s.remove(k).filter(p) == s.filter(p),
    decreases s.len(),
{
    reveal(Seq::filter);
    if k == s.len() - 1 {
        assert(s.remove(k) =~= s.drop_last());
    } else {
        lemma_filter_remove(s.drop_last(), p, k);
        assert(s.remove(k).drop_last() =~= s.drop_last().remove(k));
        assert(s.remove(k).last() == s.last());
    }
}

/// Every entry of `b` is an entry of `a`.
pub open spec fn entries_within(a: Seq<CacheEntry>, b: Seq<CacheEntry>) -> bool {
    forall|j: int| 0 <= j < b.len() ==> a.contains(#[trigger] b[j])
}

/// Queuing in two passes is queuing in one.
pub proof fn lemma_queued_compose(
    p0: Seq<String>, p1: Seq<String>, p2: Seq<String>,
    e0: Seq<CacheEntry>, e1: Seq<CacheEntry>, e2: Seq<CacheEntry>,
)
    requires
        queued_removed(p0, p1, e0, e1),
        queued_removed(p1, p2, e1, e2),
        entries_within(e0, e1),
        entries_within(e1, e2),
        e2.len() <= e1.len() <= e0.len(),
    ensures
        queued_removed(p0, p2, e0, e2),
{
    assert forall|j: int| 0 <= j < p1.len() implies p2[j] == p1[j] by {
        assert(p2[j] == p2.subrange(0, p1.len() as int)[j]);
    }
    assert forall|j: int| 0 <= j < p0.len() implies p1[j] == p0[j] by {
        assert(p1[j] == p1.subrange(0, p0.len() as int)[j]);
    }
    assert(p2.subrange(0, p0.len() as int) =~= p0);
    assert forall|j: int| p0.len() <= j < p2.len() implies #[trigger] removed_path(e0, e2, p2[j]) by {
        if j < p1.len() {
            assert(removed_path(e0, e1, p1[j]));
            let i = choose|i: int| 0 <= i < e0.len() && !e1.contains(e0[i]) && p1[j] == e0[i].file_path;
            if e2.contains(e0[i]) {
                let y = choose|y: int| 0 <= y < e2.len() && e2[y] == e0[i];
                assert(e1.contains(e2[y]));
            }
        } else {
            assert(removed_path(e1, e2, p2[j]));
            let i = choose|i: int| 0 <= i < e1.len() && !e2.contains(e1[i]) && p2[j] == e1[i].file_path;
            assert(e0.contains(e1[i]));
            let x = choose|x: int| 0 <= x < e0.len() && e0[x] == e1[i];
            assert(!e2.contains(e0[x]));
        }
    }
}

/// Which cache entries an eviction pass removes.
pub enum EvictRule {
    /// Every entry.
    All,
    /// Entries derived from the object with this hash.
    FromOriginal(String),
    /// Entries created more than `max_age` seconds before `now`.
    OlderThan { now: i64, max_age: u64 },
    /// Entries charged to this token.
    OwnedBy(i32),
}

pub open spec fn evicts(rule: EvictRule, e: CacheEntry) -> bool {
    match rule {
        EvictRule::All => true,
        EvictRule::FromOriginal(h) => e.original_hash@ == h@,
        EvictRule::OlderThan { now, max_age } => now - e.created_at > max_age,
        EvictRule::OwnedBy(t) => e.owner_token_id == Some(t),
    }
}

pub open spec fn survives(rule: EvictRule) -> spec_fn(CacheEntry) -> bool {
    |e: CacheEntry| !evicts(rule, e)
}

fn rule_evicts(rule: &EvictRule, e: &CacheEntry) -> (r: bool)
    ensures
        r == evicts(*rule, *e),
{
    match rule {
        EvictRule::All => true,
        EvictRule::FromOriginal(h) => crate::text::same_text(e.original_hash.as_str(), h.as_str()),
        EvictRule::OlderThan { now, max_age } => (*now as i128) - (e.created_at as i128) > (*max_age as i128),
        EvictRule::OwnedBy(t) => e.owner_token_id == Some(*t),
    }
}

impl Storage {
    /// Everything charged to a token is a sum of sizes, so it is never negative.
    pub proof fn lemma_charged_nonneg(&self, t: i32)
        ensures
            self.charged(t) >= 0,
            owned_bytes(self.catalog.charges(), t) >= 0,
            owned_bytes(self.cache.charges(), t) >= 0,
            owned_bytes(self.reserved_charges(), t) >= 0,
    {
        crate::accounting::lemma_bounds(self.catalog.charges(), t);
        crate::accounting::lemma_bounds(self.cache.charges(), t);
        crate::accounting::lemma_bounds(self.reserved_charges(), t);
    }

    /// Removes the cache entry at `i`, gives its bytes back to its owner and
    /// queues its file for deletion.
    pub fn evict_at(&mut self, i: usize) -> (r: CacheEntry)
        requires
            old(self).wf(),
            i < old(self).cache.entries@.len(),
        ensures
            final(self).wf(),
            r == old(self).cache.entries@[i as int],
            final(self).cache.entries@ == old(self).cache.entries@.remove(i as int),
            final(self).catalog == old(self).catalog,
            final(self).reservations == old(self).reservations,
            final(self).config == old(self).config,
            final(self).pending_deletes@ == old(self).pending_deletes@.push(r.file_path),
            usage_moved(old(self).tokens.tokens@, final(self).tokens.tokens@, r.owner_token_id, -(r.size as int)),
            final(self).tokens.next_id == old(self).tokens.next_id,
    {
        let ghost before = *self;
        let e = self.cache.remove_at(i);
        let ghost c = entry_charge(e);
        self.tokens.refund(e.owner_token_id, e.size);
        self.pending_deletes.push(e.file_path.clone());
        proof {
            assert(self.cache.charges() =~= before.cache.charges().remove(i as int));
            assert(before.cache.charges()[i as int] == c);
            assert forall|k: int| 0 <= k < self.tokens.tokens@.len() implies
                (#[trigger] self.tokens.tokens@[k]).used_upload_size == self.charged(self.tokens.tokens@[k].id) by {
                let t = self.tokens.tokens@[k].id;
                assert(t == before.tokens.tokens@[k].id);
                lemma_remove(before.cache.charges(), i as int, t);
                lemma_share_within(before.cache.charges(), i as int, t);
                before.lemma_charged_nonneg(t);
                self.lemma_charged_nonneg(t);
            }
            assert(owners_known(self.cache.charges(), before.tokens.tokens@)) by {
                assert forall|k: int| 0 <= k < self.cache.charges().len() && !exempt(#[trigger] self.cache.charges()[k].0)
                    implies crate::quota::has_id(before.tokens.tokens@, self.cache.charges()[k].0->0) by {
                    let k0 = if k < i { k } else { k + 1 };
                    assert(self.cache.charges()[k] == before.cache.charges()[k0]);
                }
            }
            lemma_owners_kept(before.catalog.charges(), before.tokens.tokens@, self.tokens.tokens@);
            lemma_owners_kept(self.cache.charges(), before.tokens.tokens@, self.tokens.tokens@);
            lemma_owners_kept(before.reserved_charges(), before.tokens.tokens@, self.tokens.tokens@);
        }
        e
    }

    /// Removes the cache entry stored under `key`; returns the bytes freed.
    pub fn remove_cache_entry(&mut self, key: &str) -> (r: Result<u64, StoreError>)
        requires
            old(self).wf(),
        ensures
            final(self).wf(),
            final(self).catalog == old(self).catalog,
            !old(self).cache.has_key(key@) ==> r == Err::<u64, StoreError>(StoreError::NotFound) && *final(self) == *old(self),
            old(self).cache.has_key(key@) ==> exists|i: int|
                0 <= i < old(self).cache.entries@.len() && (#[trigger] old(self).cache.entries@[i]).cache_key@ == key@
                && r == Ok::<u64, StoreError>(old(self).cache.entries@[i].size)
                && final(self).cache.entries@ == old(self).cache.entries@.remove(i)
                && usage_moved(old(self).tokens.tokens@, final(self).tokens.tokens@,
                    old(self).cache.entries@[i].owner_token_id, -(old(self).cache.entries@[i].size as int)),
    {
        match self.cache.position(key) {
            Some(i) => {
                let e = self.evict_at(i);
                Ok(e.size)
            },
            None => Err(StoreError::NotFound),
        }
    }

    /// Removes every cache entry that `rule` selects, keeping the others in
    /// order. Returns how many entries went and how many bytes they held.
    pub fn evict_matching(&mut self, rule: &EvictRule) -> (r: (u64, u128))
        requires
            old(self).wf(),
        ensures
            final(self).wf(),
            final(self).cache.entries@ == old(self).cache.entries@.filter(survives(*rule)),
            r.0 == old(self).cache.entries@.len() - final(self).cache.entries@.len(),
            r.1 == old(self).cache.total() - final(self).cache.total(),
            final(self).catalog == old(self).catalog,
            final(self).reservations == old(self).reservations,
            final(self).config == old(self).config,
            final(self).tokens.tokens@.len() == old(self).tokens.tokens@.len(),
            forall|k: int| 0 <= k < old(self).tokens.tokens@.len() ==>
                (#[trigger] final(self).tokens.tokens@[k]).id == old(self).tokens.tokens@[k].id,
            forall|k: int| 0 <= k < old(self).tokens.tokens@.len() && (forall|x: int| 0 <= x < old(self).cache.entries@.len()
                && evicts(*rule, #[trigger] old(self).cache.entries@[x])
                ==> old(self).cache.entries@[x].owner_token_id != Some(old(self).tokens.tokens@[k].id))
                ==> #[trigger] final(self).tokens.tokens@[k] == old(self).tokens.tokens@[k],
            queued_removed(old(self).pending_deletes@, final(self).pending_deletes@, old(self).cache.entries@, final(self).cache.entries@),
            entries_within(old(self).cache.entries@, final(self).cache.entries@),
            forall|k: int| 0 <= k < old(self).tokens.tokens@.len() ==> #[trigger] final(self).tokens.tokens@[k]
                == with_usage(old(self).tokens.tokens@[k], final(self).tokens.tokens@[k].used_upload_size),
    {
        let ghost start = *self;
        let ghost olds = self.cache.entries@;
        let count = self.cache.entries.len();
        let ghost n = olds.len();
        let ghost keep = survives(*rule);
        proof {
            crate::accounting::lemma_bounds(start.cache.charges(), 0);
            assert(n == count);
            assert((n as int) * (u64::MAX as int) <= (usize::MAX as int) * (u64::MAX as int)) by (nonlinear_arith)
                requires n <= usize::MAX;
            assert((usize::MAX as int) * (u64::MAX as int) <= u128::MAX) by (nonlinear_arith)
                requires usize::MAX <= u64::MAX;
            assert(olds.subrange(0, 0).filter(keep) =~= Seq::<CacheEntry>::empty()) by {
                reveal(Seq::filter);
            }
            assert(olds =~= olds.subrange(0, 0).filter(keep) + olds.subrange(0, n as int));
        }
        let mut removed: u64 = 0;
        let mut freed: u128 = 0;
        let mut i: usize = 0;
        let ghost mut k: int = 0;
        while i < self.cache.entries.len()
            invariant
                self.wf(),
                0 <= k <= n,
                n == olds.len(),
                olds == start.cache.entries@,
                keep == survives(*rule),
                self.cache.entries@ == olds.subrange(0, k).filter(keep) + olds.subrange(k, n as int),
                i == olds.subrange(0, k).filter(keep).len(),
                removed + self.cache.entries@.len() == n,
                freed + self.cache.total() == start.cache.total(),
                start.cache.total() <= u128::MAX,
                n <= usize::MAX,
                self.catalog == start.catalog,
                self.reservations == start.reservations,
                self.config == start.config,
                self.tokens.tokens@.len() == start.tokens.tokens@.len(),
                forall|j: int| 0 <= j < start.tokens.tokens@.len() ==>
                    (#[trigger] self.tokens.tokens@[j]).id == start.tokens.tokens@[j].id,
                forall|j: int| 0 <= j < start.tokens.tokens@.len() && (forall|x: int| 0 <= x < n
                    && evicts(*rule, #[trigger] olds[x]) ==> olds[x].owner_token_id != Some(start.tokens.tokens@[j].id))
                    ==> #[trigger] self.tokens.tokens@[j] == start.tokens.tokens@[j],
                forall|j: int| 0 <= j < start.tokens.tokens@.len() ==> #[trigger] self.tokens.tokens@[j]
                    == with_usage(start.tokens.tokens@[j], self.tokens.tokens@[j].used_upload_size),
                self.pending_deletes@.len() == start.pending_deletes@.len() + removed,
                self.pending_deletes@.subrange(0, start.pending_deletes@.len() as int) == start.pending_deletes@,
                forall|j: int| start.pending_deletes@.len() <= j < self.pending_deletes@.len() ==> exists|x: int|
                    0 <= x < n && evicts(*rule, olds[x]) && #[trigger] self.pending_deletes@[j] == olds[x].file_path,
            decreases self.cache.entries@.len() - i,
        {
            let ghost cur = self.cache.entries@;
            let ghost kept = olds.subrange(0, k).filter(keep);
            proof {
                assert(cur[i as int] == olds[k]);
                assert(olds.subrange(0, k + 1) =~= olds.subrange(0, k).push(olds[k]));
                assert(olds.subrange(0, k).push(olds[k]).drop_last() =~= olds.subrange(0, k));
                reveal(Seq::filter);
            }
            if rule_evicts(rule, &self.cache.entries[i]) {
                let ghost pre = *self;
                let e = self.evict_at(i);
                proof {
                    assert(self.cache.entries@ =~= kept + olds.subrange(k + 1, n as int));
                    assert(self.cache.charges() =~= pre.cache.charges().remove(i as int));
                    crate::accounting::lemma_remove(pre.cache.charges(), i as int, 0);
                    assert(pre.cache.charges()[i as int].1 == e.size);
                    crate::accounting::lemma_bounds(self.cache.charges(), 0);
                    assert(removed + 1 <= n);
                    assert(freed + e.size <= start.cache.total());
                    assert forall|j: int| 0 <= j < start.tokens.tokens@.len() implies
                        (#[trigger] self.tokens.tokens@[j]).id == start.tokens.tokens@[j].id by {
                        assert(self.tokens.tokens@[j].id == pre.tokens.tokens@[j].id);
                    }
                    assert(e == olds[k] && evicts(*rule, olds[k]));
                    assert forall|j: int| 0 <= j < start.tokens.tokens@.len() && (forall|x: int| 0 <= x < n
                        && evicts(*rule, #[trigger] olds[x]) ==> olds[x].owner_token_id != Some(start.tokens.tokens@[j].id))
                        implies #[trigger] self.tokens.tokens@[j] == start.tokens.tokens@[j] by {
                        assert(olds[k].owner_token_id != Some(start.tokens.tokens@[j].id));
                        assert(self.tokens.tokens@[j] == pre.tokens.tokens@[j]);
                    }
                    assert forall|j: int| 0 <= j < start.tokens.tokens@.len() implies #[trigger] self.tokens.tokens@[j]
                        == with_usage(start.tokens.tokens@[j], self.tokens.tokens@[j].used_upload_size) by {
                        assert(pre.tokens.tokens@[j] == with_usage(start.tokens.tokens@[j], pre.tokens.tokens@[j].used_upload_size));
                    }
                    let sp = start.pending_deletes@.len() as int;
                    assert(self.pending_deletes@.subrange(0, sp) =~= pre.pending_deletes@.subrange(0, sp));
                    assert forall|j: int| sp <= j < self.pending_deletes@.len() implies exists|x: int|
                        0 <= x < n && evicts(*rule, olds[x]) && #[trigger] self.pending_deletes@[j] == olds[x].file_path by {
                        if j < pre.pending_deletes@.len() {
                            assert(self.pending_deletes@[j] == pre.pending_deletes@[j]);
                        } else {
                            assert(self.pending_deletes@[j] == olds[k].file_path);
                        }
                    }
                }
                removed = removed + 1;
                freed = freed + e.size as u128;
            } else {
                proof {
                    assert(self.cache.entries@ =~= kept.push(olds[k]) + olds.subrange(k + 1, n as int));
                }
                i = i + 1;
            }
            proof {
                k = k + 1;
            }
        }
        proof {
            assert(k == n);
            assert(olds.subrange(0, n as int) =~= olds);
            assert(self.cache.entries@ =~= olds.filter(keep));
            broadcast use vstd::seq_lib::group_filter_ensures;
            let fin = self.cache.entries@;
            assert forall|j: int| 0 <= j < fin.len() implies olds.contains(#[trigger] fin[j]) by {
                assert(fin.contains(fin[j]));
                olds.lemma_filter_contains_rev(keep, fin[j]);
            }
            assert forall|j: int| start.pending_deletes@.len() <= j < self.pending_deletes@.len() implies
                #[trigger] removed_path(olds, fin, self.pending_deletes@[j]) by {
                let x = choose|x: int| 0 <= x < n && evicts(*rule, olds[x]) && self.pending_deletes@[j] == olds[x].file_path;
                if fin.contains(olds[x]) {
                    let y = choose|y: int| 0 <= y < fin.len() && fin[y] == olds[x];
                    assert(keep(fin[y]));
                }
            }
        }
        (removed, freed)
    }

    /// Deletes an object: every cache entry derived from it goes (with its
    /// file queued for deletion), then its record goes, its bytes go back to
    /// its owner and its blob is queued for deletion.
    pub fn delete_object(&mut self, hash: &str) -> (r: Result<(), StoreError>)
        requires
            old(self).wf(),
        ensures
            delete_object_post(*old(self), *final(self), hash@, r),
    {
        let i = match self.catalog.position(hash) {
            None => { return Err(StoreError::NotFound); },
            Some(i) => i,
        };
        let rule = EvictRule::FromOriginal(hash.to_owned());
        let ghost before = *self;
        let ghost rec = before.catalog.records@[i as int];
        proof {
            assert forall|x: int| 0 <= x < before.cache.entries@.len()
                && evicts(rule, #[trigger] before.cache.entries@[x])
                implies before.cache.entries@[x].owner_token_id == rec.owner_token_id by {
                assert(has_original(before.catalog.records@, before.cache.entries@[x]));
                let j = choose|j: int| 0 <= j < before.catalog.records@.len()
                    && before.catalog.records@[j].hash@ == before.cache.entries@[x].original_hash@
                    && before.catalog.records@[j].owner_token_id == before.cache.entries@[x].owner_token_id;
                assert(j == i);
            }
        }
        self.evict_matching(&rule);
        let ghost mid = *self;
        proof {
            assert(survives(rule) =~= (|e: CacheEntry| e.original_hash@ != hash@));
            broadcast use vstd::seq_lib::group_filter_ensures;
            assert forall|x: int| 0 <= x < mid.cache.entries@.len() implies (#[trigger] mid.cache.entries@[x]).original_hash@ != hash@ by {
                assert(survives(rule)(mid.cache.entries@[x]));
            }
        }
        let removed = self.catalog.delete_by_hash(hash);
        let rec_x = match removed {
            Ok(r) => r,
            Err(e) => { return Err(e); },
        };
        proof {
            let i2 = choose|i2: int| 0 <= i2 < mid.catalog.records@.len() && mid.catalog.records@[i2].hash@ == hash@
                && removed == Ok::<ObjectRecord, StoreError>(mid.catalog.records@[i2])
                && self.catalog.records@ == mid.catalog.records@.remove(i2);
            assert(i2 == i);
        }
        self.tokens.refund(rec_x.owner_token_id, rec_x.size);
        let ghost c = record_charge(rec);
        proof {
            let ii = i as int;
            assert(self.catalog.charges() =~= mid.catalog.charges().remove(ii));
            assert(mid.catalog.charges()[ii] == c);
            assert forall|k: int| 0 <= k < self.tokens.tokens@.len() implies
                (#[trigger] self.tokens.tokens@[k]).used_upload_size == self.charged(self.tokens.tokens@[k].id) by {
                let t = self.tokens.tokens@[k].id;
                assert(t == mid.tokens.tokens@[k].id);
                lemma_remove(mid.catalog.charges(), ii, t);
                lemma_share_within(mid.catalog.charges(), ii, t);
                mid.lemma_charged_nonneg(t);
                self.lemma_charged_nonneg(t);
            }
            assert(owners_known(self.catalog.charges(), mid.tokens.tokens@)) by {
                assert forall|k: int| 0 <= k < self.catalog.charges().len() && !exempt(#[trigger] self.catalog.charges()[k].0)
                    implies crate::quota::has_id(mid.tokens.tokens@, self.catalog.charges()[k].0->0) by {
                    let k0 = if k < ii { k } else { k + 1 };
                    assert(self.catalog.charges()[k] == mid.catalog.charges()[k0]);
                }
            }
            lemma_owners_kept(self.catalog.charges(), mid.tokens.tokens@, self.tokens.tokens@);
            lemma_owners_kept(mid.cache.charges(), mid.tokens.tokens@, self.tokens.tokens@);
            lemma_owners_kept(mid.reserved_charges(), mid.tokens.tokens@, self.tokens.tokens@);
            assert forall|k: int| 0 <= k < self.catalog.records@.len() implies is_digest(#[trigger] self.catalog.records@[k].hash@) by {
                let k0 = if k < ii { k } else { k + 1 };
                assert(self.catalog.records@[k] == mid.catalog.records@[k0]);
            }
            assert forall|x: int| 0 <= x < self.cache.entries@.len() implies
                has_original(self.catalog.records@, #[trigger] self.cache.entries@[x]) by {
                assert(has_original(mid.catalog.records@, mid.cache.entries@[x]));
                let j = choose|j: int| 0 <= j < mid.catalog.records@.len()
                    && mid.catalog.records@[j].hash@ == mid.cache.entries@[x].original_hash@
                    && mid.catalog.records@[j].owner_token_id == mid.cache.entries@[x].owner_token_id;
                assert(j != ii);
                let j1 = if j < ii { j } else { j - 1 };
                assert(self.catalog.records@[j1] == mid.catalog.records@[j]);
            }
            assert(is_digest(rec.hash@));
            // Every token's usage: the owner's drops by what left, others stay.
            assert forall|k: int| 0 <= k < before.tokens.tokens@.len() implies #[trigger] self.tokens.tokens@[k]
                == if Some(before.tokens.tokens@[k].id) == rec.owner_token_id {
                    with_usage(before.tokens.tokens@[k], (before.tokens.tokens@[k].used_upload_size - rec.size
                        - (owned_bytes(before.cache.charges(), before.tokens.tokens@[k].id)
                            - owned_bytes(self.cache.charges(), before.tokens.tokens@[k].id))) as u64)
                } else {
                    before.tokens.tokens@[k]
                } by {
                let t = before.tokens.tokens@[k].id;
                assert(mid.tokens.tokens@[k] == with_usage(before.tokens.tokens@[k], mid.tokens.tokens@[k].used_upload_size));
                if Some(t) != rec.owner_token_id {
                    assert(mid.tokens.tokens@[k] == before.tokens.tokens@[k]);
                } else {
                    assert(before.tokens.tokens@[k].used_upload_size == before.charged(t));
                    assert(self.tokens.tokens@[k].used_upload_size == self.charged(t));
                    lemma_remove(mid.catalog.charges(), ii, t);
                }
            }
        }
        let path = shard_path("", rec_x.hash.as_str(), rec_x.extension.as_str());
        proof {
            reveal_strlit("");
            assert(""@ + blob_key_of(rec.hash@, rec.extension@) =~= blob_key_of(rec.hash@, rec.extension@));
        }
        let ghost pre_push = self.pending_deletes@;
        self.pending_deletes.push(path);
        proof {
            assert(self.pending_deletes@.drop_last() =~= pre_push);
        }
        Ok(())
    }
}

/// What deleting the object `hash` promises, from state `old` to state `new`
/// with answer `r`.
pub open spec fn delete_object_post(old: Storage, new: Storage, hash: Seq<char>, r: Result<(), StoreError>) -> bool {
    &&& new.wf()
    &&& new.reservations == old.reservations
    &&& new.config == old.config
    &&& new.tokens.tokens@.len() == old.tokens.tokens@.len()
    &&& !old.catalog.has_hash(hash) ==> r == Err::<(), StoreError>(StoreError::NotFound) && new == old
    &&& old.catalog.has_hash(hash) ==> r is Ok && exists|i: int|
        0 <= i < old.catalog.records@.len() && (#[trigger] old.catalog.records@[i]).hash@ == hash && {
        let rec = old.catalog.records@[i];
        &&& new.catalog.records@ == old.catalog.records@.remove(i)
        &&& new.cache.entries@ == old.cache.entries@.filter(|e: CacheEntry| e.original_hash@ != hash)
        &&& new.pending_deletes@.len() > 0
        &&& new.pending_deletes@.last()@ == blob_key_of(hash, rec.extension@)
        &&& queued_removed(old.pending_deletes@, new.pending_deletes@.drop_last(), old.cache.entries@, new.cache.entries@)
        &&& forall|k: int| 0 <= k < old.tokens.tokens@.len() ==> #[trigger] new.tokens.tokens@[k]
            == if Some(old.tokens.tokens@[k].id) == rec.owner_token_id {
                with_usage(old.tokens.tokens@[k], (old.tokens.tokens@[k].used_upload_size - rec.size
                    - (owned_bytes(old.cache.charges(), old.tokens.tokens@[k].id)
                        - owned_bytes(new.cache.charges(), old.tokens.tokens@[k].id))) as u64)
            } else {
                old.tokens.tokens@[k]
            }
    }
}

/// The answer to a request for a derived artifact.
pub enum CacheLookup {
    /// The artifact is cached; its heat was raised.
    Hit(CacheEntry),
    /// Not cached, but the original exists: compute the artifact, store it at
    /// `file_path`, then call `insert_cache_entry`.
    Miss { cache_key: String, file_path: String },
    /// No object has that hash.
    NoOriginal,
}

/// Where the artifact with key `k` of an original with extension `ext` lives.
pub open spec fn artifact_path_of(k: Seq<char>, ext: Seq<char>) -> Seq<char> {
    "cache/"@ + blob_key_of(k, ext)
}

impl Storage {
    /// Looks up the artifact that `transform` derives from `original_hash`.
    /// A hit raises its heat and stamps the hit time; nothing else changes.
    pub fn lookup_cache(&mut self, original_hash: &str, transform: &str, now: i64) -> (r: CacheLookup)
        requires
            old(self).wf(),
        ensures
            final(self).wf(),
            final(self).catalog == old(self).catalog,
            final(self).tokens == old(self).tokens,
            ({
                let k = sha256_hex(cache_key_input(original_hash, transform));
                &&& old(self).cache.has_key(k) ==> (r matches CacheLookup::Hit(e) && exists|i: int|
                    0 <= i < old(self).cache.entries@.len() && old(self).cache.entries@[i].cache_key@ == k
                    && e == bumped(old(self).cache.entries@[i], now)
                    && final(self).cache.entries@ == old(self).cache.entries@.update(i, e))
                &&& !old(self).cache.has_key(k) && old(self).catalog.has_hash(original_hash@) ==> *final(self) == *old(self)
                    && (r matches CacheLookup::Miss { cache_key, file_path } && cache_key@ == k
                    && exists|i: int| 0 <= i < old(self).catalog.records@.len()
                        && old(self).catalog.records@[i].hash@ == original_hash@
                        && file_path@ == artifact_path_of(k, old(self).catalog.records@[i].extension@))
                &&& !old(self).cache.has_key(k) && !old(self).catalog.has_hash(original_hash@) ==> *final(self) == *old(self)
                    && r is NoOriginal
            }),
    {
        let key = cache_key(original_hash, transform);
        let ghost before = *self;
        if self.cache.bump_heat(key.as_str(), now) {
            proof {
                assert forall|k: int| 0 <= k < self.tokens.tokens@.len() implies
                    (#[trigger] self.tokens.tokens@[k]).used_upload_size == self.charged(self.tokens.tokens@[k].id) by {
                    assert(before.tokens.tokens@[k] == self.tokens.tokens@[k]);
                }
            }
            match self.cache.find(key.as_str()) {
                Some(e) => {
                    proof {
                        let i = choose|i: int| 0 <= i < before.cache.entries@.len() && before.cache.entries@[i].cache_key@ == key@;
                        let j = choose|j: int| 0 <= j < self.cache.entries@.len() && self.cache.entries@[j] == e;
                        assert(self.cache.entries@[i].cache_key@ == key@);
                        assert(i == j);
                    }
                    return CacheLookup::Hit(e);
                },
                None => {
                    proof {
                        let i = choose|i: int| 0 <= i < before.cache.entries@.len() && before.cache.entries@[i].cache_key@ == key@;
                        assert(self.cache.entries@[i].cache_key@ == key@);
                    }
                    return CacheLookup::NoOriginal;
                },
            }
        }
        match self.catalog.position(original_hash) {
            Some(i) => {
                proof {
                    assert(is_digest(key@));
                }
                let path = shard_path("cache/", key.as_str(), self.catalog.records[i].extension.as_str());
                CacheLookup::Miss { cache_key: key, file_path: path }
            },
            None => CacheLookup::NoOriginal,
        }
    }

    /// Records a computed artifact. Its bytes are charged to the original's
    /// owner; it starts with one hit's worth of heat.
    pub fn insert_cache_entry(&mut self, original_hash: &str, transform: &str, size: u64, now: i64)
        -> (r: Result<CacheEntry, StoreError>)
        requires
            old(self).wf(),
        ensures
            final(self).wf(),
            final(self).catalog == old(self).catalog,
            final(self).reservations == old(self).reservations,
            r is Err ==> *final(self) == *old(self),
            !old(self).catalog.has_hash(original_hash@) ==> r == Err::<CacheEntry, StoreError>(StoreError::NotFound),
            ({
                let k = sha256_hex(cache_key_input(original_hash, transform));
                &&& old(self).catalog.has_hash(original_hash@) && old(self).cache.has_key(k)
                    ==> r == Err::<CacheEntry, StoreError>(StoreError::Conflict)
                &&& forall|i: int| 0 <= i < old(self).catalog.records@.len()
                    && (#[trigger] old(self).catalog.records@[i]).hash@ == original_hash@ && !old(self).cache.has_key(k) ==> {
                    let o = old(self).catalog.records@[i];
                    &&& (r == Err::<CacheEntry, StoreError>(StoreError::QuotaExceeded) <==> exists|j: int|
                        0 <= j < old(self).tokens.tokens@.len() && Some(old(self).tokens.tokens@[j].id) == o.owner_token_id
                        && old(self).tokens.tokens@[j].used_upload_size + size > crate::quota::usage_cap(old(self).tokens.tokens@[j]))
                    &&& (r is Ok <==> !exists|j: int|
                        0 <= j < old(self).tokens.tokens@.len() && Some(old(self).tokens.tokens@[j].id) == o.owner_token_id
                        && old(self).tokens.tokens@[j].used_upload_size + size > crate::quota::usage_cap(old(self).tokens.tokens@[j]))
                    &&& r is Ok ==> (r matches Ok(e) && e.cache_key@ == k && e.original_hash@ == original_hash@
                        && e.file_path@ == artifact_path_of(k, o.extension@) && e.size == size
                        && e.heat == HEAT_PER_HIT && e.created_at == now && e.last_hit is None
                        && e.owner_token_id == o.owner_token_id
                        && final(self).cache.entries@ == old(self).cache.entries@.push(e)
                        && usage_moved(old(self).tokens.tokens@, final(self).tokens.tokens@, o.owner_token_id, size as int))
                }
            }),
    {
        let i = match self.catalog.position(original_hash) {
            None => { return Err(StoreError::NotFound); },
            Some(i) => i,
        };
        let key = cache_key(original_hash, transform);
        if self.cache.position(key.as_str()).is_some() {
            return Err(StoreError::Conflict);
        }
        let owner = self.catalog.records[i].owner_token_id;
        let path = shard_path("cache/", key.as_str(), self.catalog.records[i].extension.as_str());
        let ghost before = *self;
        proof {
            assert forall|j: int| 0 <= j < before.catalog.records@.len() && before.catalog.records@[j].hash@ == original_hash@ implies j == i by {}
            if !exempt(owner) && !before.tokens.contains_id(owner->0) {
                assert(before.catalog.charges()[i as int].0 == owner);
            }
        }
        match self.tokens.charge(owner, size) {
            Ok(()) => {},
            Err(QuotaError::NotFound) => { return Err(StoreError::NotFound); },
            Err(QuotaError::QuotaExceeded) => { return Err(StoreError::QuotaExceeded); },
        }
        let entry = CacheEntry {
            cache_key: key,
            original_hash: original_hash.to_owned(),
            file_path: path,
            size,
            heat: HEAT_PER_HIT,
            created_at: now,
            last_hit: None,
            owner_token_id: owner,
        };
        let out = entry.duplicate();
        let ins = self.cache.insert(entry);
        proof {
            let c = entry_charge(out);
            assert(self.cache.charges() =~= before.cache.charges().push(c));
            assert forall|k: int| 0 <= k < self.tokens.tokens@.len() implies
                (#[trigger] self.tokens.tokens@[k]).used_upload_size == self.charged(self.tokens.tokens@[k].id) by {
                lemma_push(before.cache.charges(), c, self.tokens.tokens@[k].id);
                assert(before.tokens.tokens@[k].id == self.tokens.tokens@[k].id);
            }
            assert(owners_known(self.cache.charges(), self.tokens.tokens@)) by {
                assert forall|k: int| 0 <= k < self.cache.charges().len() && !exempt(#[trigger] self.cache.charges()[k].0)
                    implies crate::quota::has_id(self.tokens.tokens@, self.cache.charges()[k].0->0) by {
                    if k < before.cache.charges().len() {
                        assert(self.cache.charges()[k] == before.cache.charges()[k]);
                        let x = choose|x: int| 0 <= x < before.tokens.tokens@.len() && before.tokens.tokens@[x].id == before.cache.charges()[k].0->0;
                        assert(self.tokens.tokens@[x].id == before.tokens.tokens@[x].id);
                    } else {
                        let x = choose|x: int| 0 <= x < before.tokens.tokens@.len() && before.tokens.tokens@[x].id == owner->0;
                        assert(self.tokens.tokens@[x].id == before.tokens.tokens@[x].id);
                    }
                }
            }
            lemma_owners_kept(before.catalog.charges(), before.tokens.tokens@, self.tokens.tokens@);
            lemma_owners_kept(before.reserved_charges(), before.tokens.tokens@, self.tokens.tokens@);
        }
        Ok(out)
    }
}

/// Changing usages keeps every charged owner known.
pub proof fn lemma_owners_kept(c: Seq<Charge>, a: Seq<ApiTokenInfo>, b: Seq<ApiTokenInfo>)
    requires
        owners_known(c, a),
        a.len() == b.len(),
        forall|i: int| 0 <= i < a.len() ==> a[i].id == b[i].id,
    ensures
        owners_known(c, b),
{
    assert forall|i: int| 0 <= i < c.len() && !exempt(#[trigger] c[i].0) implies crate::quota::has_id(b, c[i].0->0) by {
        let k = choose|k: int| 0 <= k < a.len() && a[k].id == c[i].0->0;
        assert(b[k].id == a[k].id);
    }
}

} // verus!
