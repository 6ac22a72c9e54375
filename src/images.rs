//! The object operations offered to request handlers.
use crate::catalog::{ObjectRecord, ObjectStats};
use crate::clock::now_seconds;
use crate::error::{InvalidInput, StoreError};
use crate::store::{Storage, UploadStep, begin_upload_post, blob_key_of, delete_object_post, shard_path};
use crate::digest::is_digest;
use vstd::prelude::*;

verus! {

pub struct ImageService;

impl ImageService {
    /// Starts an upload by `owner_id` stamped with the current time; see
    /// `Storage::begin_upload` for what each outcome means.
    pub fn save_image(store: &mut Storage, data: &[u8], original_filename: Option<String>, owner_id: i32)
        -> (r: Result<UploadStep, StoreError>)
        requires
            old(store).wf(),
        ensures
            exists|now: i64| begin_upload_post(*old(store), *final(store), data@, original_filename, Some(owner_id), now, r),
    {
        let now = now_seconds();
        store.begin_upload(data, original_filename, Some(owner_id), now)
    }

    /// The record of an object; an empty identifier is refused.
    pub fn get_image_info(store: &Storage, identifier: &str) -> (r: Result<Option<ObjectRecord>, StoreError>)
        requires
            store.wf(),
        ensures
            identifier@.len() == 0 ==> r == Err::<Option<ObjectRecord>, StoreError>(StoreError::Invalid(InvalidInput::Empty)),
            identifier@.len() > 0 ==> (r matches Ok(found) && match found {
                Some(rec) => rec.hash@ == identifier@ && store.catalog.records@.contains(rec),
                None => !store.catalog.has_hash(identifier@),
            }),
    {
        if identifier.is_empty() {
            return Err(StoreError::Invalid(InvalidInput::Empty));
        }
        Ok(store.catalog.find_by_hash(identifier))
    }

    /// Counts a read of an object and returns where its bytes are stored.
    pub fn read_image_file(store: &mut Storage, identifier: &str) -> (r: Result<String, StoreError>)
        requires
            old(store).wf(),
        ensures
            final(store).wf(),
            !old(store).catalog.has_hash(identifier@) ==> r == Err::<String, StoreError>(StoreError::NotFound) && *final(store) == *old(store),
            old(store).catalog.has_hash(identifier@) ==> (r matches Ok(path) && exists|i: int|
                0 <= i < old(store).catalog.records@.len() && old(store).catalog.records@[i].hash@ == identifier@
                && path@ == blob_key_of(identifier@, old(store).catalog.records@[i].extension@)),
            final(store).tokens == old(store).tokens,
            final(store).cache == old(store).cache,
            forall|i: int| 0 <= i < old(store).catalog.records@.len() && old(store).catalog.records@[i].hash@ == identifier@ ==> {
                let o = old(store).catalog.records@[i];
                &&& final(store).catalog.records@[i].last_accessed is Some
                &&& final(store).catalog.records@ == old(store).catalog.records@.update(
                    i,
                    ObjectRecord {
                        last_accessed: final(store).catalog.records@[i].last_accessed,
                        access_count: if o.access_count == u64::MAX { o.access_count } else { (o.access_count + 1) as u64 },
                        ..o
                    },
                )
            },
    {
        let i = match store.catalog.position(identifier) {
            Some(i) => i,
            None => { return Err(StoreError::NotFound); },
        };
        let ghost before = *store;
        let path = shard_path("", store.catalog.records[i].hash.as_str(), store.catalog.records[i].extension.as_str());
        proof {
            reveal_strlit("");
            assert(is_digest(store.catalog.records@[i as int].hash@));
        }
        assert(""@ + blob_key_of(identifier@, store.catalog.records@[i as int].extension@) =~= blob_key_of(identifier@, store.catalog.records@[i as int].extension@));
        let now = now_seconds();
        store.catalog.touch_access(identifier, now);
        proof {
            assert forall|k: int| 0 <= k < store.tokens.tokens@.len() implies
                (#[trigger] store.tokens.tokens@[k]).used_upload_size == store.charged(store.tokens.tokens@[k].id) by {
                assert(before.tokens.tokens@[k] == store.tokens.tokens@[k]);
            }
            assert forall|k: int| 0 <= k < store.catalog.records@.len() implies is_digest(#[trigger] store.catalog.records@[k].hash@) by {
                assert(store.catalog.records@[k].hash == before.catalog.records@[k].hash);
            }
            assert forall|k: int| 0 <= k < store.cache.entries@.len() implies
                crate::store::has_original(store.catalog.records@, #[trigger] store.cache.entries@[k]) by {
                assert(crate::store::has_original(before.catalog.records@, before.cache.entries@[k]));
                let j = choose|j: int| 0 <= j < before.catalog.records@.len()
                    && before.catalog.records@[j].hash@ == before.cache.entries@[k].original_hash@
                    && before.catalog.records@[j].owner_token_id == before.cache.entries@[k].owner_token_id;
                assert(store.catalog.records@[j].hash == before.catalog.records@[j].hash);
                assert(store.catalog.records@[j].owner_token_id == before.catalog.records@[j].owner_token_id);
            }
        }
        Ok(path)
    }

    /// Deletes an object with its blob and derived artifacts; see
    /// `delete_object_post` for exactly what changes.
    pub fn delete_image(store: &mut Storage, identifier: &str) -> (r: Result<(), StoreError>)
        requires
            old(store).wf(),
        ensures
            delete_object_post(*old(store), *final(store), identifier@, r),
    {
        store.delete_object(identifier)
    }

    /// A page of the objects of `owner` (all objects when `None`) and their number.
    pub fn query_images(store: &Storage, owner: Option<i32>, offset: usize, limit: usize) -> (r: (Vec<ObjectRecord>, usize))
        ensures
            r.1 == store.catalog.filtered(owner).len(),
            r.0@ == store.catalog.filtered(owner).subrange(
                if offset < r.1 { offset as int } else { r.1 as int },
                if offset < r.1 && limit < r.1 - offset { offset + limit } else { r.1 as int },
            ),
    {
        store.catalog.query(owner, offset, limit)
    }

    /// Count and bytes of the objects of `owner` (all objects when `None`).
    pub fn get_stats(store: &Storage, owner: Option<i32>) -> (r: ObjectStats)
        ensures
            match owner {
                Some(t) => r.count == crate::accounting::owned_count(store.catalog.charges(), t)
                    && r.total_bytes == crate::accounting::owned_bytes(store.catalog.charges(), t),
                None => r.count == store.catalog.records@.len()
                    && r.total_bytes == crate::accounting::total_bytes(store.catalog.charges()),
            },
    {
        store.catalog.aggregate_stats(owner)
    }
}

} // verus!
