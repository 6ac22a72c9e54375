use rifs::catalog::ObjectRecord;
use rifs::error::{InvalidInput, StoreError};
use rifs::eviction::CleanupResult;
use rifs::images::ImageService;
use rifs::quota::{QuotaError, TokenRole};
use rifs::store::{CacheLookup, Storage, StorageConfig, UploadStep};
use rifs::token::TokenService;

const PNG_SIGNATURE: [u8; 8] = [0x89, 0x50, 0x4e, 0x47, 0x0d, 0x0a, 0x1a, 0x0a];

fn png(len: usize, fill: u8) -> Vec<u8> {
    let mut v = PNG_SIGNATURE.to_vec();
    while v.len() < len {
        v.push(fill);
    }
    v
}

fn config() -> StorageConfig {
    StorageConfig {
        max_file_size: 1 << 20,
        capacity_bytes: 10_000,
        trigger_percent: 80,
        target_percent: 60,
        decay_num: 9,
        decay_den: 10,
    }
}

fn tenant(store: &mut Storage, limit: Option<u64>) -> i32 {
    TokenService::create_token(&mut store.tokens, "tenant", TokenRole::User, limit, None, 0)
        .ok()
        .unwrap()
        .token
        .id
}

fn used(store: &Storage, id: i32) -> u64 {
    store.tokens.tokens.iter().find(|t| t.id == id).unwrap().used_upload_size
}

fn upload(store: &mut Storage, data: &[u8], owner: i32) -> Result<ObjectRecord, StoreError> {
    match store.begin_upload(data, None, Some(owner), 100)? {
        UploadStep::Existing(rec) => Ok(rec),
        UploadStep::Write { record, .. } => store.finish_upload(&record.hash, true),
    }
}

#[test]
fn quota_limit_scenario() {
    let mut store = Storage::new(config());
    let t = tenant(&mut store, Some(1000));
    let first = upload(&mut store, &png(600, 1), t).unwrap();
    assert_eq!(first.size, 600);
    assert_eq!(used(&store, t), 600);

    let second = upload(&mut store, &png(500, 2), t);
    assert_eq!(second.err(), Some(StoreError::QuotaExceeded));
    assert_eq!(used(&store, t), 600);
    assert_eq!(store.catalog.records.len(), 1);

    let again = upload(&mut store, &png(600, 1), t).unwrap();
    assert_eq!(again.hash, first.hash);
    assert_eq!(used(&store, t), 600);
}

#[test]
fn reupload_returns_same_record_and_reserves_once() {
    let mut store = Storage::new(config());
    let t = tenant(&mut store, None);
    let data = png(64, 7);
    let a = upload(&mut store, &data, t).unwrap();
    let before = used(&store, t);
    match store.begin_upload(&data, Some("again.png".to_string()), Some(t), 200).unwrap() {
        UploadStep::Existing(rec) => {
            assert_eq!(rec.hash, a.hash);
            assert_eq!(rec.created_at, a.created_at);
        }
        UploadStep::Write { .. } => panic!("known content must not be written again"),
    }
    assert_eq!(used(&store, t), before);
    assert_eq!(before, 64);
    assert!(store.reservations.is_empty());
}

#[test]
fn same_bytes_from_two_owners_are_two_objects() {
    let mut store = Storage::new(config());
    let a = tenant(&mut store, None);
    let b = tenant(&mut store, None);
    let data = png(32, 3);
    let ra = upload(&mut store, &data, a).unwrap();
    let rb = upload(&mut store, &data, b).unwrap();
    assert_ne!(ra.hash, rb.hash);
    assert_eq!(store.catalog.records.len(), 2);
}

#[test]
fn uploaded_record_fields() {
    let mut store = Storage::new(config());
    let t = tenant(&mut store, None);
    match store.begin_upload(&png(40, 9), Some("cat.png".to_string()), Some(t), 77).unwrap() {
        UploadStep::Write { record, blob_key } => {
            assert_eq!(record.hash.len(), 64);
            assert_eq!(record.mime_type, "image/png");
            assert_eq!(record.extension, "png");
            assert_eq!(record.created_at, 77);
            assert_eq!(record.access_count, 0);
            assert_eq!(record.original_filename.as_deref(), Some("cat.png"));
            let expected = format!("{}/{}/{}.png", &record.hash[0..2], &record.hash[2..4], record.hash);
            assert_eq!(blob_key, expected);
            assert_eq!(used(&store, t), 40);
            assert_eq!(store.reservations.len(), 1);
        }
        UploadStep::Existing(_) => panic!("new content"),
    }
}

#[test]
fn failed_blob_write_releases_reservation() {
    let mut store = Storage::new(config());
    let t = tenant(&mut store, Some(1000));
    let hash = match store.begin_upload(&png(300, 4), None, Some(t), 1).unwrap() {
        UploadStep::Write { record, .. } => record.hash,
        UploadStep::Existing(_) => panic!("new content"),
    };
    assert_eq!(used(&store, t), 300);
    assert_eq!(store.finish_upload(&hash, false).err(), Some(StoreError::IoFailure));
    assert_eq!(used(&store, t), 0);
    assert!(store.catalog.records.is_empty());
    assert!(store.reservations.is_empty());
}

#[test]
fn racing_upload_falls_back_to_committed_record() {
    let mut store = Storage::new(config());
    let t = tenant(&mut store, None);
    let data = png(50, 5);
    let h1 = match store.begin_upload(&data, None, Some(t), 1).unwrap() {
        UploadStep::Write { record, .. } => record.hash,
        _ => panic!(),
    };
    let h2 = match store.begin_upload(&data, None, Some(t), 2).unwrap() {
        UploadStep::Write { record, .. } => record.hash,
        _ => panic!(),
    };
    assert_eq!(used(&store, t), 100);
    let winner = store.finish_upload(&h1, true).unwrap();
    let loser = store.finish_upload(&h2, true).unwrap();
    assert_eq!(winner.hash, loser.hash);
    assert_eq!(loser.created_at, winner.created_at);
    assert_eq!(used(&store, t), 50);
    assert_eq!(store.catalog.records.len(), 1);
}

#[test]
fn finish_without_reservation_is_not_found() {
    let mut store = Storage::new(config());
    assert_eq!(store.finish_upload("00", true).err(), Some(StoreError::NotFound));
}

#[test]
fn invalid_uploads_are_rejected_before_reserving() {
    let mut store = Storage::new(StorageConfig { max_file_size: 100, ..config() });
    let t = tenant(&mut store, Some(1000));
    assert_eq!(store.begin_upload(&[], None, Some(t), 0).err(), Some(StoreError::Invalid(InvalidInput::Empty)));
    assert_eq!(
        store.begin_upload(&png(101, 0), None, Some(t), 0).err(),
        Some(StoreError::Invalid(InvalidInput::TooLarge))
    );
    assert_eq!(
        store.begin_upload(b"plain text", None, Some(t), 0).err(),
        Some(StoreError::Invalid(InvalidInput::UnknownType))
    );
    assert_eq!(used(&store, t), 0);
}

#[test]
fn upload_for_unknown_token_is_not_found() {
    let mut store = Storage::new(config());
    assert_eq!(store.begin_upload(&png(20, 1), None, Some(42), 0).err(), Some(StoreError::NotFound));
}

#[test]
fn default_identity_is_not_charged() {
    let mut store = Storage::new(config());
    let rec = upload(&mut store, &png(20, 1), 0).unwrap();
    assert_eq!(rec.owner_token_id, Some(0));
    assert_eq!(store.catalog.records.len(), 1);
}

#[test]
fn delete_object_cascades_and_releases() {
    let mut store = Storage::new(config());
    let t = tenant(&mut store, None);
    let rec = upload(&mut store, &png(100, 1), t).unwrap();
    store.insert_cache_entry(&rec.hash, "w200_h150", 30, 5).unwrap();
    store.insert_cache_entry(&rec.hash, "w100_h100", 20, 5).unwrap();
    assert_eq!(used(&store, t), 150);
    ImageService::delete_image(&mut store, &rec.hash).unwrap();
    assert!(store.catalog.records.is_empty());
    assert!(store.cache.entries.is_empty());
    assert_eq!(used(&store, t), 0);
    assert_eq!(store.pending_deletes.len(), 3);
    assert_eq!(ImageService::delete_image(&mut store, &rec.hash).err(), Some(StoreError::NotFound));
}

#[test]
fn read_image_counts_access() {
    let mut store = Storage::new(config());
    let rec = upload(&mut store, &png(10, 1), 0).unwrap();
    let path = ImageService::read_image_file(&mut store, &rec.hash).unwrap();
    assert!(path.ends_with(".png"));
    assert_eq!(store.catalog.records[0].access_count, 1);
    assert!(store.catalog.records[0].last_accessed.unwrap() > 1_600_000_000);
    assert_eq!(ImageService::read_image_file(&mut store, "missing").err(), Some(StoreError::NotFound));
}

#[test]
fn save_image_stamps_current_time() {
    let mut store = Storage::new(config());
    match ImageService::save_image(&mut store, &png(12, 1), None, 0).unwrap() {
        UploadStep::Write { record, .. } => assert!(record.created_at > 1_600_000_000),
        UploadStep::Existing(_) => panic!("new content"),
    }
}

#[test]
fn get_image_info_rejects_empty_identifier() {
    let store = Storage::new(config());
    assert_eq!(ImageService::get_image_info(&store, "").err(), Some(StoreError::Invalid(InvalidInput::Empty)));
    assert!(ImageService::get_image_info(&store, "abcd").unwrap().is_none());
}

#[test]
fn query_and_stats_by_owner() {
    let mut store = Storage::new(config());
    let a = tenant(&mut store, None);
    let b = tenant(&mut store, None);
    for i in 0..5u8 {
        upload(&mut store, &png(10 + i as usize, i), a).unwrap();
    }
    upload(&mut store, &png(50, 9), b).unwrap();
    let (page, total) = ImageService::query_images(&store, Some(a), 1, 2);
    assert_eq!(total, 5);
    assert_eq!(page.len(), 2);
    assert_eq!(page[0].size, 11);
    assert_eq!(page[1].size, 12);
    let (tail, _) = ImageService::query_images(&store, Some(a), 4, 10);
    assert_eq!(tail.len(), 1);
    let (none, _) = ImageService::query_images(&store, Some(a), 9, 10);
    assert!(none.is_empty());
    let s = ImageService::get_stats(&store, Some(a));
    assert_eq!(s.count, 5);
    assert_eq!(s.total_bytes, 60);
    let all = ImageService::get_stats(&store, None);
    assert_eq!(all.count, 6);
    assert_eq!(all.total_bytes, 110);
}

fn with_entries(n: usize, each: u64) -> (Storage, String) {
    let mut store = Storage::new(config());
    let t = tenant(&mut store, None);
    let rec = upload(&mut store, &png(10, 1), t).unwrap();
    for i in 0..n {
        store.insert_cache_entry(&rec.hash, &format!("w{}", i), each, i as i64).unwrap();
    }
    (store, rec.hash)
}

#[test]
fn clear_cache_ten_entries() {
    let (mut store, _) = with_entries(10, 500);
    let r = store.clear_cache();
    assert_eq!(r, CleanupResult { removed_count: 10, freed_bytes: 5000, remaining_count: 0, remaining_bytes: 0 });
    assert_eq!(store.catalog.records.len(), 1);
    assert_eq!(store.pending_deletes.len(), 10);
}

#[test]
fn cleanup_by_age_keeps_newer_entries() {
    let (mut store, hash) = with_entries(0, 0);
    let day: i64 = 86_400;
    let now = 100 * day;
    store.insert_cache_entry(&hash, "old", 10, now - 31 * day).unwrap();
    store.insert_cache_entry(&hash, "new", 20, now - 29 * day).unwrap();
    store.insert_cache_entry(&hash, "edge", 40, now - 30 * day).unwrap();
    let r = store.cleanup(Some(30 * 86_400), None, now);
    assert_eq!(r.removed_count, 1);
    assert_eq!(r.freed_bytes, 10);
    assert_eq!(r.remaining_count, 2);
    assert_eq!(r.remaining_bytes, 60);
    assert_eq!(store.catalog.records.len(), 1);
    assert!(store.cache.entries.iter().all(|e| e.created_at >= now - 30 * day));
}

#[test]
fn cleanup_by_size_removes_coldest_first() {
    let (mut store, _) = with_entries(4, 100);
    let hot = store.cache.entries[0].cache_key.clone();
    store.cache.bump_heat(&hot, 50);
    let r = store.cleanup(None, Some(150), 60);
    assert_eq!(r.remaining_bytes, 100);
    assert_eq!(r.removed_count, 3);
    assert_eq!(store.cache.entries[0].cache_key, hot);
}

#[test]
fn auto_cleanup_below_trigger_is_noop() {
    let (mut store, _) = with_entries(3, 100);
    let r = store.auto_cleanup();
    assert_eq!(r.removed_count, 0);
    assert_eq!(r.remaining_count, 3);
    assert_eq!(store.cache.entries.len(), 3);
}

#[test]
fn auto_cleanup_above_trigger_reaches_target() {
    let (mut store, _) = with_entries(9, 1000);
    // 10 object bytes + 9000 cache bytes of 10000: above 80%; target is 6000.
    let r = store.auto_cleanup();
    assert_eq!(r.removed_count, 4);
    assert_eq!(r.remaining_bytes, 5000);
    assert!(10 + r.remaining_bytes <= 6000);
}

#[test]
fn decay_never_raises_heat() {
    let (mut store, _) = with_entries(3, 10);
    assert_eq!(store.decay(), 3);
    assert!(store.cache.entries.iter().all(|e| e.heat == 900));
    store.decay();
    assert!(store.cache.entries.iter().all(|e| e.heat == 810));
    for _ in 0..200 {
        let before: Vec<u64> = store.cache.entries.iter().map(|e| e.heat).collect();
        store.decay();
        for (e, b) in store.cache.entries.iter().zip(before) {
            assert!(e.heat <= b);
        }
    }
    assert!(store.cache.entries.iter().all(|e| e.heat == 0));
    assert_eq!(store.cache.entries.len(), 3);
}

#[test]
fn cache_lookup_miss_then_hit() {
    let (mut store, hash) = with_entries(0, 0);
    match store.lookup_cache(&hash, "w200_h150", 10) {
        CacheLookup::Miss { cache_key, file_path } => {
            assert_eq!(cache_key.len(), 64);
            assert!(file_path.starts_with("cache/"));
            assert!(file_path.ends_with(".png"));
        }
        _ => panic!("expected a miss"),
    }
    let e = store.insert_cache_entry(&hash, "w200_h150", 5, 10).unwrap();
    assert_eq!(e.heat, 1000);
    match store.lookup_cache(&hash, "w200_h150", 20) {
        CacheLookup::Hit(hit) => {
            assert_eq!(hit.cache_key, e.cache_key);
            assert_eq!(hit.heat, 2000);
            assert_eq!(hit.last_hit, Some(20));
        }
        _ => panic!("expected a hit"),
    }
    assert!(matches!(store.lookup_cache("nothing", "w1", 0), CacheLookup::NoOriginal));
    assert_eq!(store.insert_cache_entry(&hash, "w200_h150", 5, 10).err(), Some(StoreError::Conflict));
    assert_eq!(store.insert_cache_entry("nothing", "w1", 5, 10).err(), Some(StoreError::NotFound));
}

#[test]
fn cache_entry_counts_against_quota() {
    let mut store = Storage::new(config());
    let t = tenant(&mut store, Some(100));
    let rec = upload(&mut store, &png(90, 1), t).unwrap();
    assert_eq!(store.insert_cache_entry(&rec.hash, "w1", 11, 0).err(), Some(StoreError::QuotaExceeded));
    store.insert_cache_entry(&rec.hash, "w1", 10, 0).unwrap();
    assert_eq!(used(&store, t), 100);
}

#[test]
fn delete_token_removes_its_data() {
    let mut store = Storage::new(config());
    let admin = TokenService::create_token(&mut store.tokens, "root", TokenRole::Admin, None, None, 0).ok().unwrap().token.id;
    let t = tenant(&mut store, None);
    let other = tenant(&mut store, None);
    let rec = upload(&mut store, &png(30, 1), t).unwrap();
    store.insert_cache_entry(&rec.hash, "w1", 5, 0).unwrap();
    upload(&mut store, &png(30, 2), other).unwrap();
    TokenService::delete_token_with_data(&mut store, t).unwrap();
    assert_eq!(store.catalog.records.len(), 1);
    assert!(store.cache.entries.is_empty());
    assert!(store.tokens.find_by_id(t).is_none());
    assert_eq!(used(&store, other), 30);
    assert_eq!(TokenService::delete_token_with_data(&mut store, t).err(), Some(rifs::token::TokenError::NotFound));
    assert_eq!(
        TokenService::delete_token_with_data(&mut store, admin).err(),
        Some(rifs::token::TokenError::LastAdmin)
    );
}

#[test]
fn reserve_exactly_to_limit_then_one_more() {
    let mut store = Storage::new(config());
    let t = tenant(&mut store, Some(1000));
    assert_eq!(TokenService::reserve_storage(&mut store.tokens, t, 400), Ok(()));
    assert_eq!(TokenService::reserve_storage(&mut store.tokens, t, 600), Ok(()));
    assert_eq!(used(&store, t), 1000);
    assert_eq!(TokenService::reserve_storage(&mut store.tokens, t, 1), Err(QuotaError::QuotaExceeded));
    assert_eq!(used(&store, t), 1000);
}

#[test]
fn release_floors_at_zero_and_sentinel_is_exempt() {
    let mut store = Storage::new(config());
    let t = tenant(&mut store, Some(10));
    TokenService::reserve_storage(&mut store.tokens, t, 5).unwrap();
    TokenService::release_storage(&mut store.tokens, t, 50).unwrap();
    assert_eq!(used(&store, t), 0);
    assert_eq!(TokenService::reserve_storage(&mut store.tokens, 0, 1 << 40), Ok(()));
    assert_eq!(TokenService::reserve_storage(&mut store.tokens, 99, 1), Err(QuotaError::NotFound));
    assert_eq!(TokenService::reserve_storage(&mut store.tokens, t, -5), Ok(()));
    assert_eq!(used(&store, t), 0);
}

#[test]
fn remove_one_cache_entry_by_key() {
    let (mut store, hash) = with_entries(0, 0);
    let owner = store.catalog.records[0].owner_token_id.unwrap();
    let e = store.insert_cache_entry(&hash, "w64", 25, 0).unwrap();
    assert_eq!(used(&store, owner), 35);
    assert_eq!(store.remove_cache_entry(&e.cache_key), Ok(25));
    assert_eq!(used(&store, owner), 10);
    assert_eq!(store.pending_deletes, vec![e.file_path.clone()]);
    assert_eq!(store.remove_cache_entry(&e.cache_key), Err(StoreError::NotFound));
}

fn charged(store: &Storage, id: i32) -> u64 {
    let objects: u64 = store.catalog.records.iter().filter(|r| r.owner_token_id == Some(id)).map(|r| r.size).sum();
    let cached: u64 = store.cache.entries.iter().filter(|e| e.owner_token_id == Some(id)).map(|e| e.size).sum();
    objects + cached
}

#[test]
fn usage_tracks_stored_bytes_through_a_session() {
    let mut store = Storage::new(config());
    let a = tenant(&mut store, Some(2000));
    let b = tenant(&mut store, None);
    let r1 = upload(&mut store, &png(300, 1), a).unwrap();
    let r2 = upload(&mut store, &png(400, 2), a).unwrap();
    let _r3 = upload(&mut store, &png(500, 3), b).unwrap();
    store.insert_cache_entry(&r1.hash, "w1", 50, 1).unwrap();
    store.insert_cache_entry(&r2.hash, "w2", 60, 2).unwrap();
    assert!(upload(&mut store, &png(1500, 4), a).is_err());
    for id in [a, b] {
        assert_eq!(used(&store, id), charged(&store, id));
    }
    ImageService::delete_image(&mut store, &r1.hash).unwrap();
    store.decay();
    store.cleanup(None, Some(0), 10);
    for id in [a, b] {
        assert_eq!(used(&store, id), charged(&store, id));
    }
    assert_eq!(used(&store, a), 400);
    assert_eq!(used(&store, b), 500);
}
