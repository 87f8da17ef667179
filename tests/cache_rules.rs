use backup::cache::{AsyncCache, CacheError};
use backup::hash::metadata;
use backup::hash_worker::{must_hash, settle_hash};
use backup::pipeline::{claim_upload, finish_upload};
use backup::store::DataStore;
use backup::upload_worker::{upload, UploadRequest};

fn store(id: i32) -> DataStore {
    DataStore {
        id,
        data_container: format!("data{}", id),
        metadata_container: format!("meta{}", id),
        data_prefix: format!("d{}/", id),
        metadata_prefix: format!("m{}/", id),
    }
}

#[test]
fn requires_upload_returns_missing_stores() {
    let mut cache = AsyncCache::new();
    cache.init();
    let stores = vec![store(1), store(2), store(3)];
    let h = "ABC".to_string();
    assert_eq!(cache.requires_upload(&h, &stores), vec![1, 2, 3]);
    assert_eq!(cache.set_data_in_cold_storage("ABC", "md5", &vec![2]).ok(), Some(1));
    assert_eq!(cache.requires_upload(&h, &stores), vec![1, 3]);
    assert!(!cache.is_data_in_cold_storage(&h, &stores));
    assert_eq!(cache.set_data_in_cold_storage("ABC", "md5", &vec![1, 3]).ok(), Some(2));
    assert!(cache.requires_upload(&h, &stores).is_empty());
    assert!(cache.is_data_in_cold_storage(&h, &stores));
    assert_eq!(cache.requires_upload(&"OTHER".to_string(), &stores), vec![1, 2, 3]);
}

#[test]
fn lock_data_twice() {
    let mut cache = AsyncCache::new();
    cache.init();
    assert!(cache.lock_data("H1"));
    assert!(!cache.lock_data("H1"));
    assert!(cache.lock_data("H2"));
    cache.init();
    assert!(cache.lock_data("H1"));
}

#[test]
fn ledger_refuses_repeated_rows() {
    let mut cache = AsyncCache::new();
    assert!(cache.set_data_in_cold_storage("H", "x", &vec![1]).is_ok());
    match cache.set_data_in_cold_storage("H", "x", &vec![2, 1]) {
        Err(CacheError::AlreadyStored(id)) => assert_eq!(id, 1),
        _ => panic!("expected a conflict"),
    }
    // the store listed before the conflict stays recorded
    assert!(cache.requires_upload(&"H".to_string(), &vec![store(1), store(2)]).is_empty());
    assert!(matches!(
        cache.set_data_in_cold_storage("G", "x", &vec![4, 4, 5]),
        Err(CacheError::AlreadyStored(4))
    ));
    assert_eq!(cache.requires_upload(&"G".to_string(), &vec![store(4), store(5)]), vec![5]);
    assert_eq!(cache.ledger_rows().len(), 3);
    match cache.set_data_in_cold_storage("K", "x", &vec![1, 2, 1]) {
        Err(CacheError::AlreadyStored(id)) => assert_eq!(id, 1),
        _ => panic!("expected a conflict"),
    }
    assert_eq!(cache.ledger_rows().len(), 5);
}

#[test]
fn ledger_rows_carry_the_checksum() {
    let mut cache = AsyncCache::new();
    cache.set_data_in_cold_storage("H", "sum", &vec![3, 1]).ok();
    let rows = cache.ledger_rows();
    assert_eq!(rows.len(), 2);
    assert_eq!((rows[0].data_hash.as_str(), rows[0].encrypted_md5.as_str(), rows[0].store_id), ("H", "sum", 3));
    assert_eq!((rows[1].data_hash.as_str(), rows[1].encrypted_md5.as_str(), rows[1].store_id), ("H", "sum", 1));
}

#[test]
fn every_memo_row_is_listed() {
    let mut cache = AsyncCache::new();
    cache.load_memo_row("A".to_string(), Some("HA".to_string()));
    cache.load_memo_row("B".to_string(), None);
    cache.init();
    cache.try_get_hash(1, 1, b"/new");
    let mut rows: Vec<(String, Option<String>)> = cache.memo_rows().into_iter().map(|r| (r.fs_hash, r.data_hash)).collect();
    rows.sort();
    assert_eq!(rows.len(), 3);
    assert!(rows.contains(&("A".to_string(), Some("HA".to_string()))));
    assert!(rows.contains(&("B".to_string(), None)));
    assert_eq!(cache.in_use_rows().len(), 1);
    cache.cleanup();
    assert_eq!(cache.memo_rows().len(), 1);
}

#[test]
fn clear_ledger_then_rebuild() {
    let mut cache = AsyncCache::new();
    cache.set_data_in_cold_storage("H", "x", &vec![1, 2]).ok();
    cache.clear_cold_storage_cache();
    assert_eq!(cache.ledger_rows().len(), 0);
    assert_eq!(cache.requires_upload(&"H".to_string(), &vec![store(1)]), vec![1]);
}

#[test]
fn memo_lookup_set_and_cleanup() {
    let mut cache = AsyncCache::new();
    cache.init();
    assert_eq!(cache.try_get_hash(6, 1700000000, b"/a.bin"), None);
    let fp = metadata(6, 1700000000, b"/a.bin");
    assert_eq!(cache.set_data_hash(&fp, "HASH"), 1);
    assert_eq!(cache.set_data_hash("unknown", "HASH"), 0);
    assert_eq!(cache.try_get_hash(6, 1700000000, b"/a.bin"), Some("HASH".to_string()));
    cache.cleanup();
    let rows = cache.in_use_rows();
    assert_eq!(rows.len(), 1);
    assert_eq!(rows[0].fs_hash, fp);
    assert_eq!(rows[0].data_hash, Some("HASH".to_string()));
    cache.init();
    assert!(cache.in_use_rows().is_empty());
    cache.cleanup();
    assert_eq!(cache.try_get_hash(6, 1700000000, b"/a.bin"), None);
}

#[test]
fn loaded_memo_rows_are_found() {
    let mut cache = AsyncCache::new();
    let fp = metadata(1, 2, b"/f");
    assert!(cache.load_memo_row(fp.clone(), Some("H".to_string())));
    assert!(!cache.load_memo_row(fp.clone(), None));
    cache.init();
    assert_eq!(cache.try_get_hash(1, 2, b"/f"), Some("H".to_string()));
}

#[test]
fn deduplicated_upload_once() {
    let mut cache = AsyncCache::new();
    cache.init();
    let stores = vec![store(1)];
    let h = "SAMEHASH".to_string();
    assert_eq!(claim_upload(&mut cache, &h, &stores), vec![1]);
    assert!(claim_upload(&mut cache, &h, &stores).is_empty());
    let report = upload(UploadRequest { filename: "x".to_string(), data_hash: h.clone() }, &vec![1], &vec![true]);
    assert_eq!(finish_upload(&mut cache, &report).ok(), Some(1));
    cache.init();
    assert!(claim_upload(&mut cache, &h, &stores).is_empty());
}

#[test]
fn partial_store_failure_is_retried() {
    let mut cache = AsyncCache::new();
    cache.init();
    let stores = vec![store(1), store(2)];
    let h = "BLOB".to_string();
    let needed = claim_upload(&mut cache, &h, &stores);
    assert_eq!(needed, vec![1, 2]);
    let report = upload(UploadRequest { filename: "f".to_string(), data_hash: h.clone() }, &needed, &vec![true, false]);
    assert_eq!(report.store_ids, vec![1]);
    finish_upload(&mut cache, &report).ok();
    cache.init();
    assert_eq!(claim_upload(&mut cache, &h, &stores), vec![2]);
}

#[test]
fn force_hash_divergence() {
    let mut cache = AsyncCache::new();
    cache.init();
    let fp = metadata(3, 4, b"/g");
    assert_eq!(cache.try_get_hash(3, 4, b"/g"), None);
    cache.set_data_hash(&fp, "OLD");
    let cached = cache.try_get_hash(3, 4, b"/g");
    assert_eq!(cached, Some("OLD".to_string()));
    assert!(!must_hash(&cached, false));
    assert!(must_hash(&cached, true));
    let outcome = settle_hash(&mut cache, &fp, cached, Some("NEW".to_string())).unwrap();
    assert_eq!(outcome.data_hash, "NEW");
    assert!(outcome.hash_cached);
    assert!(outcome.diverged);
    assert_eq!(cache.try_get_hash(3, 4, b"/g"), Some("NEW".to_string()));
}

#[test]
fn settle_hash_without_memo() {
    let mut cache = AsyncCache::new();
    assert!(must_hash(&None, false));
    assert!(settle_hash(&mut cache, "fp", None, None).is_none());
    let o = settle_hash(&mut cache, "fp", None, Some("H".to_string())).unwrap();
    assert!(!o.hash_cached && !o.diverged);
    let o = settle_hash(&mut cache, "fp", Some("H".to_string()), None).unwrap();
    assert!(o.hash_cached && !o.diverged);
    assert_eq!(o.data_hash, "H");
}

#[test]
fn get_hash_memoises() {
    let mut cache = AsyncCache::new();
    cache.init();
    let h = cache.get_hash(6, 1700000000, b"/a.bin", b"hello\n", "secret");
    assert_eq!(h, backup::hash::data(b"hello\n", "secret"));
    let again = cache.get_hash(6, 1700000000, b"/a.bin", b"changed", "secret");
    assert_eq!(again, h);
    assert_eq!(cache.try_get_hash(6, 1700000000, b"/a.bin"), Some(h));
}
