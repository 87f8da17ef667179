use backup::cache::AsyncCache;
use backup::decryption::{check, CryptoError, MessageLayer};
use backup::filetype::FileType;
use backup::pipeline::{
    backup_name, catalog_file_name, compose_name, encrypted_catalog_name, generate_name, is_utc_timestamp,
    random_suffix, Stats,
};
use backup::rebuild_cache::record_listing;
use backup::sharding::ShardedChannel;
use backup::store::DataStore;
use backup::swift::{next_marker, ObjectEntry};
use backup::upload_worker::{upload, upload_targets, UploadRequest};

fn store(id: i32) -> DataStore {
    DataStore {
        id,
        data_container: "data".into(),
        metadata_container: "meta".into(),
        data_prefix: "blobs/".into(),
        metadata_prefix: "cat/".into(),
    }
}

fn object(name: &str, hash: &str) -> ObjectEntry {
    ObjectEntry {
        hash: hash.into(),
        last_modified: String::new(),
        bytes: 0,
        name: name.into(),
        content_type: String::new(),
    }
}

#[test]
fn object_keys() {
    let s = store(1);
    assert_eq!(s.data_key("ABC"), "blobs/ABC");
    assert_eq!(s.metadata_key("backup-x"), "cat/backup-x.metadata");
    assert_eq!(s.backup_stem("cat/backup-x.metadata"), Some("backup-x".to_string()));
    assert_eq!(s.backup_stem("cat/backup-x.sqlite"), None);
    assert_eq!(s.backup_stem("other/b.metadata"), None);
    assert_eq!(s.ledger_hash("blobs/ABC"), Some("ABC".to_string()));
    assert_eq!(s.ledger_hash("ABC"), None);
}

#[test]
fn names_of_a_run() {
    assert_eq!(backup_name("2024-01-02T03:04:05Z", "aB3d"), "backup-2024-01-02T03:04:05Z-aB3d");
    assert_eq!(catalog_file_name("n"), "n.metadata.sqlite");
    assert_eq!(encrypted_catalog_name("n"), "n.metadata");
    let g = generate_name().unwrap();
    assert!(g.starts_with("backup-"));
    let suffix = &g[g.len() - 4..];
    assert!(suffix.chars().all(|c| c.is_ascii_alphanumeric()));
    assert_eq!(&g[g.len() - 5..g.len() - 4], "-");
    assert!(g.ends_with(suffix) && g.len() == "backup-".len() + 20 + 5);
}

#[test]
fn random_suffixes() {
    let a = random_suffix().unwrap();
    assert_eq!(a.chars().count(), 4);
    assert!(a.chars().all(|c| c.is_ascii_alphanumeric()));
    let many: std::collections::HashSet<String> = (0..20).map(|_| random_suffix().unwrap()).collect();
    assert!(many.len() > 1);
}

#[test]
fn stats_count_entries() {
    let mut s = Stats::new();
    s.record(FileType::FILE, true, 6, false);
    s.record(FileType::FILE, false, 4, true);
    s.record(FileType::SYMLINK, false, 0, false);
    s.record(FileType::DIRECTORY, false, 4096, false);
    assert_eq!((s.files, s.unchanged_files, s.uploaded, s.size, s.links, s.directories), (2, 1, 1, 10, 1, 1));
    assert!(s.can_record(1));
    s.size = u64::MAX;
    assert!(!s.can_record(1));
}

#[test]
fn upload_targets_and_report() {
    let stores = vec![store(1), store(2), store(3)];
    assert_eq!(upload_targets(&stores, &vec![3, 9, 1]), vec![2, 0]);
    let r = upload(UploadRequest { filename: "f".into(), data_hash: "H".into() }, &vec![1, 2, 3], &vec![false, true, true]);
    assert_eq!(r.store_ids, vec![2, 3]);
    assert_eq!(r.data_hash, "H");
}

#[test]
fn utc_timestamp_shape() {
    assert!(is_utc_timestamp("2024-01-02T03:04:05Z"));
    assert!(!is_utc_timestamp("2024-01-02T03:04:05+00:00"));
    assert!(!is_utc_timestamp("+10000-01-02T03:04:05Z"));
    assert!(!is_utc_timestamp("2024-01-02 03:04:05Z"));
    let g = generate_name().unwrap();
    assert!(is_utc_timestamp(&g["backup-".len().."backup-".len() + 20]));
}

#[test]
fn names_from_parts() {
    assert_eq!(compose_name("2024-01-02T03:04:05Z", "aB3d"), Some("backup-2024-01-02T03:04:05Z-aB3d".to_string()));
    assert_eq!(compose_name("2024-01-02T03:04:05+00:00", "aB3d"), None);
    assert_eq!(compose_name("2024-01-02T03:04:05Z", "aB3"), None);
    assert_eq!(compose_name("2024-01-02T03:04:05Z", "aB-d"), None);
}

#[test]
fn listing_pages() {
    assert!(next_marker(&vec![]).is_none());
    assert_eq!(next_marker(&vec![object("a", "1"), object("b", "2")]), Some("b".to_string()));
}

#[test]
fn ledger_rebuilt_from_listing() {
    let mut cache = AsyncCache::new();
    let s = store(7);
    let page = vec![object("blobs/AA", "m1"), object("elsewhere", "m2"), object("blobs/BB", "m3")];
    assert_eq!(record_listing(&mut cache, &s, &page).ok(), Some(2));
    assert!(cache.requires_upload(&"AA".to_string(), &vec![store(7)]).is_empty());
    assert!(cache.requires_upload(&"BB".to_string(), &vec![store(7)]).is_empty());
    assert_eq!(cache.requires_upload(&"CC".to_string(), &vec![store(7)]), vec![7]);
    assert_eq!(cache.ledger_rows()[0].encrypted_md5, "m1");
    assert_eq!(cache.ledger_rows()[1].data_hash, "BB");
    assert_eq!(cache.ledger_rows()[1].encrypted_md5, "m3");
    assert!(record_listing(&mut cache, &s, &page).is_err());
}

#[test]
fn listing_with_a_repeated_blob_fails() {
    let mut cache = AsyncCache::new();
    cache.clear_cold_storage_cache();
    let s = store(7);
    let page = vec![object("blobs/AA", "m1"), object("blobs/AA", "m2")];
    assert!(record_listing(&mut cache, &s, &page).is_err());
    let distinct = vec![object("blobs/AA", "m1"), object("blobs/CC", "m2"), object("x", "m3")];
    let mut fresh = AsyncCache::new();
    assert_eq!(record_listing(&mut fresh, &s, &distinct).ok(), Some(2));
}

#[test]
fn signature_policy() {
    let layers = vec![
        MessageLayer::Encryption,
        MessageLayer::Compression,
        MessageLayer::SignatureGroup { results: vec![false, true] },
    ];
    assert_eq!(check(&layers, true), Ok(()));
    assert_eq!(check(&layers, false), Ok(()));
    let unsigned = vec![MessageLayer::Encryption];
    assert_eq!(check(&unsigned, true), Err(CryptoError::NoValidSignature));
    assert_eq!(check(&unsigned, false), Ok(()));
    let bad = vec![MessageLayer::SignatureGroup { results: vec![false] }];
    assert_eq!(check(&bad, true), Err(CryptoError::NoValidSignature));
}

#[test]
fn sharded_channel_routes_by_first_character() {
    let received = std::sync::Arc::new(std::sync::Mutex::new(Vec::new()));
    let sink = received.clone();
    let channel: ShardedChannel<u32> = ShardedChannel::new(3, move |rx| sink.lock().unwrap().push(rx));
    assert_eq!(channel.shard_for("A"), 65 % 3);
    assert_eq!(channel.shard_for("B12"), 66 % 3);
    assert!(channel.send(7, "A").is_ok());
    let receivers = received.lock().unwrap();
    assert_eq!(receivers.len(), 3);
    assert_eq!(receivers[65 % 3].recv().unwrap(), 7);
    let copy = channel.clone();
    assert!(copy.send(9, "B").is_ok());
    assert_eq!(receivers[66 % 3].recv().unwrap(), 9);
}
