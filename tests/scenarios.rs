use backup::cache::AsyncCache;
use backup::filetype::FileType;
use backup::hash::data;
use backup::metadata_file::{catalog_metadata, read_size, CatalogReader, FileMetadata};
use backup::pipeline::{claim_upload, finish_upload, Stats};
use backup::restore::{restore_action, verify_restored, RestoreAction, RestoreError};
use backup::store::DataStore;
use backup::upload_worker::{upload, UploadRequest};

fn one_store() -> Vec<DataStore> {
    vec![DataStore {
        id: 1,
        data_container: "data".into(),
        metadata_container: "meta".into(),
        data_prefix: "p/".into(),
        metadata_prefix: "m/".into(),
    }]
}

#[test]
fn single_file_round_trip() {
    let stores = one_store();
    let mut cache = AsyncCache::new();
    cache.init();
    let bytes = b"hello\n";
    let h = data(bytes, "secret");
    assert_eq!(h, "E16C785B06B64CAD63C9F192986FB9B7EF65F6960573C47DB954596B8F953EAA214F03F46C5207534D5A0E09F31022C28F9B317B70C5616382F4D7AFF5833A5F");
    assert_eq!(stores[0].data_key(&h), format!("p/{}", h));
    assert_eq!(claim_upload(&mut cache, &h, &stores), vec![1]);
    let row = FileMetadata::file(0, "/a.bin".into(), 1700000000, 0o644, h.clone());
    let mut stats = Stats::new();
    stats.record(row.ttype, false, 6, true);
    assert_eq!(read_size(&catalog_metadata(stats.size)[1].1), Some(6));
    match restore_action(&row, "/dest") {
        RestoreAction::File { path, data_hash, mtime, mode } => {
            assert_eq!(path, "/dest/a.bin");
            assert_eq!((mtime, mode), (1700000000, 0o644));
            assert_eq!(verify_restored(bytes, "secret", &data_hash), Ok(()));
        }
        _ => panic!("expected a file"),
    }
}

#[test]
fn deduplication_single_upload() {
    let stores = one_store();
    let mut cache = AsyncCache::new();
    cache.init();
    let hx = data(b"same bytes", "s");
    let hy = data(b"same bytes", "s");
    assert_eq!(hx, hy);
    let first = claim_upload(&mut cache, &hx, &stores);
    let second = claim_upload(&mut cache, &hy, &stores);
    let uploads = [first.len(), second.len()].iter().filter(|n| **n > 0).count();
    assert_eq!(uploads, 1);
    let x = FileMetadata::file(1, "/x".into(), 0, 0o644, hx.clone());
    let y = FileMetadata::file(2, "/y".into(), 0, 0o644, hy.clone());
    assert_eq!(x.data_hash, y.data_hash);
}

#[test]
fn symlink_and_directory() {
    let d = FileMetadata::directory(1, "/d".into(), 0, 0o755);
    let l = FileMetadata::symlink(2, "/d/l".into(), 0, 0o777, "../target".into());
    assert_eq!(d.ttype, FileType::DIRECTORY);
    assert_eq!(l.destination, Some("../target".to_string()));
    assert!(d.data_hash.is_none() && l.data_hash.is_none());
    assert!(matches!(restore_action(&d, "/r"), RestoreAction::Directory { mode: 0o755, .. }));
    assert!(matches!(restore_action(&l, "/r"), RestoreAction::Symlink { ref target, .. } if target == "../target"));
    let mut stats = Stats::new();
    stats.record(d.ttype, false, 0, false);
    stats.record(l.ttype, false, 0, false);
    assert_eq!((stats.uploaded, stats.directories, stats.links), (0, 1, 1));
}

#[test]
fn empty_tree_backup() {
    let root = FileMetadata::directory(0, "/src".into(), 0, 0o755);
    let mut stats = Stats::new();
    stats.record(root.ttype, false, 4096, false);
    assert_eq!((stats.files, stats.uploaded, stats.size, stats.directories), (0, 0, 0, 1));
    let mut reader = CatalogReader::new();
    assert!(reader.accept(root).is_ok());
    assert_eq!(catalog_metadata(stats.size)[1].1, "0");
}

#[test]
fn second_backup_uploads_nothing() {
    let stores = one_store();
    let mut cache = AsyncCache::new();
    cache.init();
    let h = data(b"content", "s");
    let needed = claim_upload(&mut cache, &h, &stores);
    let report = upload(UploadRequest { filename: "f".into(), data_hash: h.clone() }, &needed, &vec![true]);
    assert!(finish_upload(&mut cache, &report).is_ok());
    cache.try_get_hash(7, 1, b"/f");
    cache.cleanup();
    cache.init();
    assert!(claim_upload(&mut cache, &h, &stores).is_empty());
}

#[test]
fn restore_integrity_failure() {
    let h = data(b"original", "s");
    assert_eq!(verify_restored(b"corrupted", "s", &h), Err(RestoreError::IntegrityMismatch));
}
