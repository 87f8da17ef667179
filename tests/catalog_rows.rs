use backup::filetype::FileType;
use backup::metadata_file::{
    catalog_metadata, read_size, version_supported, CatalogError, CatalogReader, FileMetadata,
};

fn row(uid: i64) -> FileMetadata {
    FileMetadata::from_row(uid, format!("/d/{}", uid), 0, 0o755, "DIRECTORY", None, None).unwrap()
}

#[test]
fn file_type_classification() {
    assert_eq!(FileType::from(true, false, false), Some(FileType::DIRECTORY));
    assert_eq!(FileType::from(false, true, false), Some(FileType::FILE));
    assert_eq!(FileType::from(false, false, true), Some(FileType::SYMLINK));
    assert_eq!(FileType::from(false, false, false), None);
}

#[test]
fn file_type_names_round_trip() {
    for t in [FileType::FILE, FileType::SYMLINK, FileType::DIRECTORY] {
        assert_eq!(FileType::parse(&t.to_string()), Some(t));
    }
    assert_eq!(FileType::FILE.to_string(), "FILE");
    assert_eq!(FileType::parse("file"), None);
}

#[test]
fn rows_from_columns() {
    let f = FileMetadata::from_row(0, "/a.bin".into(), 1700000000, 0o644, "FILE", None, Some("H".into())).unwrap();
    assert_eq!(f.ttype, FileType::FILE);
    assert_eq!(f.mode, 0o644);
    let l = FileMetadata::from_row(2, "/d/l".into(), 0, 0o777, "SYMLINK", Some("../target".into()), None).unwrap();
    assert_eq!(l.destination, Some("../target".to_string()));
}

#[test]
fn malformed_rows_are_refused() {
    assert_eq!(FileMetadata::from_row(0, "/a".into(), 0, 0, "PIPE", None, None).err(), Some(CatalogError::UnknownKind));
    assert_eq!(FileMetadata::from_row(0, "/a".into(), 0, -1, "FILE", None, Some("H".into())).err(), Some(CatalogError::BadMode));
    assert_eq!(FileMetadata::from_row(0, "/a".into(), 0, 1 << 33, "FILE", None, Some("H".into())).err(), Some(CatalogError::BadMode));
    assert_eq!(FileMetadata::from_row(0, "/a".into(), 0, 0, "FILE", None, None).err(), Some(CatalogError::Malformed));
    assert_eq!(FileMetadata::from_row(0, "/a".into(), 0, 0, "SYMLINK", None, None).err(), Some(CatalogError::Malformed));
    assert_eq!(FileMetadata::from_row(-1, "/a".into(), 0, 0, "DIRECTORY", None, None).err(), Some(CatalogError::Malformed));
}

#[test]
fn reader_lets_rising_uids_through() {
    let mut reader = CatalogReader::new();
    assert_eq!(reader.accept(row(0)).unwrap().uid, 0);
    assert_eq!(reader.accept(row(1)).unwrap().uid, 1);
    assert_eq!(reader.accept(row(4)).unwrap().uid, 4);
    assert_eq!(reader.accept(row(4)).err(), Some(CatalogError::OutOfOrder));
    assert_eq!(reader.accept(row(2)).err(), Some(CatalogError::OutOfOrder));
    assert_eq!(reader.accept(row(5)).unwrap().uid, 5);
}

#[test]
fn constructed_rows() {
    let f = FileMetadata::file(3, "/x".into(), 7, 0o600, "H".into());
    assert_eq!((f.uid, f.ttype, f.data_hash.clone(), f.destination.clone()), (3, FileType::FILE, Some("H".to_string()), None));
    let s = FileMetadata::symlink(4, "/l".into(), 7, 0o777, "../t".into());
    assert_eq!(s.destination, Some("../t".to_string()));
    assert_eq!(s.data_hash, None);
    let d = FileMetadata::directory(5, "/d".into(), 7, 0o755);
    assert_eq!((d.ttype, d.mode), (FileType::DIRECTORY, 0o755));
}

#[test]
fn catalog_key_values() {
    let kv = catalog_metadata(6);
    assert_eq!(kv, vec![("version".to_string(), "0".to_string()), ("size".to_string(), "6".to_string())]);
    assert_eq!(read_size(&kv[1].1), Some(6));
    assert_eq!(read_size(&catalog_metadata(u64::MAX)[1].1), Some(u64::MAX));
    assert!(version_supported("0"));
    assert!(!version_supported("1"));
    assert!(!version_supported(""));
}
