use backup::filetype::FileType;
use backup::metadata_file::FileMetadata;
use backup::restore::{
    check_space, download_name, restore_action, restore_target, verify_restored, RestoreAction,
    RestoreError,
};

#[test]
fn targets_under_destination() {
    assert_eq!(restore_target("/restore", "/a.bin"), Some("/restore/a.bin".to_string()));
    assert_eq!(restore_target("/restore/", "/d/l"), Some("/restore/d/l".to_string()));
    assert_eq!(restore_target("/restore", "rel/x"), Some("/restore/rel/x".to_string()));
    assert_eq!(restore_target("/restore", "/a..b/..c"), Some("/restore/a..b/..c".to_string()));
}

#[test]
fn escaping_names_are_skipped() {
    assert_eq!(restore_target("/restore", "/../etc/passwd"), None);
    assert_eq!(restore_target("/restore", "/d/../../x"), None);
    assert_eq!(restore_target("/restore", "/d/.."), None);
    assert_eq!(restore_target("/restore", "//etc"), None);
    assert_eq!(restore_target("/restore", ".."), None);
}

#[test]
fn actions_for_each_kind() {
    let f = FileMetadata::file(0, "/a.bin".into(), 1700000000, 0o644, "H".into());
    match restore_action(&f, "/r") {
        RestoreAction::File { path, data_hash, mtime, mode } => {
            assert_eq!(path, "/r/a.bin");
            assert_eq!(data_hash, "H");
            assert_eq!(mtime, 1700000000);
            assert_eq!(mode, 0o644);
        }
        _ => panic!("expected a file"),
    }
    let d = FileMetadata::directory(1, "/d".into(), 0, 0o755);
    assert!(matches!(restore_action(&d, "/r"), RestoreAction::Directory { path, mode } if path == "/r/d" && mode == 0o755));
    let l = FileMetadata::symlink(2, "/d/l".into(), 0, 0o777, "../target".into());
    assert!(matches!(restore_action(&l, "/r"), RestoreAction::Symlink { path, target } if path == "/r/d/l" && target == "../target"));
    let bad = FileMetadata::directory(3, "/../x".into(), 0, 0o755);
    assert!(matches!(restore_action(&bad, "/r"), RestoreAction::Skip));
    assert_eq!(l.ttype, FileType::SYMLINK);
}

#[test]
fn integrity_check() {
    let h = backup::hash::data(b"hello\n", "secret");
    assert_eq!(verify_restored(b"hello\n", "secret", &h), Ok(()));
    assert_eq!(verify_restored(b"hellO\n", "secret", &h), Err(RestoreError::IntegrityMismatch));
    let empty = backup::hash::data(b"", "secret");
    assert_eq!(verify_restored(b"", "secret", &empty), Ok(()));
}

#[test]
fn space_check() {
    assert_eq!(check_space(10, 10), Ok(()));
    assert_eq!(check_space(9, 10), Err(RestoreError::NotEnoughSpace));
}

#[test]
fn download_file_name() {
    assert_eq!(download_name("ABC", "x9Z1"), "ABCx9Z1.gpg");
}
