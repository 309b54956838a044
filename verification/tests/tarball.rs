use bpt::constant::{PACKAGE_FILE_COUNT, ZSTD_DICT_MAGIC, ZSTD_MAGIC};
use bpt::error::{AnonLocErr, IoErrorKind};
use bpt::instfile::{InstFile, InstFileType};
use bpt::tarball::{
    bptnew_path, compression_for_magic, push_instfile, tar_entry_instfile, unpack_action, Compression,
    TarEntryKind, UnpackAction,
};

#[test]
fn test_invalid_magic_number() {
    match compression_for_magic([0, 1, 2, 3]) {
        Err(AnonLocErr::Decompress(e)) => {
            assert_eq!(e.kind, IoErrorKind::InvalidData);
            assert_eq!(e.message, "Unrecognized compression magic number");
        }
        other => panic!("unexpected: {other:?}"),
    }
}

#[test]
fn zstd_magic_numbers_are_recognized() {
    assert_eq!(compression_for_magic(ZSTD_MAGIC).unwrap(), Compression::Zstd);
    assert_eq!(compression_for_magic(ZSTD_DICT_MAGIC).unwrap(), Compression::Zstd);
}

#[test]
fn tar_entry_skips_pkginfo_and_root() {
    for path in [".pkginfo", "./", ".", ""] {
        assert!(matches!(
            tar_entry_instfile(path.to_owned(), 0o644, 0, 0, TarEntryKind::Directory),
            Ok(None)
        ));
    }
}

#[test]
fn tar_entry_regular_file() {
    let e = tar_entry_instfile("usr/bin/x".to_owned(), 0o755, 1, 2, TarEntryKind::Regular([7; 32]))
        .unwrap()
        .unwrap();
    assert_eq!(e.path, "usr/bin/x");
    assert_eq!((e.mode, e.uid, e.gid), (0o755, 1, 2));
    assert!(matches!(e.entry_type, InstFileType::RegFile(h) if h == [7; 32]));
}

#[test]
fn tar_entry_symlink() {
    let e = tar_entry_instfile(
        "usr/lib/libfoo.so".to_owned(),
        0o777,
        0,
        0,
        TarEntryKind::Symlink(Some("libfoo.so.1".to_owned())),
    )
    .unwrap()
    .unwrap();
    assert!(matches!(e.entry_type, InstFileType::Symlink(t) if t == "libfoo.so.1"));
    assert!(matches!(
        tar_entry_instfile("l".to_owned(), 0o777, 0, 0, TarEntryKind::Symlink(None)),
        Err(AnonLocErr::ParseTarball(e)) if e.message == "link entry without link name"
    ));
}

#[test]
fn tar_entry_directory() {
    let e = tar_entry_instfile("usr".to_owned(), 0o755, 0, 0, TarEntryKind::Directory)
        .unwrap()
        .unwrap();
    assert!(matches!(e.entry_type, InstFileType::Directory));
}

#[test]
fn tar_entry_unsupported_type() {
    assert!(matches!(
        tar_entry_instfile("dev/null".to_owned(), 0o666, 0, 0, TarEntryKind::Other),
        Err(AnonLocErr::ParseTarball(e)) if e.message == "unsupported tar entry type"
    ));
}

#[test]
fn package_file_count_is_bounded() {
    let mut entries: Vec<InstFile> = Vec::new();
    let e = || InstFile {
        mode: 0,
        uid: 0,
        gid: 0,
        path: "x".to_owned(),
        entry_type: InstFileType::Directory,
    };
    for _ in 0..PACKAGE_FILE_COUNT {
        push_instfile(&mut entries, e()).unwrap();
    }
    assert!(matches!(
        push_instfile(&mut entries, e()),
        Err(AnonLocErr::FieldInvalid("instfiles", m)) if m == "too many tar entries"
    ));
    assert_eq!(entries.len(), PACKAGE_FILE_COUNT);
}

/// The install entries of a sequence of (path, mode, kind) tar entries owned by root.
fn instfiles(entries: Vec<(&str, u32, TarEntryKind)>) -> Result<Vec<InstFile>, AnonLocErr> {
    let mut files = Vec::new();
    for (path, mode, kind) in entries {
        if let Some(e) = tar_entry_instfile(path.to_owned(), mode, 0, 0, kind)? {
            push_instfile(&mut files, e)?;
        }
    }
    Ok(files)
}

#[test]
fn tar_entries_mixed() {
    let files = instfiles(vec![
        (".pkginfo", 0o644, TarEntryKind::Regular([1; 32])),
        ("usr/", 0o755, TarEntryKind::Directory),
        ("usr/bin/", 0o755, TarEntryKind::Directory),
        ("usr/bin/app", 0o755, TarEntryKind::Regular([2; 32])),
        ("usr/bin/link", 0o777, TarEntryKind::Symlink(Some("app".to_owned()))),
    ])
    .unwrap();
    assert_eq!(files.len(), 4);

    assert!(matches!(files[0].entry_type, InstFileType::Directory));
    assert!(matches!(files[1].entry_type, InstFileType::Directory));
    assert!(matches!(files[2].entry_type, InstFileType::RegFile(_)));
    assert!(matches!(files[3].entry_type, InstFileType::Symlink(_)));
}

#[test]
fn pkginfo_entry_is_not_installed() {
    let files = instfiles(vec![
        (".pkginfo", 0o644, TarEntryKind::Regular([1; 32])),
        ("etc/config", 0o644, TarEntryKind::Regular([3; 32])),
    ])
    .unwrap();
    assert_eq!(files.len(), 1);
    assert_eq!(files[0].path, "etc/config");
    assert_eq!(files[0].mode, 0o644);
}

#[test]
fn modified_backup_files_are_not_overwritten() {
    assert_eq!(unpack_action(false, true, false), UnpackAction::Unpack);
    assert_eq!(unpack_action(true, false, false), UnpackAction::Unpack);
    assert_eq!(unpack_action(true, true, true), UnpackAction::KeepExisting);
    assert_eq!(unpack_action(true, true, false), UnpackAction::WriteBptnew);
    assert_eq!(bptnew_path("/", "etc/app.conf"), "/etc/app.conf.bptnew");
    assert_eq!(bptnew_path("/mnt/root", "etc/app.conf"), "/mnt/root/etc/app.conf.bptnew");
}
