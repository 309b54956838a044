use bpt::error::{AnonLocErr, IoErrorKind};
use bpt::instfile::InstFileType;
use bpt::tarball::{normalize_tar_path, payload_instfiles, payload_pkginfo, pkginfo_record, TarKind, TarRecord};
use sha2::{Digest, Sha256};

enum TestEntry {
    Pkginfo(&'static [u8]),
    RegFile { path: &'static str, content: &'static [u8], mode: u32, uid: u64, gid: u64 },
    Dir { path: &'static str, mode: u32 },
    Symlink { path: &'static str, target: &'static str },
    HardLink { path: &'static str, target: &'static str },
}

fn header(path: &str, size: u64, mode: u32, uid: u64, gid: u64, kind: tar::EntryType) -> tar::Header {
    let mut h = tar::Header::new_gnu();
    h.set_path(path).unwrap();
    h.set_size(size);
    h.set_mode(mode);
    h.set_uid(uid);
    h.set_gid(gid);
    h.set_entry_type(kind);
    h
}

/// A zstd-compressed tar archive of the entries.
fn make_payload(entries: &[TestEntry]) -> Vec<u8> {
    let mut tar = tar::Builder::new(Vec::new());
    for entry in entries {
        match entry {
            TestEntry::Pkginfo(data) => {
                let mut h = header(".pkginfo", data.len() as u64, 0o644, 0, 0, tar::EntryType::Regular);
                h.set_cksum();
                tar.append(&h, &data[..]).unwrap();
            }
            TestEntry::RegFile { path, content, mode, uid, gid } => {
                let mut h = header(path, content.len() as u64, *mode, *uid, *gid, tar::EntryType::Regular);
                h.set_cksum();
                tar.append(&h, &content[..]).unwrap();
            }
            TestEntry::Dir { path, mode } => {
                let mut h = header(path, 0, *mode, 0, 0, tar::EntryType::Directory);
                h.set_cksum();
                tar.append(&h, std::io::empty()).unwrap();
            }
            TestEntry::Symlink { path, target } => {
                let mut h = header(path, 0, 0o777, 0, 0, tar::EntryType::Symlink);
                h.set_link_name(target).unwrap();
                h.set_cksum();
                tar.append(&h, std::io::empty()).unwrap();
            }
            TestEntry::HardLink { path, target } => {
                let mut h = header(path, 0, 0o644, 0, 0, tar::EntryType::Link);
                h.set_link_name(target).unwrap();
                h.set_cksum();
                tar.append(&h, std::io::empty()).unwrap();
            }
        }
    }
    let archive = tar.into_inner().unwrap();
    zstd::stream::encode_all(&archive[..], 3).unwrap()
}

fn sha256_of(data: &[u8]) -> [u8; 32] {
    Sha256::digest(data).into()
}

const PKGINFO: &[u8] = b"pkgname\0test-pkg\0";

#[test]
fn test_pkginfo_missing() {
    let payload = make_payload(&[TestEntry::RegFile {
        path: "usr/bin/hello",
        content: b"hello",
        mode: 0o755,
        uid: 0,
        gid: 0,
    }]);
    match payload_pkginfo(&payload) {
        Err(AnonLocErr::FieldMissing("pkginfo")) => {}
        other => panic!("expected FieldMissing(\"pkginfo\"), got: {other:?}"),
    }
}

#[test]
fn pkginfo_is_read_from_the_payload() {
    let payload = make_payload(&[TestEntry::Pkginfo(PKGINFO)]);
    assert_eq!(payload_pkginfo(&payload).unwrap(), PKGINFO.to_vec());
    assert_eq!(payload_pkginfo(&payload).unwrap(), PKGINFO.to_vec());
}

#[test]
fn test_instfiles_regular_file() {
    let content = b"hello world";
    let payload = make_payload(&[
        TestEntry::Pkginfo(PKGINFO),
        TestEntry::RegFile { path: "usr/bin/hello", content, mode: 0o755, uid: 1000, gid: 1000 },
    ]);
    let files = payload_instfiles(&payload).unwrap();
    assert_eq!(files.len(), 1);
    assert_eq!(files[0].path, "usr/bin/hello");
    assert_eq!((files[0].mode, files[0].uid, files[0].gid), (0o755, 1000, 1000));
    assert!(matches!(files[0].entry_type, InstFileType::RegFile(h) if h == sha256_of(content)));
}

#[test]
fn test_instfiles_directory() {
    let payload = make_payload(&[TestEntry::Pkginfo(PKGINFO), TestEntry::Dir { path: "usr/lib/", mode: 0o755 }]);
    let files = payload_instfiles(&payload).unwrap();
    assert_eq!(files.len(), 1);
    assert_eq!(files[0].path, "usr/lib");
    assert!(matches!(files[0].entry_type, InstFileType::Directory));
}

#[test]
fn test_instfiles_symlink() {
    let payload = make_payload(&[
        TestEntry::Pkginfo(PKGINFO),
        TestEntry::Symlink { path: "usr/lib/libfoo.so", target: "libfoo.so.1" },
    ]);
    let files = payload_instfiles(&payload).unwrap();
    assert_eq!(files.len(), 1);
    assert_eq!(files[0].path, "usr/lib/libfoo.so");
    assert!(matches!(&files[0].entry_type, InstFileType::Symlink(t) if t == "libfoo.so.1"));
}

#[test]
fn test_instfiles_mixed_entries() {
    let payload = make_payload(&[
        TestEntry::Pkginfo(PKGINFO),
        TestEntry::Dir { path: "usr/", mode: 0o755 },
        TestEntry::Dir { path: "usr/bin/", mode: 0o755 },
        TestEntry::RegFile { path: "usr/bin/app", content: b"binary", mode: 0o755, uid: 0, gid: 0 },
        TestEntry::Symlink { path: "usr/bin/link", target: "app" },
    ]);
    let files = payload_instfiles(&payload).unwrap();
    assert_eq!(files.len(), 4);
    assert!(matches!(files[0].entry_type, InstFileType::Directory));
    assert!(matches!(files[1].entry_type, InstFileType::Directory));
    assert!(matches!(files[2].entry_type, InstFileType::RegFile(_)));
    assert!(matches!(files[3].entry_type, InstFileType::Symlink(_)));
}

#[test]
fn test_instfiles_skips_pkginfo_and_root() {
    let payload = make_payload(&[
        TestEntry::Pkginfo(PKGINFO),
        TestEntry::Dir { path: "./", mode: 0o755 },
        TestEntry::RegFile { path: "usr/bin/hello", content: b"hello", mode: 0o755, uid: 0, gid: 0 },
    ]);
    let files = payload_instfiles(&payload).unwrap();
    assert_eq!(files.len(), 1);
    assert_eq!(files[0].path, "usr/bin/hello");
}

#[test]
fn test_instfiles_normalizes_paths() {
    let payload = make_payload(&[
        TestEntry::Pkginfo(PKGINFO),
        TestEntry::RegFile { path: "./usr/bin/hello", content: b"hello", mode: 0o755, uid: 0, gid: 0 },
    ]);
    let files = payload_instfiles(&payload).unwrap();
    assert_eq!(files.len(), 1);
    assert_eq!(files[0].path, "usr/bin/hello");
}

#[test]
fn test_instfiles_unsupported_entry_type() {
    let payload = make_payload(&[
        TestEntry::Pkginfo(PKGINFO),
        TestEntry::HardLink { path: "usr/bin/link", target: "usr/bin/app" },
    ]);
    match payload_instfiles(&payload) {
        Err(AnonLocErr::ParseTarball(e)) => {
            assert_eq!(e.kind, IoErrorKind::InvalidData);
            assert!(e.message.contains("unsupported tar entry type"));
        }
        Err(other) => panic!("expected ParseTarball error, got: {other:?}"),
        Ok(_) => panic!("expected ParseTarball error, got Ok"),
    }
}

#[test]
fn test_instfiles_after_pkginfo() {
    let payload = make_payload(&[
        TestEntry::Pkginfo(PKGINFO),
        TestEntry::RegFile { path: "etc/config", content: b"data", mode: 0o644, uid: 0, gid: 0 },
    ]);
    assert_eq!(payload_pkginfo(&payload).unwrap(), PKGINFO.to_vec());
    let files = payload_instfiles(&payload).unwrap();
    assert_eq!(files.len(), 1);
    assert_eq!(files[0].path, "etc/config");
}

#[test]
fn payloads_that_are_not_zstd_tarballs_are_refused() {
    assert!(matches!(payload_instfiles(b"ab"), Err(AnonLocErr::Read(_))));
    assert!(matches!(payload_instfiles(b"not a tarball"), Err(AnonLocErr::Decompress(_))));
    let mut bad = bpt::constant::ZSTD_MAGIC.to_vec();
    bad.extend_from_slice(b"garbage");
    assert!(matches!(payload_instfiles(&bad), Err(AnonLocErr::Decompress(_))));
    let not_tar = zstd::stream::encode_all(&b"this is not a tar archive"[..], 3).unwrap();
    assert!(matches!(payload_instfiles(&not_tar), Err(AnonLocErr::ParseTarball(_))));
}

#[test]
fn tar_paths_are_made_relative_to_the_root() {
    assert_eq!(normalize_tar_path("./usr/bin/hello").unwrap(), "usr/bin/hello");
    assert_eq!(normalize_tar_path("usr//bin/./hello/").unwrap(), "usr/bin/hello");
    assert_eq!(normalize_tar_path("./").unwrap(), "");
    assert!(normalize_tar_path("usr/../../etc/passwd").is_none());
}

fn record(path: &str, data: &[u8]) -> TarRecord {
    TarRecord {
        path: path.as_bytes().to_vec(),
        link: None,
        mode: Some(0o644),
        uid: Some(0),
        gid: Some(0),
        kind: TarKind::Regular,
        data: data.to_vec(),
    }
}

#[test]
fn pkginfo_is_found_by_path_not_by_text() {
    for path in [".pkginfo", ".pkginfo/", ".pkginfo//", ".pkginfo/.", ".pkginfo/./"] {
        let records = vec![record("usr/bin/x", b""), record(path, PKGINFO)];
        assert_eq!(pkginfo_record(&records).unwrap(), 1, "{path}");
    }
    for path in ["./.pkginfo", ".pkginfo.", ".pkginfo/a", ".pkginfo/..", ".pkginf", "/.pkginfo"] {
        let records = vec![record(path, PKGINFO)];
        assert!(matches!(pkginfo_record(&records), Err(AnonLocErr::FieldMissing("pkginfo"))), "{path}");
    }
}
