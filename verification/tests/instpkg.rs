use bpt::manifest::instpkg_path;
use bpt::arch::Arch;
use bpt::error::AnonLocErr;
use bpt::instfile::{cmp_instfile_entries, is_same_path, InstFile, InstFileType};
use bpt::manifest::{
    decode_entries, encode_entries, encode_manifest, sort_entries, split_entry_block, EntryField,
};
use sha2::{Digest, Sha256};
use std::cmp::Ordering;

fn sha256_of(data: &[u8]) -> [u8; 32] {
    let mut hasher = Sha256::new();
    hasher.update(data);
    let mut out = [0u8; 32];
    out.copy_from_slice(&hasher.finalize());
    out
}

fn make_dir(path: &str) -> InstFile {
    InstFile {
        mode: 0o755,
        uid: 0,
        gid: 0,
        path: path.to_owned(),
        entry_type: InstFileType::Directory,
    }
}

fn make_reg(path: &str, data: &[u8]) -> InstFile {
    InstFile {
        mode: 0o644,
        uid: 0,
        gid: 0,
        path: path.to_owned(),
        entry_type: InstFileType::RegFile(sha256_of(data)),
    }
}

fn make_symlink(path: &str, target: &str) -> InstFile {
    InstFile {
        mode: 0o777,
        uid: 0,
        gid: 0,
        path: path.to_owned(),
        entry_type: InstFileType::Symlink(target.to_owned()),
    }
}

/// Sorts and encodes the entries, decodes the fields again, and returns the decoded paths.
fn reloaded_paths(entries: Vec<InstFile>) -> Vec<String> {
    let (_sorted, fields) = encode_manifest(entries);
    let fields = fields.unwrap();
    let reloaded = decode_entries(&fields).unwrap();
    reloaded.into_iter().map(|e| e.path).collect()
}

#[test]
fn cmp_orders_parent_directory_before_child_file() {
    let parent = make_dir("etc");
    let child = make_reg("etc/config", b"config");
    assert_eq!(cmp_instfile_entries(&parent, &child), Ordering::Less);
    assert_eq!(cmp_instfile_entries(&child, &parent), Ordering::Greater);
}

#[test]
fn cmp_orders_same_path_directory_before_non_directory() {
    let dir = make_dir("etc");
    let reg = make_reg("etc", b"file");
    let sym = make_symlink("etc", "/tmp/target");
    assert_eq!(cmp_instfile_entries(&dir, &reg), Ordering::Less);
    assert_eq!(cmp_instfile_entries(&dir, &sym), Ordering::Less);
}

#[test]
fn cmp_never_treats_parent_and_child_as_equal() {
    let parent = make_dir("usr/lib");
    let child = make_symlink("usr/lib/libfoo.so", "libfoo.so.1");
    assert_ne!(cmp_instfile_entries(&parent, &child), Ordering::Equal);
    assert_ne!(cmp_instfile_entries(&child, &parent), Ordering::Equal);
}

#[test]
fn from_pkginfo_and_entries_accepts_shuffled_parent_child_order() {
    let entries = vec![
        make_reg("etc/app/config.toml", b"port=8080"),
        make_dir("etc"),
        make_symlink("etc/app/link", "../config.toml"),
        make_dir("etc/app"),
    ];

    assert_eq!(
        reloaded_paths(entries),
        vec!["etc", "etc/app", "etc/app/config.toml", "etc/app/link"]
    );
}

#[test]
fn from_pkginfo_and_entries_accepts_deeply_shuffled_tree() {
    let entries = vec![
        make_reg("usr/lib/foo/plugins/a.so", b"a"),
        make_dir("usr"),
        make_reg("usr/bin/foo", b"#!/bin/sh"),
        make_dir("usr/lib/foo"),
        make_dir("usr/bin"),
        make_dir("usr/lib"),
        make_dir("usr/lib/foo/plugins"),
        make_symlink("usr/lib/foo/current", "plugins/a.so"),
    ];

    assert_eq!(
        reloaded_paths(entries),
        vec![
            "usr",
            "usr/bin",
            "usr/bin/foo",
            "usr/lib",
            "usr/lib/foo",
            "usr/lib/foo/current",
            "usr/lib/foo/plugins",
            "usr/lib/foo/plugins/a.so",
        ]
    );
}

#[test]
fn from_pkginfo_and_entries_accepts_sibling_file_after_subdir() {
    let entries = vec![
        make_dir("etc"),
        make_dir("etc/ssl"),
        make_reg("etc/z.conf", b"zone=UTC"),
        make_reg("etc/ssl/cert.pem", b"-----BEGIN CERTIFICATE-----"),
    ];

    assert_eq!(
        reloaded_paths(entries),
        vec!["etc", "etc/z.conf", "etc/ssl", "etc/ssl/cert.pem"]
    );
}

#[test]
fn from_pkginfo_and_entries_accepts_root_relative_items() {
    let entries = vec![make_reg("README", b"hello"), make_symlink("latest", "README")];

    assert_eq!(reloaded_paths(entries), vec!["README", "latest"]);
}

#[test]
fn cmp_is_transitive_for_files_alongside_subdirs() {
    let a = make_reg("usr/x86_64/include/time.h", b"");
    let b = make_dir("usr/x86_64/include/sys");
    let c = make_reg("usr/x86_64/include/sys/socket.h", b"");

    let ab = cmp_instfile_entries(&a, &b);
    let bc = cmp_instfile_entries(&b, &c);
    let ac = cmp_instfile_entries(&a, &c);

    assert_eq!(ab, Ordering::Less, "file time.h should sort before dir sys/");
    assert_eq!(bc, Ordering::Less, "dir sys/ should sort before its child");
    assert_eq!(ac, Ordering::Less, "transitivity: a < b < c implies a < c");
}

#[test]
fn from_pkginfo_and_entries_handles_files_alongside_deep_subdirs() {
    let entries = vec![
        make_dir("usr"),
        make_dir("usr/x86_64"),
        make_dir("usr/x86_64/include"),
        make_reg("usr/x86_64/include/stdlib.h", b""),
        make_reg("usr/x86_64/include/string.h", b""),
        make_reg("usr/x86_64/include/time.h", b""),
        make_dir("usr/x86_64/include/arpa"),
        make_reg("usr/x86_64/include/arpa/inet.h", b""),
        make_dir("usr/x86_64/include/sys"),
        make_reg("usr/x86_64/include/sys/socket.h", b""),
        make_reg("usr/x86_64/include/sys/types.h", b""),
        make_dir("usr/x86_64/lib"),
        make_reg("usr/x86_64/lib/libc.a", b""),
        make_symlink("usr/x86_64/lib/libc.so", "libc.a"),
    ];

    assert_eq!(
        reloaded_paths(entries),
        vec![
            "usr",
            "usr/x86_64",
            "usr/x86_64/include",
            "usr/x86_64/include/stdlib.h",
            "usr/x86_64/include/string.h",
            "usr/x86_64/include/time.h",
            "usr/x86_64/include/arpa",
            "usr/x86_64/include/arpa/inet.h",
            "usr/x86_64/include/sys",
            "usr/x86_64/include/sys/socket.h",
            "usr/x86_64/include/sys/types.h",
            "usr/x86_64/lib",
            "usr/x86_64/lib/libc.a",
            "usr/x86_64/lib/libc.so",
        ]
    );
}

#[test]
fn encoding_writes_metadata_only_when_it_changes() {
    let entries = vec![
        make_dir("etc"),
        make_dir("etc/app"),
        make_reg("etc/app/a", b"a"),
        make_reg("etc/app/b", b"b"),
    ];
    let sorted = sort_entries(entries);
    let fields = encode_entries(&sorted).unwrap();
    assert_eq!(
        fields,
        vec![
            EntryField::Mode(0o755),
            EntryField::Uid(0),
            EntryField::Gid(0),
            EntryField::Subdir("etc".to_owned()),
            EntryField::Subdir("app".to_owned()),
            EntryField::Mode(0o644),
            EntryField::Filename("a".to_owned()),
            EntryField::RegFile(sha256_of(b"a")),
            EntryField::Filename("b".to_owned()),
            EntryField::RegFile(sha256_of(b"b")),
        ]
    );
}

#[test]
fn encoding_switches_to_a_full_directory_path_outside_the_current_one() {
    let entries = vec![
        make_dir("etc"),
        make_reg("etc/a", b"a"),
        make_dir("usr"),
        make_reg("usr/b", b"b"),
    ];
    let sorted = sort_entries(entries);
    let fields = encode_entries(&sorted).unwrap();
    assert!(fields.contains(&EntryField::Subdir("etc".to_owned())));
    assert!(fields.contains(&EntryField::Dir("usr".to_owned())));
    let decoded = decode_entries(&fields).unwrap();
    let paths: Vec<_> = decoded.iter().map(|e| e.path.clone()).collect();
    assert_eq!(paths, vec!["etc", "etc/a", "usr", "usr/b"]);
}

#[test]
fn encoding_rejects_a_file_outside_the_current_directory() {
    let entries = vec![make_dir("etc"), make_reg("usr/b", b"b")];
    assert!(matches!(
        encode_entries(&entries),
        Err(AnonLocErr::UnexpectedData)
    ));
}

#[test]
fn decoding_reports_missing_metadata_and_file_names() {
    let fields = vec![EntryField::Dir("etc".to_owned())];
    assert!(matches!(
        decode_entries(&fields),
        Err(AnonLocErr::FieldMissing("mode"))
    ));
    let fields = vec![EntryField::Mode(0o644), EntryField::Dir("etc".to_owned())];
    assert!(matches!(
        decode_entries(&fields),
        Err(AnonLocErr::FieldMissing("uid"))
    ));
    let fields = vec![
        EntryField::Mode(0o644),
        EntryField::Uid(0),
        EntryField::Dir("etc".to_owned()),
    ];
    assert!(matches!(
        decode_entries(&fields),
        Err(AnonLocErr::FieldMissing("gid"))
    ));
    let fields = vec![
        EntryField::Mode(0o644),
        EntryField::Uid(0),
        EntryField::Gid(0),
        EntryField::RegFile([0u8; 32]),
    ];
    assert!(matches!(
        decode_entries(&fields),
        Err(AnonLocErr::FieldMissing("filename"))
    ));
}

#[test]
fn decoding_consumes_the_file_name() {
    let fields = vec![
        EntryField::Mode(0o644),
        EntryField::Uid(0),
        EntryField::Gid(0),
        EntryField::Filename("a".to_owned()),
        EntryField::RegFile([1u8; 32]),
        EntryField::Symlink("target".to_owned()),
    ];
    assert!(matches!(
        decode_entries(&fields),
        Err(AnonLocErr::FieldMissing("filename"))
    ));
}

#[test]
fn sorting_is_stable_for_equal_entries() {
    let a = InstFile { mode: 1, ..make_reg("x", b"1") };
    let b = InstFile { mode: 2, ..make_reg("x", b"2") };
    let sorted = sort_entries(vec![a, b]);
    assert_eq!(sorted[0].mode, 1);
    assert_eq!(sorted[1].mode, 2);
}

#[test]
fn from_path_rejects_consecutive_nulls() {
    // A valid block: two fields, the last one NUL-terminated.
    let fields = split_entry_block(b"m0644\0detc\0").unwrap();
    assert_eq!(fields, vec![b"m0644".to_vec(), b"detc".to_vec()]);
    // An extra NUL at the start of the block gives a leading empty field.
    assert!(matches!(
        split_entry_block(b"\0m0644\0detc\0"),
        Err(AnonLocErr::UnexpectedData)
    ));
    // Two NULs in a row inside the block.
    assert!(matches!(
        split_entry_block(b"m0644\0\0detc"),
        Err(AnonLocErr::UnexpectedData)
    ));
    assert!(matches!(split_entry_block(b""), Err(AnonLocErr::UnexpectedData)));
    assert_eq!(split_entry_block(b"x").unwrap(), vec![b"x".to_vec()]);
}

#[test]
fn from_path_rejects_oversized_instpkg() {
    let path = "/root/var/lib/bpt/instpkg/too-big.instpkg".to_owned();
    let payload_len = bpt::constant::SMALL_FILE_MAX_SIZE as u64 + 1;
    match bpt::window::ensure_small(payload_len).map_err(|e| e.loc(path.clone())) {
        Err(bpt::error::Error::FileTooLarge(loc, max)) => {
            assert_eq!(loc, path);
            assert_eq!(max, bpt::constant::SMALL_FILE_MAX_SIZE);
        }
        Err(other) => panic!("expected FileTooLarge for oversized instpkg, got {other:?}"),
        Ok(()) => panic!("expected FileTooLarge for oversized instpkg, got Ok(_)"),
    }
}

#[test]
fn install_record_is_named_after_the_package() {
    assert_eq!(
        instpkg_path("/var/lib/bpt/instpkg", "bpt", "1.0.0", Arch::x86_64),
        "/var/lib/bpt/instpkg/bpt@1.0.0:x86_64.instpkg"
    );
}

#[test]
fn same_path_is_decided_by_components() {
    let same = |p: &str, q: &str| is_same_path(&p.to_string(), &q.to_string());
    assert!(same("a", "a/"));
    assert!(same("a/b", "a//b/."));
    assert!(same("a/./b", "a/b"));
    assert!(same("./a", ".//a"));
    assert!(same("", ""));
    assert!(!same("./a", "a"));
    assert!(!same("/a", "a"));
    assert!(!same("a/..", "a"));
    assert!(!same("a/b", "a/c"));
}

#[test]
fn entries_at_one_path_written_two_ways_compare_directory_first() {
    let dir = make_dir("a/");
    let file = make_reg("a", b"x");
    assert_eq!(cmp_instfile_entries(&dir, &file), Ordering::Less);
    assert_eq!(cmp_instfile_entries(&file, &dir), Ordering::Greater);
    assert_eq!(cmp_instfile_entries(&make_reg("a/.", b"x"), &file), Ordering::Equal);
}
