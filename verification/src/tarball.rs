//! Package payloads: a compressed tarball whose entries become the package's install entries.
use crate::constant::{PACKAGE_FILE_COUNT, SMALL_FILE_MAX_SIZE, ZSTD_DICT_MAGIC, ZSTD_MAGIC};
use crate::error::{AnonLocErr, IoError, IoErrorKind};
use crate::instfile::{InstFile, InstFileType};
use crate::paths::{join_path, join_path_exec};
use crate::shell::utf8_string;
use crate::manifest::plain_path;
use crate::text::{
    chars_to_string, is_char, lemma_split_by_pieces, nested_view, split_by, split_chars, split_on,
    str_eq, str_to_chars,
};
use sha2::Digest;
use std::io::Read;
use tar::EntryType::{Directory, Regular, Symlink};
use vstd::prelude::*;
use vstd::utf8::{decode_utf8, valid_utf8};

verus! {

/// A compression format of package payloads.
#[derive(Clone, Copy, Debug, PartialEq, Eq, Structural)]
pub enum Compression {
    Zstd,
}

/// The message of a stream in no known compression format.
pub open spec fn unknown_magic_message() -> Seq<char> {
    "Unrecognized compression magic number"@
}

/// The compression format named by a stream's first four bytes: zstd frames and zstd
/// dictionaries are recognized, anything else is a decompression error.
pub fn compression_for_magic(magic: [u8; 4]) -> (r: Result<Compression, AnonLocErr>)
    ensures
        (magic@ == ZSTD_MAGIC@ || magic@ == ZSTD_DICT_MAGIC@) ==> r == Ok::<
            Compression,
            AnonLocErr,
        >(Compression::Zstd),
        !(magic@ == ZSTD_MAGIC@ || magic@ == ZSTD_DICT_MAGIC@) ==> (r matches Err(
            AnonLocErr::Decompress(e),
        ) && e.kind == IoErrorKind::InvalidData && e.raw_os_error is None && e.message@
            == unknown_magic_message()),
{
    let zstd = ZSTD_MAGIC;
    let dict = ZSTD_DICT_MAGIC;
    let is_zstd = magic[0] == zstd[0] && magic[1] == zstd[1] && magic[2] == zstd[2] && magic[3]
        == zstd[3];
    let is_dict = magic[0] == dict[0] && magic[1] == dict[1] && magic[2] == dict[2] && magic[3]
        == dict[3];
    assert(is_zstd <==> magic@ == ZSTD_MAGIC@) by {
        if is_zstd {
            assert(magic@ =~= ZSTD_MAGIC@);
        }
    }
    assert(is_dict <==> magic@ == ZSTD_DICT_MAGIC@) by {
        if is_dict {
            assert(magic@ =~= ZSTD_DICT_MAGIC@);
        }
    }
    if is_zstd || is_dict {
        Ok(Compression::Zstd)
    } else {
        Err(
            AnonLocErr::Decompress(
                IoError {
                    kind: IoErrorKind::InvalidData,
                    raw_os_error: None,
                    message: "Unrecognized compression magic number".to_owned(),
                },
            ),
        )
    }
}

/// A tar entry, as far as install entries care.
pub enum TarEntryKind {
    /// A regular file, with the SHA-256 digest of its contents.
    Regular([u8; 32]),
    /// A symbolic link, with its target if the header has one.
    Symlink(Option<String>),
    Directory,
    /// Any other entry type (hard links, devices, ...).
    Other,
}

/// Paths in a payload that are not installed: the package metadata and the tarball's root.
pub open spec fn skipped_tar_path(p: Seq<char>) -> bool {
    p == ".pkginfo"@ || p == "./"@ || p == "."@ || p.len() == 0
}

/// A tarball parse error with the given message.
pub open spec fn tarball_error(e: AnonLocErr, msg: Seq<char>) -> bool {
    e matches AnonLocErr::ParseTarball(io) && io.kind == IoErrorKind::InvalidData
        && io.raw_os_error is None && io.message@ == msg
}

/// The install entry for a (normalized) tar entry: none for the metadata file and the root; a
/// regular file, symlink or directory with the header's permissions and ownership; an error for
/// a symlink without a target or another entry type.
pub fn tar_entry_instfile(path: String, mode: u32, uid: u64, gid: u64, kind: TarEntryKind) -> (r:
    Result<Option<InstFile>, AnonLocErr>)
    ensures
        skipped_tar_path(path@) ==> r matches Ok(None),
        !skipped_tar_path(path@) ==> match kind {
            TarEntryKind::Regular(h) => r matches Ok(Some(e)) && e == (InstFile {
                mode,
                uid,
                gid,
                path,
                entry_type: InstFileType::RegFile(h),
            }),
            TarEntryKind::Symlink(Some(t)) => r matches Ok(Some(e)) && e == (InstFile {
                mode,
                uid,
                gid,
                path,
                entry_type: InstFileType::Symlink(t),
            }),
            TarEntryKind::Symlink(None) => r matches Err(e) && tarball_error(
                e,
                "link entry without link name"@,
            ),
            TarEntryKind::Directory => r matches Ok(Some(e)) && e == (InstFile {
                mode,
                uid,
                gid,
                path,
                entry_type: InstFileType::Directory,
            }),
            TarEntryKind::Other => r matches Err(e) && tarball_error(
                e,
                "unsupported tar entry type"@,
            ),
        },
{
    let p = path.as_str();
    if str_eq(p, ".pkginfo") || str_eq(p, "./") || str_eq(p, ".") || p.is_empty() {
        return Ok(None);
    }
    let entry_type = match kind {
        TarEntryKind::Regular(h) => InstFileType::RegFile(h),
        TarEntryKind::Symlink(Some(t)) => InstFileType::Symlink(t),
        TarEntryKind::Symlink(None) => {
            return Err(
                AnonLocErr::ParseTarball(
                    IoError {
                        kind: IoErrorKind::InvalidData,
                        raw_os_error: None,
                        message: "link entry without link name".to_owned(),
                    },
                ),
            );
        },
        TarEntryKind::Directory => InstFileType::Directory,
        TarEntryKind::Other => {
            return Err(
                AnonLocErr::ParseTarball(
                    IoError {
                        kind: IoErrorKind::InvalidData,
                        raw_os_error: None,
                        message: "unsupported tar entry type".to_owned(),
                    },
                ),
            );
        },
    };
    Ok(Some(InstFile { mode, uid, gid, path, entry_type }))
}

/// Adds an install entry, refusing packages with more than [PACKAGE_FILE_COUNT] entries (the
/// entry that goes over is the error, and then nothing is added).
pub fn push_instfile(entries: &mut Vec<InstFile>, e: InstFile) -> (r: Result<(), AnonLocErr>)
    ensures
        old(entries)@.len() < PACKAGE_FILE_COUNT ==> r is Ok && final(entries)@ == old(
            entries,
        )@.push(e),
        old(entries)@.len() >= PACKAGE_FILE_COUNT ==> (r matches Err(AnonLocErr::FieldInvalid(f, m))
            && f@ == "instfiles"@ && m@ == "too many tar entries"@ && final(entries)@ == old(
            entries,
        )@),
{
    if entries.len() >= PACKAGE_FILE_COUNT {
        return Err(AnonLocErr::FieldInvalid("instfiles", "too many tar entries".to_owned()));
    }
    entries.push(e);
    Ok(())
}

/// What installing one payload entry does.
#[derive(Clone, Copy, Debug, PartialEq, Eq, Structural)]
pub enum UnpackAction {
    /// Unpack the entry in place.
    Unpack,
    /// Leave the file on disk as it is.
    KeepExisting,
    /// Write the package's version beside the file on disk, as `<path>.bptnew`.
    WriteBptnew,
}

/// How a payload entry is installed: a backup file (such as a configuration file) that already
/// exists on disk is never overwritten — it is kept when the installed package's record shows it
/// unmodified, and otherwise the package's version is written beside it for the user to merge;
/// every other entry is unpacked in place.  `recorded_unmodified` is false when the package has
/// no record of the file or its state cannot be determined.
pub fn unpack_action(is_backup: bool, exists: bool, recorded_unmodified: bool) -> (r: UnpackAction)
    ensures
        !(is_backup && exists) ==> r == UnpackAction::Unpack,
        is_backup && exists && recorded_unmodified ==> r == UnpackAction::KeepExisting,
        is_backup && exists && !recorded_unmodified ==> r == UnpackAction::WriteBptnew,
{
    if is_backup && exists {
        if recorded_unmodified {
            UnpackAction::KeepExisting
        } else {
            UnpackAction::WriteBptnew
        }
    } else {
        UnpackAction::Unpack
    }
}

/// Where the package's version of a modified backup file is written: `<root>/<path>.bptnew`.
pub fn bptnew_path(root: &str, path: &str) -> (r: String)
    ensures
        r@ == join_path(root@, path@ + ".bptnew"@),
{
    let name = crate::text::concat2(path, ".bptnew");
    join_path_exec(root, name.as_str())
}

// ---------------------------------------------------------------------------------------------
// Entry paths
// ---------------------------------------------------------------------------------------------

/// The components of a path that name something: empty components (from repeated or leading
/// `/`) and `.` components are dropped.
pub open spec fn kept_components(cs: Seq<Seq<char>>) -> Seq<Seq<char>>
    decreases cs.len(),
{
    if cs.len() == 0 {
        Seq::empty()
    } else {
        let rest = kept_components(cs.drop_last());
        let c = cs.last();
        if c.len() == 0 || c == seq!['.'] {
            rest
        } else {
            rest.push(c)
        }
    }
}

/// Components joined with `/` between them.
pub open spec fn joined_components(cs: Seq<Seq<char>>) -> Seq<char>
    decreases cs.len(),
{
    if cs.len() == 0 {
        Seq::empty()
    } else if cs.len() == 1 {
        cs[0]
    } else {
        joined_components(cs.drop_last()) + seq!['/'] + cs.last()
    }
}

/// A payload path made relative to the package root: `None` when a `..` component would leave
/// the root, otherwise its naming components joined with `/` (so `./usr/bin/hello` and
/// `usr//bin/hello/` both give `usr/bin/hello`, and `./` gives the empty root path).
pub open spec fn normalized_path(p: Seq<char>) -> Option<Seq<char>> {
    let cs = split_on(p, '/');
    if exists|i: int| 0 <= i < cs.len() && cs[i] == seq!['.', '.'] {
        None
    } else {
        Some(joined_components(kept_components(cs)))
    }
}

/// The components a path keeps when its empty and `.` components are dropped (see
/// [kept_components]).
pub fn kept_parts(parts: &Vec<Vec<char>>) -> (kept: Vec<Vec<char>>)
    ensures
        nested_view(kept@) == kept_components(nested_view(parts@)),
{
    let ghost cs = nested_view(parts@);
    let mut kept: Vec<Vec<char>> = Vec::new();
    let mut i: usize = 0;
    assert(cs.take(0) =~= Seq::<Seq<char>>::empty());
    while i < parts.len()
        invariant
            i <= parts@.len(),
            nested_view(parts@) == cs,
            nested_view(kept@) == kept_components(cs.take(i as int)),
        decreases parts@.len() - i,
    {
        let part = &parts[i];
        assert(cs[i as int] == part@);
        assert(cs.take(i as int + 1).drop_last() =~= cs.take(i as int));
        assert(cs.take(i as int + 1).last() == cs[i as int]);
        let ghost kv = nested_view(kept@);
        if part.len() == 0 || (part.len() == 1 && part[0] == '.') {
            assert(part@.len() == 1 ==> part@ =~= seq!['.']);
        } else {
            assert(part@ != seq!['.']) by {
                if part@ == seq!['.'] {
                    assert(part@.len() == 1);
                }
            }
            kept.push(part.clone());
            assert(nested_view(kept@) =~= kv.push(part@));
        }
        i = i + 1;
    }
    assert(cs.take(i as int) =~= cs);
    kept
}

/// Normalizes a payload path (see [normalized_path]).
pub fn normalize_tar_path(path: &str) -> (r: Option<String>)
    ensures
        match normalized_path(path@) {
            Some(n) => r matches Some(s) && s@ == n,
            None => r is None,
        },
{
    let chars = str_to_chars(path);
    let parts = split_chars(chars.as_slice(), '/');
    let ghost cs = split_on(path@, '/');
    let mut i: usize = 0;
    while i < parts.len()
        invariant
            i <= parts@.len(),
            nested_view(parts@) == cs,
            cs == split_on(path@, '/'),
            forall|j: int| 0 <= j < i ==> cs[j] != seq!['.', '.'],
        decreases parts@.len() - i,
    {
        let part = &parts[i];
        assert(cs[i as int] == part@);
        if part.len() == 2 && part[0] == '.' && part[1] == '.' {
            assert(part@ =~= seq!['.', '.']);
            return None;
        }
        i = i + 1;
    }
    let kept = kept_parts(&parts);
    let mut out: Vec<char> = Vec::new();
    let mut j: usize = 0;
    let ghost ks = nested_view(kept@);
    assert(ks.take(0) =~= Seq::<Seq<char>>::empty());
    while j < kept.len()
        invariant
            j <= kept@.len(),
            ks == nested_view(kept@),
            out@ == joined_components(ks.take(j as int)),
        decreases kept@.len() - j,
    {
        let ghost before = out@;
        assert(ks.take(j as int + 1).drop_last() =~= ks.take(j as int));
        assert(ks.take(j as int + 1).last() == ks[j as int]);
        if j > 0 {
            out.push('/');
        }
        let mut c = kept[j].clone();
        out.append(&mut c);
        if j == 0 {
            assert(ks.take(1) =~= seq![ks[0]]);
            assert(out@ =~= ks[0]);
        } else {
            assert(out@ =~= before + seq!['/'] + ks[j as int]);
        }
        j = j + 1;
    }
    assert(ks.take(j as int) =~= ks);
    Some(chars_to_string(out.as_slice()))
}

// ---------------------------------------------------------------------------------------------
// Reading a payload
// ---------------------------------------------------------------------------------------------

/// The type of a tar entry, as the `tar` crate reports it.
#[derive(Clone, Copy, Debug, PartialEq, Eq, Structural)]
pub enum TarKind {
    Regular,
    Symlink,
    Directory,
    /// Any other entry type (hard links, devices, ...).
    Other,
}

/// One tar entry as plain values: its path and link name as stored, the header's permissions
/// and ownership (`None` where the header field does not parse), its type and its contents.
pub struct TarRecord {
    pub path: Vec<u8>,
    pub link: Option<Vec<u8>>,
    pub mode: Option<u32>,
    pub uid: Option<u64>,
    pub gid: Option<u64>,
    pub kind: TarKind,
    pub data: Vec<u8>,
}

/// A tar entry in mathematical form.
pub ghost struct TarRecordView {
    pub path: Seq<u8>,
    pub link: Option<Seq<u8>>,
    pub mode: Option<u32>,
    pub uid: Option<u64>,
    pub gid: Option<u64>,
    pub kind: TarKind,
    pub data: Seq<u8>,
}

impl View for TarRecord {
    type V = TarRecordView;

    open spec fn view(&self) -> TarRecordView {
        TarRecordView {
            path: self.path@,
            link: match self.link {
                Some(l) => Some(l@),
                None => None,
            },
            mode: self.mode,
            uid: self.uid,
            gid: self.gid,
            kind: self.kind,
            data: self.data@,
        }
    }
}

/// The views of records.
pub open spec fn records_view(rs: Seq<TarRecord>) -> Seq<TarRecordView> {
    rs.map_values(|r: TarRecord| r@)
}

/// What `zstd::stream::decode_all` makes of a stream: its decompressed bytes, or `None` when
/// it is not valid zstd.
pub uninterp spec fn zstd_decoded(stream: Seq<u8>) -> Option<Seq<u8>>;

/// The entries `tar::Archive::entries` reads from an archive, as records, or `None` when the
/// archive or one of its entries cannot be read.
pub uninterp spec fn tar_records_of(archive: Seq<u8>) -> Option<Seq<TarRecordView>>;

/// The SHA-256 digest (`sha2::Sha256`) of bytes.
pub uninterp spec fn sha256_of(data: Seq<u8>) -> Seq<u8>;

/// Decompresses a whole zstd stream (`zstd::stream::decode_all`).
///
/// Trusted: the result is the named decompression; on failure the crate's description of the
/// problem is returned.
#[verifier::external_body]
fn zstd_decode(stream: &[u8]) -> (r: Result<Vec<u8>, String>)
    ensures
        r is Ok <==> zstd_decoded(stream@) is Some,
        r matches Ok(v) ==> v@ == zstd_decoded(stream@).unwrap(),
{
    zstd::stream::decode_all(stream).map_err(|e| e.to_string())
}

/// Reads the entries of a tar archive (`tar::Archive::entries`), each with its path and link
/// name bytes, header fields, type and contents.
///
/// Trusted: the result is the named list of records, or `None` where the crate reports an error.
#[verifier::external_body]
fn tar_records(archive: &[u8]) -> (r: Option<Vec<TarRecord>>)
    ensures
        r is Some <==> tar_records_of(archive@) is Some,
        r matches Some(v) ==> records_view(v@) == tar_records_of(archive@).unwrap(),
{
    let mut out = Vec::new();
    for entry in tar::Archive::new(archive).entries().ok()? {
        let (mut entry, mut data) = (entry.ok()?, Vec::new());
        entry.read_to_end(&mut data).ok()?;
        let h = entry.header();
        out.push(TarRecord {
            path: entry.path_bytes().into_owned(),
            link: entry.link_name_bytes().map(|l| l.into_owned()),
            mode: h.mode().ok(), uid: h.uid().ok(), gid: h.gid().ok(), data,
            kind: match h.entry_type() { Regular => TarKind::Regular, Symlink => TarKind::Symlink, Directory => TarKind::Directory, _ => TarKind::Other },
        });
    }
    Some(out)
}

/// The SHA-256 digest of bytes (`sha2::Sha256::digest`).
///
/// Trusted: the result is the named digest.
#[verifier::external_body]
fn sha256(data: &[u8]) -> (r: [u8; 32])
    ensures
        r@ == sha256_of(data@),
{
    sha2::Sha256::digest(data).into()
}

/// The kind of an install entry in mathematical form.
pub ghost enum KindSpec {
    Directory,
    RegFile(Seq<u8>),
    Symlink(Seq<char>),
}

/// An install entry in mathematical form.
pub ghost struct EntrySpec {
    pub mode: u32,
    pub uid: u64,
    pub gid: u64,
    pub path: Seq<char>,
    pub kind: KindSpec,
}

pub open spec fn instfile_spec(e: InstFile) -> EntrySpec {
    EntrySpec {
        mode: e.mode,
        uid: e.uid,
        gid: e.gid,
        path: e.path@,
        kind: match e.entry_type {
            InstFileType::Directory => KindSpec::Directory,
            InstFileType::RegFile(h) => KindSpec::RegFile(h@),
            InstFileType::Symlink(t) => KindSpec::Symlink(t@),
        },
    }
}

pub open spec fn instfiles_spec(es: Seq<InstFile>) -> Seq<EntrySpec> {
    es.map_values(|e: InstFile| instfile_spec(e))
}

/// Why reading install entries from records failed: a tar entry that cannot be installed (with
/// the message), or too many entries.
pub ghost enum RecordsError {
    Entry(Seq<char>),
    TooMany,
}

/// The install entry of one record: `None` for the package metadata and the root; otherwise
/// the entry at the normalized path with the header's permissions and ownership, a regular
/// file carrying the SHA-256 digest of its contents.  A path or link name that is not UTF-8, a
/// path leaving the root, an unreadable header field, a symlink without a target or another
/// entry type cannot be installed.
pub open spec fn record_entry(r: TarRecordView) -> Result<Option<EntrySpec>, Seq<char>> {
    if !valid_utf8(r.path) {
        Err("non-UTF-8 path"@)
    } else {
        match normalized_path(decode_utf8(r.path)) {
            None => Err("path leaves the package root"@),
            Some(p) => if skipped_tar_path(p) {
                Ok(None)
            } else {
                match (r.mode, r.uid, r.gid) {
                    (Some(mode), Some(uid), Some(gid)) => match r.kind {
                        TarKind::Regular => Ok(
                            Some(EntrySpec { mode, uid, gid, path: p, kind: KindSpec::RegFile(sha256_of(r.data)) }),
                        ),
                        TarKind::Directory => Ok(
                            Some(EntrySpec { mode, uid, gid, path: p, kind: KindSpec::Directory }),
                        ),
                        TarKind::Symlink => match r.link {
                            None => Err("link entry without link name"@),
                            Some(l) => if !valid_utf8(l) {
                                Err("non-UTF-8 link name"@)
                            } else {
                                Ok(
                                    Some(EntrySpec { mode, uid, gid, path: p, kind: KindSpec::Symlink(decode_utf8(l)) }),
                                )
                            },
                        },
                        TarKind::Other => Err("unsupported tar entry type"@),
                    },
                    _ => Err("invalid tar header field"@),
                }
            },
        }
    }
}

/// The install entries of the records, in order, or the first failure; more than
/// [PACKAGE_FILE_COUNT] entries is a failure.
pub open spec fn records_instfiles(rs: Seq<TarRecordView>) -> Result<Seq<EntrySpec>, RecordsError>
    decreases rs.len(),
{
    if rs.len() == 0 {
        Ok(Seq::empty())
    } else {
        match records_instfiles(rs.drop_last()) {
            Err(e) => Err(e),
            Ok(es) => match record_entry(rs.last()) {
                Err(m) => Err(RecordsError::Entry(m)),
                Ok(None) => Ok(es),
                Ok(Some(e)) => if es.len() >= PACKAGE_FILE_COUNT {
                    Err(RecordsError::TooMany)
                } else {
                    Ok(es.push(e))
                },
            },
        }
    }
}

/// Whether an error is the one a failure describes.
pub open spec fn records_error(e: AnonLocErr, f: RecordsError) -> bool {
    match f {
        RecordsError::Entry(m) => tarball_error(e, m),
        RecordsError::TooMany => e matches AnonLocErr::FieldInvalid(f, m) && f@ == "instfiles"@
            && m@ == "too many tar entries"@,
    }
}

/// Whether a result is what reading install entries from the records gives.
pub open spec fn instfiles_result(rs: Seq<TarRecordView>, r: Result<Vec<InstFile>, AnonLocErr>) -> bool {
    match records_instfiles(rs) {
        Ok(es) => r matches Ok(v) && instfiles_spec(v@) == es,
        Err(f) => r matches Err(e) && records_error(e, f),
    }
}

/// Once a prefix of the records fails, all of them fail the same way.
proof fn lemma_records_error_persists(rs: Seq<TarRecordView>, k: int)
    requires
        0 <= k <= rs.len(),
        records_instfiles(rs.take(k)) is Err,
    ensures
        records_instfiles(rs) == records_instfiles(rs.take(k)),
    decreases rs.len() - k,
{
    if k < rs.len() {
        assert(rs.take(k + 1).drop_last() =~= rs.take(k));
        lemma_records_error_persists(rs, k + 1);
    } else {
        assert(rs.take(k) =~= rs);
    }
}

fn tar_error(msg: &str) -> (e: AnonLocErr)
    ensures
        tarball_error(e, msg@),
{
    AnonLocErr::ParseTarball(IoError { kind: IoErrorKind::InvalidData, raw_os_error: None, message: msg.to_owned() })
}

/// The install entry of one record (see [record_entry]).
fn record_instfile(r: &TarRecord) -> (out: Result<Option<InstFile>, AnonLocErr>)
    ensures
        match record_entry(r@) {
            Ok(None) => out matches Ok(None),
            Ok(Some(e)) => out matches Ok(Some(f)) && instfile_spec(f) == e,
            Err(m) => out matches Err(e) && tarball_error(e, m),
        },
{
    let text = match utf8_string(r.path.as_slice()) {
        Some(t) => t,
        None => {
            return Err(tar_error("non-UTF-8 path"));
        },
    };
    let path = match normalize_tar_path(text.as_str()) {
        Some(p) => p,
        None => {
            return Err(tar_error("path leaves the package root"));
        },
    };
    let p = path.as_str();
    if str_eq(p, ".pkginfo") || str_eq(p, "./") || str_eq(p, ".") || p.is_empty() {
        return Ok(None);
    }
    let (mode, uid, gid) = match (r.mode, r.uid, r.gid) {
        (Some(m), Some(u), Some(g)) => (m, u, g),
        _ => {
            return Err(tar_error("invalid tar header field"));
        },
    };
    let kind = match r.kind {
        TarKind::Regular => TarEntryKind::Regular(sha256(r.data.as_slice())),
        TarKind::Directory => TarEntryKind::Directory,
        TarKind::Symlink => match &r.link {
            None => TarEntryKind::Symlink(None),
            Some(l) => match utf8_string(l.as_slice()) {
                Some(t) => TarEntryKind::Symlink(Some(t)),
                None => {
                    return Err(tar_error("non-UTF-8 link name"));
                },
            },
        },
        TarKind::Other => TarEntryKind::Other,
    };
    tar_entry_instfile(path, mode, uid, gid, kind)
}

/// The install entries of tar records, as a package payload lists them: the package metadata
/// and the root are skipped, paths are made relative to the root (a leading `./` goes, `..` is
/// refused), regular files carry the SHA-256 digest of their contents, links without a target
/// and other entry types are refused, and more than [PACKAGE_FILE_COUNT] entries is an error.
pub fn instfiles_from_records(records: Vec<TarRecord>) -> (r: Result<Vec<InstFile>, AnonLocErr>)
    ensures
        instfiles_result(records_view(records@), r),
{
    let ghost rs = records_view(records@);
    let mut out: Vec<InstFile> = Vec::new();
    let mut i: usize = 0;
    assert(rs.take(0) =~= Seq::<TarRecordView>::empty());
    assert(instfiles_spec(out@) =~= Seq::<EntrySpec>::empty());
    while i < records.len()
        invariant
            i <= records@.len(),
            rs == records_view(records@),
            records_instfiles(rs.take(i as int)) == Ok::<Seq<EntrySpec>, RecordsError>(
                instfiles_spec(out@),
            ),
        decreases records@.len() - i,
    {
        let ghost prefix = rs.take(i as int + 1);
        assert(prefix.drop_last() =~= rs.take(i as int));
        assert(prefix.last() == records@[i as int]@);
        let ghost before = instfiles_spec(out@);
        match record_instfile(&records[i]) {
            Err(e) => {
                proof {
                    lemma_records_error_persists(rs, i as int + 1);
                }
                return Err(e);
            },
            Ok(None) => {},
            Ok(Some(f)) => {
                let ghost fs = instfile_spec(f);
                match push_instfile(&mut out, f) {
                    Err(e) => {
                        proof {
                            lemma_records_error_persists(rs, i as int + 1);
                        }
                        return Err(e);
                    },
                    Ok(()) => {
                        assert(instfiles_spec(out@) =~= before.push(fs));
                    },
                }
            },
        }
        i = i + 1;
    }
    assert(rs.take(i as int) =~= rs);
    Ok(out)
}

/// The name of the package metadata entry, `.pkginfo`.
pub open spec fn pkginfo_path() -> Seq<u8> {
    seq![46u8, 112u8, 107u8, 103u8, 105u8, 110u8, 102u8, 111u8]
}

/// Whether the byte at `j` of a path, past `.pkginfo/`, belongs to a component that adds
/// nothing to the path: a `/`, or a `.` standing alone between slashes or at the end.
pub open spec fn empty_component_byte(p: Seq<u8>, j: int) -> bool {
    ||| p[j] == 0x2fu8
    ||| (p[j] == 0x2eu8 && p[j - 1] == 0x2fu8 && (j + 1 == p.len() || p[j + 1] == 0x2fu8))
}

/// Whether a stored path is the path `.pkginfo`, compared component by component as paths are:
/// the name itself, or the name followed by `/` and only empty or `.` components (`.pkginfo/`,
/// `.pkginfo//.`).  A leading `./` is a component of its own, so `./.pkginfo` is another path.
pub open spec fn is_pkginfo_path(p: Seq<u8>) -> bool {
    &&& p.len() >= 8
    &&& p.take(8) == pkginfo_path()
    &&& (p.len() == 8 || (p[8] == 0x2fu8 && forall|j: int|
        9 <= j < p.len() ==> #[trigger] empty_component_byte(p, j)))
}

/// Whether a stored path is the path `.pkginfo` (see [is_pkginfo_path]).
fn names_pkginfo(p: &[u8]) -> (r: bool)
    ensures
        r == is_pkginfo_path(p@),
{
    let name: [u8; 8] = [46, 112, 107, 103, 105, 110, 102, 111];
    assert(name@ =~= pkginfo_path());
    if p.len() < 8 {
        return false;
    }
    let mut k: usize = 0;
    while k < 8
        invariant
            k <= 8 <= p@.len(),
            name@ == pkginfo_path(),
            forall|m: int| 0 <= m < k ==> p@[m] == name@[m],
        decreases 8 - k,
    {
        if p[k] != name[k] {
            assert(p@.take(8)[k as int] != pkginfo_path()[k as int]);
            return false;
        }
        k = k + 1;
    }
    assert(p@.take(8) =~= pkginfo_path());
    let n = p.len();
    if n == 8 {
        return true;
    }
    if p[8] != 0x2f {
        return false;
    }
    let mut i: usize = 9;
    while i < n
        invariant
            9 <= i <= n,
            n == p@.len(),
            p@[8] == 0x2fu8,
            forall|j: int| 9 <= j < i ==> #[trigger] empty_component_byte(p@, j),
        decreases n - i,
    {
        let b = p[i];
        if b == 0x2e {
            if !(p[i - 1] == 0x2f && (i + 1 == n || p[i + 1] == 0x2f)) {
                assert(!empty_component_byte(p@, i as int));
                return false;
            }
        } else if b != 0x2f {
            assert(!empty_component_byte(p@, i as int));
            return false;
        }
        assert(empty_component_byte(p@, i as int));
        i = i + 1;
    }
    true
}

/// The position of the package metadata among the records: the first record whose path is
/// `.pkginfo` (see [is_pkginfo_path]).  Its contents may be at most [SMALL_FILE_MAX_SIZE]
/// bytes; a package without one is missing its metadata.
pub fn pkginfo_record(records: &[TarRecord]) -> (r: Result<usize, AnonLocErr>)
    ensures
        match r {
            Ok(i) => i < records@.len() && is_pkginfo_path(records@[i as int].path@)
                && records@[i as int].data@.len() <= SMALL_FILE_MAX_SIZE && forall|j: int|
                0 <= j < i ==> !is_pkginfo_path(#[trigger] records@[j].path@),
            Err(AnonLocErr::FieldMissing(f)) => f@ == "pkginfo"@ && forall|j: int|
                0 <= j < records@.len() ==> !is_pkginfo_path(#[trigger] records@[j].path@),
            Err(AnonLocErr::FieldInvalid(f, m)) => f@ == "pkginfo"@ && m@
                == "exceeded SMALL_FILE_MAX_SIZE"@ && exists|i: int|
                0 <= i < records@.len() && is_pkginfo_path(#[trigger] records@[i].path@)
                    && records@[i].data@.len() > SMALL_FILE_MAX_SIZE && forall|j: int|
                    0 <= j < i ==> !is_pkginfo_path(#[trigger] records@[j].path@),
            Err(_) => false,
        },
{
    let mut i: usize = 0;
    while i < records.len()
        invariant
            i <= records@.len(),
            forall|j: int| 0 <= j < i ==> !is_pkginfo_path(#[trigger] records@[j].path@),
        decreases records@.len() - i,
    {
        if names_pkginfo(records[i].path.as_slice()) {
            if records[i].data.len() > SMALL_FILE_MAX_SIZE {
                return Err(AnonLocErr::FieldInvalid("pkginfo", "exceeded SMALL_FILE_MAX_SIZE".to_owned()));
            }
            return Ok(i);
        }
        i = i + 1;
    }
    Err(AnonLocErr::FieldMissing("pkginfo"))
}

/// The zstd-compressed tar archive of a payload: the stream must start with a zstd magic
/// number (a shorter stream cannot be read) and decompress.
pub open spec fn payload_archive(payload: Seq<u8>) -> Option<Seq<u8>> {
    if payload.len() >= 4 && (payload.take(4) == ZSTD_MAGIC@ || payload.take(4) == ZSTD_DICT_MAGIC@) {
        zstd_decoded(payload)
    } else {
        None
    }
}

/// Decompresses a payload and reads its tar records; a stream too short for a magic number is
/// a read error, an unknown magic number or bad zstd data a decompression error, and a bad
/// archive a tarball parse error.
fn payload_records(payload: &[u8]) -> (r: Result<Vec<TarRecord>, AnonLocErr>)
    ensures
        payload@.len() < 4 ==> (r matches Err(AnonLocErr::Read(e)) && e.kind == IoErrorKind::UnexpectedEof),
        payload@.len() >= 4 && payload_archive(payload@) is None ==> r matches Err(AnonLocErr::Decompress(_)),
        payload_archive(payload@) matches Some(a) ==> match tar_records_of(a) {
            None => (r matches Err(AnonLocErr::ParseTarball(e)) && e.kind == IoErrorKind::InvalidData),
            Some(rs) => (r matches Ok(v) && records_view(v@) == rs),
        },
{
    if payload.len() < 4 {
        return Err(AnonLocErr::Read(IoError {
            kind: IoErrorKind::UnexpectedEof,
            raw_os_error: None,
            message: "failed to fill whole buffer".to_owned(),
        }));
    }
    let magic: [u8; 4] = [payload[0], payload[1], payload[2], payload[3]];
    assert(magic@ =~= payload@.take(4));
    if let Err(e) = compression_for_magic(magic) {
        return Err(e);
    }
    let archive = match zstd_decode(payload) {
        Ok(a) => a,
        Err(msg) => {
            return Err(AnonLocErr::Decompress(IoError { kind: IoErrorKind::InvalidData, raw_os_error: None, message: msg }));
        },
    };
    match tar_records(archive.as_slice()) {
        Some(v) => Ok(v),
        None => Err(tar_error("unreadable tar archive")),
    }
}

/// The install entries of a package payload (a zstd-compressed tar archive): see
/// [instfiles_from_records] for how entries become install entries.
pub fn payload_instfiles(payload: &[u8]) -> (r: Result<Vec<InstFile>, AnonLocErr>)
    ensures
        payload@.len() < 4 ==> (r matches Err(AnonLocErr::Read(e)) && e.kind == IoErrorKind::UnexpectedEof),
        payload@.len() >= 4 && payload_archive(payload@) is None ==> r matches Err(AnonLocErr::Decompress(_)),
        payload_archive(payload@) matches Some(a) ==> match tar_records_of(a) {
            None => (r matches Err(AnonLocErr::ParseTarball(e)) && e.kind == IoErrorKind::InvalidData),
            Some(rs) => instfiles_result(rs, r),
        },
{
    match payload_records(payload) {
        Ok(records) => instfiles_from_records(records),
        Err(e) => Err(e),
    }
}

/// The package metadata of a payload: the contents of its first `.pkginfo` entry (see
/// [pkginfo_record]).
pub fn payload_pkginfo(payload: &[u8]) -> (r: Result<Vec<u8>, AnonLocErr>)
    ensures
        payload@.len() < 4 ==> (r matches Err(AnonLocErr::Read(e)) && e.kind == IoErrorKind::UnexpectedEof),
        payload@.len() >= 4 && payload_archive(payload@) is None ==> r matches Err(AnonLocErr::Decompress(_)),
        payload_archive(payload@) matches Some(a) ==> match tar_records_of(a) {
            None => (r matches Err(AnonLocErr::ParseTarball(e)) && e.kind == IoErrorKind::InvalidData),
            Some(rs) => match r {
                Ok(d) => exists|i: int|
                    0 <= i < rs.len() && is_pkginfo_path(#[trigger] rs[i].path) && d@ == rs[i].data
                        && d@.len() <= SMALL_FILE_MAX_SIZE && forall|j: int|
                        0 <= j < i ==> !is_pkginfo_path(#[trigger] rs[j].path),
                Err(AnonLocErr::FieldMissing(f)) => f@ == "pkginfo"@ && forall|j: int|
                    0 <= j < rs.len() ==> !is_pkginfo_path(#[trigger] rs[j].path),
                Err(AnonLocErr::FieldInvalid(f, m)) => f@ == "pkginfo"@ && m@
                    == "exceeded SMALL_FILE_MAX_SIZE"@,
                Err(_) => false,
            },
        },
{
    let records = match payload_records(payload) {
        Ok(v) => v,
        Err(e) => {
            return Err(e);
        },
    };
    match pkginfo_record(records.as_slice()) {
        Ok(i) => {
            let ghost rs = records_view(records@);
            assert forall|j: int| 0 <= j < records@.len() implies rs[j] == records@[j]@ by {}
            assert(is_pkginfo_path(rs[i as int].path));
            Ok(records[i].data.clone())
        },
        Err(e) => {
            assert forall|j: int| 0 <= j < records@.len() implies records_view(records@)[j] == records@[j]@ by {}
            Err(e)
        },
    }
}

/// A path component as normalization keeps it: non-empty, without `/`, and not `.`.
pub open spec fn named_component(c: Seq<char>) -> bool {
    c.len() > 0 && !c.contains('/') && c != seq!['.']
}

/// Joining named components gives a plain path.
proof fn lemma_joined_named_is_plain(ks: Seq<Seq<char>>)
    requires
        ks.len() > 0,
        forall|k: int| 0 <= k < ks.len() ==> named_component(#[trigger] ks[k]),
    ensures
        plain_path(joined_components(ks)),
    decreases ks.len(),
{
    if ks.len() == 1 {
        let c = ks[0];
        assert(named_component(c));
        assert forall|i: int| 0 <= i < c.len() implies c[i] != '/' by {
            if c[i] == '/' {
                assert(c.contains('/'));
            }
        }
        assert forall|i: int| #![trigger c[i]] 0 <= i < c.len() && c[i] == '.' implies !((i == 0
            || c[i - 1] == '/') && (i == c.len() - 1 || c[i + 1] == '/')) by {
            if i == 0 && i == c.len() - 1 {
                assert(c =~= seq!['.']);
            }
        }
    } else {
        let rest = ks.drop_last();
        assert forall|k: int| 0 <= k < rest.len() implies named_component(#[trigger] rest[k]) by {
            assert(rest[k] == ks[k]);
        }
        lemma_joined_named_is_plain(rest);
        let a = joined_components(rest);
        let c = ks.last();
        assert(named_component(ks[ks.len() - 1]));
        let j = joined_components(ks);
        assert(j == a + seq!['/'] + c);
        let n = a.len() as int;
        assert forall|i: int| 0 <= i < c.len() implies c[i] != '/' by {
            if c[i] == '/' {
                assert(c.contains('/'));
            }
        }
        assert forall|i: int| 0 <= i < j.len() implies #[trigger] j[i] == (if i < n {
            a[i]
        } else if i == n {
            '/'
        } else {
            c[i - n - 1]
        }) by {}
        assert(j[0] != '/');
        assert(j.last() == c.last());
        assert forall|i: int| #![trigger j[i]] 0 <= i < j.len() - 1 implies !(j[i] == '/' && j[i
            + 1] == '/') by {
            if i < n - 1 {
                assert(j[i] == a[i] && j[i + 1] == a[i + 1]);
            } else if i == n - 1 {
                assert(j[i] == a.last());
            } else if i == n {
                assert(j[i + 1] == c[0]);
            } else {
                assert(j[i] == c[i - n - 1]);
            }
        }
        assert forall|i: int| #![trigger j[i]] 0 <= i < j.len() && j[i] == '.' implies !((i == 0
            || j[i - 1] == '/') && (i == j.len() - 1 || j[i + 1] == '/')) by {
            if i < n - 1 {
                assert(j[i] == a[i] && j[i + 1] == a[i + 1]);
                if i > 0 {
                    assert(j[i - 1] == a[i - 1]);
                }
            } else if i == n - 1 {
                assert(j[i] == a[i]);
                if i > 0 {
                    assert(j[i - 1] == a[i - 1]);
                }
            } else if i > n {
                let k = i - n - 1;
                assert(j[i] == c[k]);
                if k > 0 {
                    assert(j[i - 1] == c[k - 1]);
                }
                if i < j.len() - 1 {
                    assert(j[i + 1] == c[k + 1]);
                }
                if k == 0 && k == c.len() - 1 {
                    assert(c =~= seq!['.']);
                }
            }
        }
    }
}

/// The components normalization keeps are named components.
proof fn lemma_kept_are_named(cs: Seq<Seq<char>>)
    requires
        forall|i: int| 0 <= i < cs.len() ==> !(#[trigger] cs[i]).contains('/'),
    ensures
        forall|k: int| 0 <= k < kept_components(cs).len() ==> named_component(
            #[trigger] kept_components(cs)[k],
        ),
    decreases cs.len(),
{
    if cs.len() > 0 {
        let rest = cs.drop_last();
        assert forall|i: int| 0 <= i < rest.len() implies !(#[trigger] rest[i]).contains('/') by {
            assert(rest[i] == cs[i]);
        }
        lemma_kept_are_named(rest);
        assert(!cs[cs.len() - 1].contains('/'));
        let r = kept_components(rest);
        let c = cs.last();
        if !(c.len() == 0 || c == seq!['.']) {
            assert forall|k: int| 0 <= k < r.push(c).len() implies named_component(
                #[trigger] r.push(c)[k],
            ) by {
                if k < r.len() {
                    assert(r.push(c)[k] == r[k]);
                }
            }
        }
    }
}

/// Every non-empty normalized path is plain: what a payload lists is what install records
/// encode and decode back (see [crate::manifest::lemma_sorted_manifest_roundtrip]).
pub proof fn lemma_normalized_path_is_plain(p: Seq<char>)
    ensures
        normalized_path(p) is Some && normalized_path(p).unwrap().len() > 0 ==> plain_path(
            normalized_path(p).unwrap(),
        ),
{
    let cs = split_on(p, '/');
    lemma_split_by_pieces(p, is_char('/'));
    assert forall|i: int| 0 <= i < cs.len() implies !(#[trigger] cs[i]).contains('/') by {
        if cs[i].contains('/') {
            let k = choose|k: int| 0 <= k < cs[i].len() && cs[i][k] == '/';
            assert(!is_char('/')(split_by(p, is_char('/'))[i][k]));
        }
    }
    lemma_kept_are_named(cs);
    let ks = kept_components(cs);
    if ks.len() > 0 {
        lemma_joined_named_is_plain(ks);
    }
}

/// Every entry read from a payload has a plain path, so the install record of a payload's
/// entries round-trips (see [crate::manifest::lemma_sorted_manifest_roundtrip]) whenever their
/// paths are distinct and each file's directory is listed.
pub proof fn lemma_payload_paths_plain(rs: Seq<TarRecordView>)
    ensures
        records_instfiles(rs) is Ok ==> forall|k: int|
            0 <= k < records_instfiles(rs)->Ok_0.len() ==> plain_path(
                #[trigger] records_instfiles(rs)->Ok_0[k].path,
            ),
    decreases rs.len(),
{
    if rs.len() > 0 {
        lemma_payload_paths_plain(rs.drop_last());
        let r = rs.last();
        if valid_utf8(r.path) {
            lemma_normalized_path_is_plain(decode_utf8(r.path));
        }
        if records_instfiles(rs) is Ok {
            let es = records_instfiles(rs.drop_last())->Ok_0;
            let all = records_instfiles(rs)->Ok_0;
            assert forall|k: int| 0 <= k < all.len() implies plain_path(#[trigger] all[k].path) by {
                if k < es.len() {
                    assert(all[k] == es[k]);
                }
            }
        }
    }
}

/// Whether a record is installed: it reads without error and is not the metadata or the root.
pub open spec fn installs(r: TarRecordView) -> bool {
    record_entry(r) matches Ok(Some(_))
}

/// A payload's install entries are, in order, the entries of exactly the records that install
/// something; they are read when every record reads and there are at most
/// [PACKAGE_FILE_COUNT] of them.
pub proof fn lemma_instfiles_are_the_installed_records(rs: Seq<TarRecordView>)
    ensures
        records_instfiles(rs) is Ok <==> ((forall|i: int|
            0 <= i < rs.len() ==> #[trigger] record_entry(rs[i]) is Ok) && rs.filter(
            |r: TarRecordView| installs(r),
        ).len() <= PACKAGE_FILE_COUNT),
        records_instfiles(rs) matches Ok(es) ==> es == rs.filter(|r: TarRecordView| installs(r)).map_values(
            |r: TarRecordView| record_entry(r)->Ok_0->0,
        ),
    decreases rs.len(),
{
    reveal(Seq::filter);
    let p = |r: TarRecordView| installs(r);
    let f = |r: TarRecordView| record_entry(r)->Ok_0->0;
    if rs.len() > 0 {
        let a = rs.drop_last();
        let x = rs.last();
        lemma_instfiles_are_the_installed_records(a);
        a.lemma_filter_len(p);
        if records_instfiles(a) is Ok && record_entry(x) is Ok {
            assert forall|i: int| 0 <= i < rs.len() implies #[trigger] record_entry(rs[i]) is Ok by {
                if i < a.len() {
                    assert(rs[i] == a[i]);
                }
            }
            if p(x) {
                assert(a.filter(p).push(x).map_values(f) =~= a.filter(p).map_values(f).push(
                    record_entry(x)->Ok_0->0,
                ));
            }
        } else if records_instfiles(a) is Err {
            if forall|i: int| 0 <= i < rs.len() ==> #[trigger] record_entry(rs[i]) is Ok {
                assert forall|i: int| 0 <= i < a.len() implies #[trigger] record_entry(a[i]) is Ok by {
                    assert(a[i] == rs[i]);
                }
                if !p(x) {
                    assert(rs.filter(p) == a.filter(p));
                }
            }
        } else {
            assert(record_entry(rs[rs.len() - 1]) is Err);
        }
    } else {
        assert(rs.filter(p).len() == 0);
    }
}

} // verus!
