//! The entry stream of an installed-package record.
//!
//! An installed-package record lists the package's files as a stream of fields.  Sequential
//! entries often share metadata, so `Mode`, `Uid` and `Gid` fields are only written when they
//! change and apply to every entry until overwritten.  Paths are written relative to a current
//! directory: a `Dir` field names a directory by its full path and makes it current, a `Subdir`
//! field names one relative to the current directory and makes it current, and a regular file or
//! symlink is a `Filename` (relative to the current directory) followed by its `RegFile` or
//! `Symlink` field.  A file must therefore lie beneath the current directory when it is written,
//! which is why entries are sorted into serialization order ([sort_entries]) before encoding.
use crate::arch::{arch_name, Arch};
use crate::error::AnonLocErr;
use crate::instfile::{
    entry_less, entry_order, is_dir, lemma_entry_order_antisymmetric, lemma_file_before_dirs_after_parent,
    lemma_parent_before_child, lemma_root_file_before_dirs, lemma_sorted_everywhere, same_path,
    InstFile, InstFileType,
};
use crate::paths::{is_absolute, join_path, join_path_exec};
use crate::tarball::{kept_components, named_component};
use crate::text::{
    concat2, concat3, lemma_split_concat, lemma_split_injective, lemma_split_no_sep, split_on,
};
use vstd::prelude::*;

verus! {

/// One field of the entry stream.
#[derive(Debug, PartialEq, Eq)]
pub enum EntryField {
    Mode(u32),
    Uid(u64),
    Gid(u64),
    Filename(String),
    Dir(String),
    Subdir(String),
    RegFile([u8; 32]),
    Symlink(String),
}

/// A field, with its strings as character sequences.
pub enum FieldView {
    Mode(u32),
    Uid(u64),
    Gid(u64),
    Filename(Seq<char>),
    Dir(Seq<char>),
    Subdir(Seq<char>),
    RegFile([u8; 32]),
    Symlink(Seq<char>),
}

pub open spec fn field_view(f: EntryField) -> FieldView {
    match f {
        EntryField::Mode(m) => FieldView::Mode(m),
        EntryField::Uid(u) => FieldView::Uid(u),
        EntryField::Gid(g) => FieldView::Gid(g),
        EntryField::Filename(s) => FieldView::Filename(s@),
        EntryField::Dir(s) => FieldView::Dir(s@),
        EntryField::Subdir(s) => FieldView::Subdir(s@),
        EntryField::RegFile(h) => FieldView::RegFile(h),
        EntryField::Symlink(s) => FieldView::Symlink(s@),
    }
}

pub open spec fn fields_view(fs: Seq<EntryField>) -> Seq<FieldView> {
    fs.map_values(|f: EntryField| field_view(f))
}

/// The kind of an entry, with a symlink target as a character sequence.
pub enum KindView {
    Directory,
    RegFile([u8; 32]),
    Symlink(Seq<char>),
}

/// An entry, with its strings as character sequences.
pub struct EntryView {
    pub mode: u32,
    pub uid: u64,
    pub gid: u64,
    pub path: Seq<char>,
    pub kind: KindView,
}

pub open spec fn kind_view(t: InstFileType) -> KindView {
    match t {
        InstFileType::Directory => KindView::Directory,
        InstFileType::RegFile(h) => KindView::RegFile(h),
        InstFileType::Symlink(t) => KindView::Symlink(t@),
    }
}

pub open spec fn entry_view(e: InstFile) -> EntryView {
    EntryView { mode: e.mode, uid: e.uid, gid: e.gid, path: e.path@, kind: kind_view(e.entry_type) }
}

pub open spec fn entries_view(es: Seq<InstFile>) -> Seq<EntryView> {
    es.map_values(|e: InstFile| entry_view(e))
}

// ---------------------------------------------------------------------------------------------
// Decoding
// ---------------------------------------------------------------------------------------------

/// What the decoder carries from one field to the next: the metadata in force, a pending file
/// name, and the current directory.
pub struct DecState {
    pub mode: Option<u32>,
    pub uid: Option<u64>,
    pub gid: Option<u64>,
    pub filename: Option<Seq<char>>,
    pub dir: Seq<char>,
}

/// The decoder's state before the first field: no metadata, no file name, the root directory.
pub open spec fn dec_init() -> DecState {
    DecState { mode: None, uid: None, gid: None, filename: None, dir: Seq::empty() }
}

/// The entry that a path field completes, from the metadata in force; a missing `mode`, `uid`
/// or `gid` (checked in that order) is an error.
pub open spec fn dec_entry(st: DecState, path: Seq<char>, kind: KindView) -> Result<
    EntryView,
    AnonLocErr,
> {
    match (st.mode, st.uid, st.gid) {
        (Some(mode), Some(uid), Some(gid)) => Ok(EntryView { mode, uid, gid, path, kind }),
        (None, _, _) => Err(AnonLocErr::FieldMissing("mode")),
        (Some(_), None, _) => Err(AnonLocErr::FieldMissing("uid")),
        (Some(_), Some(_), None) => Err(AnonLocErr::FieldMissing("gid")),
    }
}

/// One decoding step: the entries a field completes (none or one) and the next state.
pub open spec fn dec_step(st: DecState, f: FieldView) -> Result<(Seq<EntryView>, DecState), AnonLocErr> {
    match f {
        FieldView::Mode(m) => Ok((seq![], DecState { mode: Some(m), ..st })),
        FieldView::Uid(u) => Ok((seq![], DecState { uid: Some(u), ..st })),
        FieldView::Gid(g) => Ok((seq![], DecState { gid: Some(g), ..st })),
        FieldView::Filename(n) => Ok((seq![], DecState { filename: Some(n), ..st })),
        FieldView::Dir(p) => match dec_entry(st, p, KindView::Directory) {
            Ok(e) => Ok((seq![e], DecState { dir: p, ..st })),
            Err(err) => Err(err),
        },
        FieldView::Subdir(s) => {
            let d = join_path(st.dir, s);
            match dec_entry(st, d, KindView::Directory) {
                Ok(e) => Ok((seq![e], DecState { dir: d, ..st })),
                Err(err) => Err(err),
            }
        },
        FieldView::RegFile(h) => match st.filename {
            None => Err(AnonLocErr::FieldMissing("filename")),
            Some(n) => match dec_entry(st, join_path(st.dir, n), KindView::RegFile(h)) {
                Ok(e) => Ok((seq![e], DecState { filename: None, ..st })),
                Err(err) => Err(err),
            },
        },
        FieldView::Symlink(t) => match st.filename {
            None => Err(AnonLocErr::FieldMissing("filename")),
            Some(n) => match dec_entry(st, join_path(st.dir, n), KindView::Symlink(t)) {
                Ok(e) => Ok((seq![e], DecState { filename: None, ..st })),
                Err(err) => Err(err),
            },
        },
    }
}

/// Decodes the fields from a state: the entries they describe and the state they end in, or
/// the first error.
pub open spec fn dec_from(st: DecState, fs: Seq<FieldView>) -> Result<
    (Seq<EntryView>, DecState),
    AnonLocErr,
>
    decreases fs.len(),
{
    if fs.len() == 0 {
        Ok((seq![], st))
    } else {
        match dec_from(st, fs.drop_last()) {
            Err(err) => Err(err),
            Ok((es, st1)) => match dec_step(st1, fs.last()) {
                Err(err) => Err(err),
                Ok((more, st2)) => Ok((es + more, st2)),
            },
        }
    }
}

/// The entries a whole field stream describes.
pub open spec fn decoded(fs: Seq<FieldView>) -> Result<Seq<EntryView>, AnonLocErr> {
    match dec_from(dec_init(), fs) {
        Ok((es, _)) => Ok(es),
        Err(err) => Err(err),
    }
}

/// Once decoding a prefix of the fields fails, decoding all of them fails with the same error.
proof fn lemma_dec_error_persists(st: DecState, fs: Seq<FieldView>, k: int)
    requires
        0 <= k <= fs.len(),
        dec_from(st, fs.take(k)) is Err,
    ensures
        dec_from(st, fs) == dec_from(st, fs.take(k)),
    decreases fs.len() - k,
{
    if k < fs.len() {
        assert(fs.take(k + 1).drop_last() =~= fs.take(k));
        lemma_dec_error_persists(st, fs, k + 1);
    } else {
        assert(fs.take(k) =~= fs);
    }
}

/// The decoder's state in executable form.
struct DecodeState {
    mode: Option<u32>,
    uid: Option<u64>,
    gid: Option<u64>,
    filename: Option<String>,
    dir: String,
}

spec fn dec_state_view(st: DecodeState) -> DecState {
    DecState {
        mode: st.mode,
        uid: st.uid,
        gid: st.gid,
        filename: match st.filename {
            Some(n) => Some(n@),
            None => None,
        },
        dir: st.dir@,
    }
}

/// The entry a path field completes (see [dec_entry]).
fn complete_entry(st: &DecodeState, path: String, entry_type: InstFileType) -> (r: Result<
    InstFile,
    AnonLocErr,
>)
    ensures
        match dec_entry(dec_state_view(*st), path@, kind_view(entry_type)) {
            Ok(ev) => r matches Ok(e) && entry_view(e) == ev,
            Err(err) => r == Err::<InstFile, AnonLocErr>(err),
        },
{
    let mode = match st.mode {
        Some(m) => m,
        None => {
            return Err(AnonLocErr::FieldMissing("mode"));
        },
    };
    let uid = match st.uid {
        Some(u) => u,
        None => {
            return Err(AnonLocErr::FieldMissing("uid"));
        },
    };
    let gid = match st.gid {
        Some(g) => g,
        None => {
            return Err(AnonLocErr::FieldMissing("gid"));
        },
    };
    Ok(InstFile { mode, uid, gid, path, entry_type })
}

/// Decodes an entry stream into the entries it describes.
///
/// Metadata fields apply to every following entry until overwritten; a file name is used by
/// the next regular file or symlink only.  An entry without metadata in force, or a regular
/// file or symlink without a pending file name, is a `FieldMissing` error.
pub fn decode_entries(fields: &[EntryField]) -> (r: Result<Vec<InstFile>, AnonLocErr>)
    ensures
        match decoded(fields_view(fields@)) {
            Ok(es) => r matches Ok(v) && entries_view(v@) == es,
            Err(err) => r == Err::<Vec<InstFile>, AnonLocErr>(err),
        },
{
    let mut st = DecodeState { mode: None, uid: None, gid: None, filename: None, dir: String::new() };
    let mut out: Vec<InstFile> = Vec::new();
    let mut i: usize = 0;
    assert(fields_view(fields@).take(0) =~= Seq::<FieldView>::empty());
    assert(entries_view(out@) =~= Seq::<EntryView>::empty());
    assert(dec_state_view(st).dir =~= Seq::<char>::empty());
    assert(dec_state_view(st) == dec_init());
    while i < fields.len()
        invariant
            i <= fields.len(),
            dec_from(dec_init(), fields_view(fields@).take(i as int)) == Ok::<
                (Seq<EntryView>, DecState),
                AnonLocErr,
            >((entries_view(out@), dec_state_view(st))),
        decreases fields.len() - i,
    {
        let ghost fv = fields_view(fields@);
        let ghost before = dec_state_view(st);
        let ghost out_before = entries_view(out@);
        proof {
            assert(fv.take(i as int + 1).drop_last() =~= fv.take(i as int));
            assert(fv.take(i as int + 1).last() == field_view(fields@[i as int]));
        }
        match &fields[i] {
            EntryField::Mode(m) => {
                st.mode = Some(*m);
            },
            EntryField::Uid(u) => {
                st.uid = Some(*u);
            },
            EntryField::Gid(g) => {
                st.gid = Some(*g);
            },
            EntryField::Filename(n) => {
                st.filename = Some(n.clone());
            },
            EntryField::Dir(p) => {
                let e = match complete_entry(&st, p.clone(), InstFileType::Directory) {
                    Ok(e) => e,
                    Err(err) => {
                        proof {
                            lemma_dec_error_persists(dec_init(), fv, i as int + 1);
                        }
                        return Err(err);
                    },
                };
                out.push(e);
                st.dir = p.clone();
            },
            EntryField::Subdir(s) => {
                let d = join_path_exec(st.dir.as_str(), s.as_str());
                let e = match complete_entry(&st, d.clone(), InstFileType::Directory) {
                    Ok(e) => e,
                    Err(err) => {
                        proof {
                            lemma_dec_error_persists(dec_init(), fv, i as int + 1);
                        }
                        return Err(err);
                    },
                };
                out.push(e);
                st.dir = d;
            },
            EntryField::RegFile(h) => {
                let name = match st.filename.take() {
                    Some(n) => n,
                    None => {
                        proof {
                            lemma_dec_error_persists(dec_init(), fv, i as int + 1);
                        }
                        return Err(AnonLocErr::FieldMissing("filename"));
                    },
                };
                let path = join_path_exec(st.dir.as_str(), name.as_str());
                let e = match complete_entry(&st, path, InstFileType::RegFile(*h)) {
                    Ok(e) => e,
                    Err(err) => {
                        proof {
                            lemma_dec_error_persists(dec_init(), fv, i as int + 1);
                        }
                        return Err(err);
                    },
                };
                out.push(e);
            },
            EntryField::Symlink(t) => {
                let name = match st.filename.take() {
                    Some(n) => n,
                    None => {
                        proof {
                            lemma_dec_error_persists(dec_init(), fv, i as int + 1);
                        }
                        return Err(AnonLocErr::FieldMissing("filename"));
                    },
                };
                let path = join_path_exec(st.dir.as_str(), name.as_str());
                let e = match complete_entry(&st, path, InstFileType::Symlink(t.clone())) {
                    Ok(e) => e,
                    Err(err) => {
                        proof {
                            lemma_dec_error_persists(dec_init(), fv, i as int + 1);
                        }
                        return Err(err);
                    },
                };
                out.push(e);
            },
        }
        proof {
            assert(entries_view(out@) =~= out_before + dec_step(before, field_view(fields@[i as int])).unwrap().0);
        }
        i = i + 1;
    }
    assert(fields_view(fields@).take(i as int) =~= fields_view(fields@));
    Ok(out)
}

// ---------------------------------------------------------------------------------------------
// Paths
// ---------------------------------------------------------------------------------------------

/// A plain relative path: non-empty, and every `/`-separated component is non-empty and not
/// `.` (no leading, trailing or doubled `/`).  For such paths component-wise operations are
/// plain string operations.
pub open spec fn plain_path(p: Seq<char>) -> bool {
    &&& p.len() > 0
    &&& p[0] != '/'
    &&& p.last() != '/'
    &&& forall|i: int| #![trigger p[i]] 0 <= i < p.len() - 1 ==> !(p[i] == '/' && p[i + 1] == '/')
    &&& forall|i: int|
        #![trigger p[i]]
        0 <= i < p.len() && p[i] == '.' ==> !((i == 0 || p[i - 1] == '/') && (i == p.len() - 1
            || p[i + 1] == '/'))
}

/// A directory context: the root (empty) or a plain path.
pub open spec fn plain_dir(d: Seq<char>) -> bool {
    d.len() == 0 || plain_path(d)
}

/// `p` with the leading components `d` removed, for a plain path and a directory context: all of
/// `p` under the root, nothing when `p` is `d`, what follows `d/` when `p` lies beneath `d`, and
/// `None` otherwise.
pub open spec fn plain_strip(p: Seq<char>, d: Seq<char>) -> Option<Seq<char>> {
    if d.len() == 0 {
        Some(p)
    } else if p == d {
        Some(Seq::empty())
    } else if d.len() < p.len() && p.take(d.len() as int) == d && p[d.len() as int] == '/' {
        Some(p.skip(d.len() as int + 1))
    } else {
        None
    }
}

/// What `camino::Utf8Path::strip_prefix` returns for a path and a base, as characters: the
/// components of the path after those of the base, or `None` when the base's components do not
/// begin the path's.
pub uninterp spec fn stripped_path(path: Seq<char>, base: Seq<char>) -> Option<Seq<char>>;

pub open spec fn opt_str_view(o: Option<String>) -> Option<Seq<char>> {
    match o {
        Some(s) => Some(s@),
        None => None,
    }
}

/// The component-wise prefix removal of `camino::Utf8Path::strip_prefix`.
///
/// Trusted: the result is the named one; for a plain path and a plain (or empty) base it is the
/// string-level removal that the crate documents: the path that, joined onto the base, yields the
/// given path, when the base's components begin the path's.
#[verifier::external_body]
fn strip_path_prefix(path: &str, base: &str) -> (r: Option<String>)
    ensures
        opt_str_view(r) == stripped_path(path@, base@),
        plain_path(path@) && plain_dir(base@) ==> opt_str_view(r) == plain_strip(path@, base@),
{
    camino::Utf8Path::new(path).strip_prefix(base).ok().map(|p| p.as_str().to_owned())
}

/// Joining what [plain_strip] leaves back onto the directory gives the path again, unless the
/// path is the directory itself.
pub proof fn lemma_join_plain_strip(p: Seq<char>, d: Seq<char>)
    requires
        plain_path(p),
        plain_dir(d),
        p != d,
        plain_strip(p, d) is Some,
    ensures
        join_path(d, plain_strip(p, d).unwrap()) == p,
{
    if d.len() == 0 {
        assert(Seq::<char>::empty() + p =~= p);
    } else {
        let s = p.skip(d.len() as int + 1);
        let k = d.len() as int;
        assert(p[k] == '/');
        assert(k + 1 < p.len()) by {
            if k + 1 >= p.len() {
                assert(p.last() == p[k]);
            }
        }
        assert(s[0] == p[k + 1]);
        assert(!(p[k] == '/' && p[k + 1] == '/'));
        assert(!is_absolute(s));
        assert(d.last() != '/');
        assert(d + seq!['/'] + s =~= p);
    }
}

// ---------------------------------------------------------------------------------------------
// Encoding
// ---------------------------------------------------------------------------------------------

/// What the encoder carries from one entry to the next: the metadata last written and the
/// current directory.
pub struct EncState {
    pub mode: Option<u32>,
    pub uid: Option<u64>,
    pub gid: Option<u64>,
    pub dir: Seq<char>,
}

/// The encoder's state before the first entry: nothing written, the root directory.
pub open spec fn enc_init() -> EncState {
    EncState { mode: None, uid: None, gid: None, dir: Seq::empty() }
}

/// The metadata fields an entry needs: those that differ from what was last written.
pub open spec fn meta_fields(st: EncState, e: EntryView) -> Seq<FieldView> {
    (if st.mode == Some(e.mode) {
        Seq::empty()
    } else {
        seq![FieldView::Mode(e.mode)]
    }) + (if st.uid == Some(e.uid) {
        Seq::empty()
    } else {
        seq![FieldView::Uid(e.uid)]
    }) + (if st.gid == Some(e.gid) {
        Seq::empty()
    } else {
        seq![FieldView::Gid(e.gid)]
    })
}

/// One encoding step, given the entry's path relative to the current directory (`None` when
/// it does not lie beneath it): the fields written and the next state.  A directory outside the
/// current directory is written by its full path; a file or symlink outside it cannot be written
/// (`None`).
pub open spec fn enc_step(st: EncState, e: EntryView, sub: Option<Seq<char>>) -> Option<
    (Seq<FieldView>, EncState),
> {
    let meta = meta_fields(st, e);
    let st1 = EncState { mode: Some(e.mode), uid: Some(e.uid), gid: Some(e.gid), dir: st.dir };
    match e.kind {
        KindView::Directory => match sub {
            Some(sp) => Some(
                (meta.push(FieldView::Subdir(sp)), EncState { dir: join_path(st.dir, sp), ..st1 }),
            ),
            None => Some((meta.push(FieldView::Dir(e.path)), EncState { dir: e.path, ..st1 })),
        },
        KindView::RegFile(h) => match sub {
            Some(sp) => Some((meta + seq![FieldView::Filename(sp), FieldView::RegFile(h)], st1)),
            None => None,
        },
        KindView::Symlink(t) => match sub {
            Some(sp) => Some((meta + seq![FieldView::Filename(sp), FieldView::Symlink(t)], st1)),
            None => None,
        },
    }
}

/// Encodes entries from a state, relative paths computed by `strip`: the fields and the final
/// state, or `None` when some entry cannot be written.
pub open spec fn enc_from(
    st: EncState,
    xs: Seq<EntryView>,
    strip: spec_fn(Seq<char>, Seq<char>) -> Option<Seq<char>>,
) -> Option<(Seq<FieldView>, EncState)>
    decreases xs.len(),
{
    if xs.len() == 0 {
        Some((seq![], st))
    } else {
        match enc_from(st, xs.drop_last(), strip) {
            None => None,
            Some((fs, st1)) => match enc_step(st1, xs.last(), strip(xs.last().path, st1.dir)) {
                None => None,
                Some((more, st2)) => Some((fs + more, st2)),
            },
        }
    }
}

/// The fields encoding the entries, or `None` when some entry cannot be written.
pub open spec fn encoded(
    xs: Seq<EntryView>,
    strip: spec_fn(Seq<char>, Seq<char>) -> Option<Seq<char>>,
) -> Option<Seq<FieldView>> {
    match enc_from(enc_init(), xs, strip) {
        Some((fs, _)) => Some(fs),
        None => None,
    }
}

/// Relative paths as `camino` computes them.
pub open spec fn camino_strip() -> spec_fn(Seq<char>, Seq<char>) -> Option<Seq<char>> {
    |p: Seq<char>, d: Seq<char>| stripped_path(p, d)
}

/// Relative paths of plain paths.
pub open spec fn plain_strip_fn() -> spec_fn(Seq<char>, Seq<char>) -> Option<Seq<char>> {
    |p: Seq<char>, d: Seq<char>| plain_strip(p, d)
}

/// Every path is plain, and no two entries share a path.
pub open spec fn plain_distinct(xs: Seq<EntryView>) -> bool {
    &&& forall|i: int| 0 <= i < xs.len() ==> plain_path(#[trigger] xs[i].path)
    &&& forall|i: int, j: int|
        0 <= i < j < xs.len() ==> (#[trigger] xs[i].path) != (#[trigger] xs[j].path)
}

/// The encoder's state in executable form.
pub struct EncodeState {
    pub mode: Option<u32>,
    pub uid: Option<u64>,
    pub gid: Option<u64>,
    pub dir: String,
}

pub open spec fn enc_state_view(st: EncodeState) -> EncState {
    EncState { mode: st.mode, uid: st.uid, gid: st.gid, dir: st.dir@ }
}

impl EncodeState {
    /// The state before the first entry.
    pub fn new() -> (st: Self)
        ensures
            enc_state_view(st) == enc_init(),
    {
        let st = EncodeState { mode: None, uid: None, gid: None, dir: String::new() };
        assert(enc_state_view(st).dir =~= Seq::<char>::empty());
        st
    }
}

/// Writes one entry, given its path relative to the current directory (`None` when it does
/// not lie beneath it): metadata fields where they changed, then the path fields.  A file or
/// symlink outside the current directory is `UnexpectedData`, and then nothing is written.
pub fn encode_entry(
    st: &mut EncodeState,
    e: &InstFile,
    subpath: Option<String>,
    out: &mut Vec<EntryField>,
) -> (r: Result<(), AnonLocErr>)
    ensures
        match enc_step(enc_state_view(*old(st)), entry_view(*e), opt_str_view(subpath)) {
            Some((more, st2)) => r is Ok && fields_view(final(out)@) == fields_view(old(out)@)
                + more && enc_state_view(*final(st)) == st2,
            None => r == Err::<(), AnonLocErr>(AnonLocErr::UnexpectedData) && *final(out)
                == *old(out) && *final(st) == *old(st),
        },
{
    let is_dir = match e.entry_type {
        InstFileType::Directory => true,
        _ => false,
    };
    if !is_dir && subpath.is_none() {
        return Err(AnonLocErr::UnexpectedData);
    }
    let ghost out0 = fields_view(out@);
    let ghost st0 = enc_state_view(*st);
    let ghost ev = entry_view(*e);
    let mut meta: Vec<EntryField> = Vec::new();
    let same_mode = match st.mode {
        Some(m) => m == e.mode,
        None => false,
    };
    if !same_mode {
        meta.push(EntryField::Mode(e.mode));
    }
    let same_uid = match st.uid {
        Some(u) => u == e.uid,
        None => false,
    };
    if !same_uid {
        meta.push(EntryField::Uid(e.uid));
    }
    let same_gid = match st.gid {
        Some(g) => g == e.gid,
        None => false,
    };
    if !same_gid {
        meta.push(EntryField::Gid(e.gid));
    }
    assert(fields_view(meta@) =~= meta_fields(st0, ev));
    st.mode = Some(e.mode);
    st.uid = Some(e.uid);
    st.gid = Some(e.gid);
    match subpath {
        Some(sp) => {
            match &e.entry_type {
                InstFileType::Directory => {
                    let d = join_path_exec(st.dir.as_str(), sp.as_str());
                    meta.push(EntryField::Subdir(sp));
                    st.dir = d;
                },
                InstFileType::RegFile(h) => {
                    meta.push(EntryField::Filename(sp));
                    meta.push(EntryField::RegFile(*h));
                },
                InstFileType::Symlink(t) => {
                    meta.push(EntryField::Filename(sp));
                    meta.push(EntryField::Symlink(t.clone()));
                },
            }
        },
        None => {
            meta.push(EntryField::Dir(e.path.clone()));
            st.dir = e.path.clone();
        },
    }
    let ghost more = fields_view(meta@);
    out.append(&mut meta);
    assert(fields_view(out@) =~= out0 + more);
    proof {
        let expected = enc_step(st0, ev, opt_str_view(subpath));
        assert(expected is Some);
        assert(more =~= expected.unwrap().0);
    }
    Ok(())
}

/// Once encoding a prefix of the entries fails, encoding all of them fails.
proof fn lemma_enc_failure_persists(
    st: EncState,
    xs: Seq<EntryView>,
    k: int,
    strip: spec_fn(Seq<char>, Seq<char>) -> Option<Seq<char>>,
)
    requires
        0 <= k <= xs.len(),
        enc_from(st, xs.take(k), strip) is None,
    ensures
        enc_from(st, xs, strip) is None,
    decreases xs.len() - k,
{
    if k < xs.len() {
        assert(xs.take(k + 1).drop_last() =~= xs.take(k));
        lemma_enc_failure_persists(st, xs, k + 1, strip);
    } else {
        assert(xs.take(k) =~= xs);
    }
}

/// Encodes entries, in the order given, as a stream of fields.
///
/// Each file or symlink must lie beneath the directory most recently written (or be at the
/// root before any directory); otherwise the result is `UnexpectedData`.  Sorting the entries
/// with [sort_entries] first arranges that.
pub fn encode_entries(entries: &[InstFile]) -> (r: Result<Vec<EntryField>, AnonLocErr>)
    ensures
        match encoded(entries_view(entries@), camino_strip()) {
            Some(fs) => r matches Ok(v) && fields_view(v@) == fs,
            None => r == Err::<Vec<EntryField>, AnonLocErr>(AnonLocErr::UnexpectedData),
        },
        plain_distinct(entries_view(entries@)) ==> encoded(entries_view(entries@), camino_strip())
            == encoded(entries_view(entries@), plain_strip_fn()),
{
    let ghost xv = entries_view(entries@);
    let mut st = EncodeState::new();
    let mut out: Vec<EntryField> = Vec::new();
    let mut i: usize = 0;
    assert(xv.take(0) =~= Seq::<EntryView>::empty());
    assert(fields_view(out@) =~= Seq::<FieldView>::empty());
    while i < entries.len()
        invariant
            i <= entries.len(),
            xv == entries_view(entries@),
            enc_from(enc_init(), xv.take(i as int), camino_strip()) == Some(
                (fields_view(out@), enc_state_view(st)),
            ),
            plain_distinct(xv) ==> enc_from(enc_init(), xv.take(i as int), plain_strip_fn())
                == Some((fields_view(out@), enc_state_view(st))),
            plain_distinct(xv) ==> plain_dir(st.dir@),
            plain_distinct(xv) ==> (st.dir@.len() == 0 || exists|j: int|
                0 <= j < i && #[trigger] xv[j].path == st.dir@),
        decreases entries.len() - i,
    {
        let e = &entries[i];
        let ghost st0 = enc_state_view(st);
        let ghost out0 = fields_view(out@);
        let sub = strip_path_prefix(e.path.as_str(), st.dir.as_str());
        proof {
            assert(xv.take(i as int + 1).drop_last() =~= xv.take(i as int));
            assert(xv.take(i as int + 1).last() == xv[i as int]);
            assert(xv[i as int] == entry_view(entries@[i as int]));
        }
        match encode_entry(&mut st, e, sub, &mut out) {
            Ok(()) => {},
            Err(err) => {
                proof {
                    lemma_enc_failure_persists(enc_init(), xv, i as int + 1, camino_strip());
                    if plain_distinct(xv) {
                        assert(plain_path(xv[i as int].path));
                        lemma_enc_failure_persists(enc_init(), xv, i as int + 1, plain_strip_fn());
                    }
                }
                return Err(err);
            },
        }
        proof {
            if plain_distinct(xv) {
                let p = xv[i as int].path;
                assert(plain_path(p));
                assert(p != st0.dir) by {
                    if st0.dir.len() != 0 {
                        let j = choose|j: int| 0 <= j < i && #[trigger] xv[j].path == st0.dir;
                        assert(xv[j].path != xv[i as int].path);
                    }
                }
                assert(opt_str_view(sub) == plain_strip(p, st0.dir));
                match xv[i as int].kind {
                    KindView::Directory => {
                        match plain_strip(p, st0.dir) {
                            Some(sp) => {
                                lemma_join_plain_strip(p, st0.dir);
                            },
                            None => {},
                        }
                        assert(st.dir@ == p);
                        assert(xv[i as int].path == st.dir@);
                    },
                    _ => {
                        assert(st.dir@ == st0.dir);
                        if st0.dir.len() != 0 {
                            let j = choose|j: int| 0 <= j < i && #[trigger] xv[j].path == st0.dir;
                            assert(xv[j].path == st.dir@);
                        }
                    },
                }
            }
        }
        i = i + 1;
    }
    assert(xv.take(i as int) =~= xv);
    Ok(out)
}


// ---------------------------------------------------------------------------------------------
// Serialization order
// ---------------------------------------------------------------------------------------------

/// Adjacent entries are in serialization order (none sorts after its successor).
pub open spec fn sorted_entries(es: Seq<InstFile>) -> bool {
    forall|i: int| 0 <= i < es.len() - 1 ==> entry_order(#[trigger] es[i], es[i + 1]) <= 0
}

/// The first position in a sorted sequence whose entry sorts strictly after `e`, or its length.
fn insertion_point(sorted: &Vec<InstFile>, e: &InstFile) -> (r: usize)
    requires
        sorted_entries(sorted@),
    ensures
        r <= sorted@.len(),
        forall|k: int| 0 <= k < r ==> entry_order(*e, #[trigger] sorted@[k]) != -1,
        r < sorted@.len() ==> entry_order(*e, sorted@[r as int]) == -1,
{
    let mut j: usize = 0;
    while j < sorted.len()
        invariant
            j <= sorted@.len(),
            forall|k: int| 0 <= k < j ==> entry_order(*e, #[trigger] sorted@[k]) != -1,
        decreases sorted@.len() - j,
    {
        if entry_less(e, &sorted[j]) {
            return j;
        }
        j = j + 1;
    }
    j
}

/// Sorts entries into serialization order: depth-first, the files of each directory before its
/// subdirectories (the order of [crate::instfile::entry_order]).  Each entry is inserted after
/// every entry already placed that it does not sort before, so the result is a permutation of
/// the input whose neighbours are in order.
pub fn sort_entries(entries: Vec<InstFile>) -> (r: Vec<InstFile>)
    ensures
        r@.to_multiset() == entries@.to_multiset(),
        sorted_entries(r@),
{
    broadcast use vstd::std_specs::vec::axiom_spec_into_iter;

    let ghost all = entries@;
    let mut sorted: Vec<InstFile> = Vec::new();
    assert(all.take(0) =~= Seq::<InstFile>::empty());
    for e in it: entries.into_iter()
        invariant
            it.seq() == all,
            sorted_entries(sorted@),
            sorted@.to_multiset() == all.take(it.index() as int).to_multiset(),
    {
        let ghost idx = it.index() as int;
        let ghost before = sorted@;
        let pos = insertion_point(&sorted, &e);
        let ghost ge = e;
        sorted.insert(pos, e);
        proof {
            assert(sorted@ == before.insert(pos as int, ge));
            assert(ge == all[idx]);
            assert(all.take(idx + 1) =~= all.take(idx).push(all[idx]));
            vstd::seq_lib::to_multiset_insert(before, pos as int, ge);
            vstd::seq_lib::to_multiset_build(all.take(idx), ge);
            assert forall|i: int| 0 <= i < sorted@.len() - 1 implies entry_order(
                #[trigger] sorted@[i],
                sorted@[i + 1],
            ) <= 0 by {
                let p = pos as int;
                if i + 1 < p {
                    assert(sorted@[i] == before[i]);
                    assert(sorted@[i + 1] == before[i + 1]);
                } else if i + 1 == p {
                    assert(sorted@[i] == before[i]);
                    assert(entry_order(ge, before[i]) != -1);
                    lemma_entry_order_antisymmetric(ge, before[i]);
                } else if i == p {
                    assert(sorted@[i + 1] == before[i]);
                } else {
                    assert(sorted@[i] == before[i - 1]);
                    assert(sorted@[i + 1] == before[i]);
                }
            }
        }
    }
    assert(all.take(all.len() as int) =~= all);
    sorted
}

/// Sorts entries into serialization order and encodes them: the sorted entries, and their
/// encoding or the error that prevented it.
pub fn encode_manifest(entries: Vec<InstFile>) -> (r: (Vec<InstFile>, Result<Vec<EntryField>, AnonLocErr>))
    ensures
        r.0@.to_multiset() == entries@.to_multiset(),
        sorted_entries(r.0@),
        match encoded(entries_view(r.0@), camino_strip()) {
            Some(fs) => r.1 matches Ok(v) && fields_view(v@) == fs,
            None => r.1 == Err::<Vec<EntryField>, AnonLocErr>(AnonLocErr::UnexpectedData),
        },
{
    let sorted = sort_entries(entries);
    let fields = encode_entries(&sorted);
    (sorted, fields)
}

// ---------------------------------------------------------------------------------------------
// The entry block
// ---------------------------------------------------------------------------------------------

/// Scans bytes left to right, splitting at NUL bytes: the pieces completed so far and the piece
/// in progress.
pub open spec fn scan_pieces(data: Seq<u8>) -> (Seq<Seq<u8>>, Seq<u8>)
    decreases data.len(),
{
    if data.len() == 0 {
        (seq![], seq![])
    } else {
        let (done, cur) = scan_pieces(data.drop_last());
        if data.last() == 0 {
            (done.push(cur), seq![])
        } else {
            (done, cur.push(data.last()))
        }
    }
}

/// The pieces of the bytes between NUL bytes (as `split` on `\0`: there is always at least one).
pub open spec fn nul_pieces(data: Seq<u8>) -> Seq<Seq<u8>> {
    let (done, cur) = scan_pieces(data);
    done.push(cur)
}

/// An entry block's data: the block without the NUL that ends its last field.
pub open spec fn entry_data(block: Seq<u8>) -> Seq<u8> {
    if block.len() > 0 && block.last() == 0 {
        block.drop_last()
    } else {
        block
    }
}

/// Splits an installed-package record's entry block into its raw fields: the block's last NUL
/// is dropped and the rest is split at NUL bytes.  An empty field (two NULs in a row, or an
/// empty block) is corrupt data.
pub fn split_entry_block(block: &[u8]) -> (r: Result<Vec<Vec<u8>>, AnonLocErr>)
    ensures
        (forall|i: int|
            0 <= i < nul_pieces(entry_data(block@)).len() ==> (
            #[trigger] nul_pieces(entry_data(block@))[i]).len() > 0) ==> (r matches Ok(v)
            && v@.map_values(|f: Vec<u8>| f@) == nul_pieces(entry_data(block@))),
        !(forall|i: int|
            0 <= i < nul_pieces(entry_data(block@)).len() ==> (
            #[trigger] nul_pieces(entry_data(block@))[i]).len() > 0) ==> r == Err::<
            Vec<Vec<u8>>,
            AnonLocErr,
        >(AnonLocErr::UnexpectedData),
{
    let n = if block.len() > 0 && block[block.len() - 1] == 0 {
        block.len() - 1
    } else {
        block.len()
    };
    let ghost data = entry_data(block@);
    assert(block@.take(n as int) =~= data);
    let mut done: Vec<Vec<u8>> = Vec::new();
    let mut cur: Vec<u8> = Vec::new();
    let mut i: usize = 0;
    assert(data.take(0) =~= Seq::<u8>::empty());
    assert(done@.map_values(|f: Vec<u8>| f@) =~= Seq::<Seq<u8>>::empty());
    while i < n
        invariant
            i <= n <= block@.len(),
            data == block@.take(n as int),
            scan_pieces(data.take(i as int)).0 == done@.map_values(|f: Vec<u8>| f@),
            scan_pieces(data.take(i as int)).1 == cur@,
        decreases n - i,
    {
        assert(data.take(i as int + 1).drop_last() =~= data.take(i as int));
        assert(data.take(i as int + 1).last() == block@[i as int]);
        if block[i] == 0 {
            let ghost dv = done@.map_values(|f: Vec<u8>| f@);
            let piece = cur;
            cur = Vec::new();
            done.push(piece);
            assert(done@.map_values(|f: Vec<u8>| f@) =~= dv.push(piece@));
        } else {
            cur.push(block[i]);
        }
        i = i + 1;
    }
    assert(data.take(i as int) =~= data);
    let ghost dv = done@.map_values(|f: Vec<u8>| f@);
    done.push(cur);
    let ghost pieces = done@.map_values(|f: Vec<u8>| f@);
    assert(pieces =~= nul_pieces(data));
    let mut k: usize = 0;
    while k < done.len()
        invariant
            k <= done@.len(),
            pieces == done@.map_values(|f: Vec<u8>| f@),
            pieces == nul_pieces(entry_data(block@)),
            forall|j: int| 0 <= j < k ==> (#[trigger] pieces[j]).len() > 0,
        decreases done@.len() - k,
    {
        if done[k].len() == 0 {
            assert(pieces[k as int].len() == 0);
            assert(nul_pieces(entry_data(block@))[k as int].len() == 0);
            return Err(AnonLocErr::UnexpectedData);
        }
        k = k + 1;
    }
    Ok(done)
}

// ---------------------------------------------------------------------------------------------
// Decoding what was encoded
// ---------------------------------------------------------------------------------------------

/// Decoding two streams one after the other is decoding their concatenation.
proof fn lemma_dec_concat(st: DecState, a: Seq<FieldView>, b: Seq<FieldView>)
    ensures
        dec_from(st, a + b) == match dec_from(st, a) {
            Err(err) => Err(err),
            Ok((es, st1)) => match dec_from(st1, b) {
                Err(err) => Err(err),
                Ok((es2, st2)) => Ok((es + es2, st2)),
            },
        },
    decreases b.len(),
{
    if b.len() == 0 {
        assert(a + b =~= a);
        match dec_from(st, a) {
            Err(_) => {},
            Ok((es, st1)) => {
                assert(es + Seq::<EntryView>::empty() =~= es);
            },
        }
    } else {
        assert((a + b).drop_last() =~= a + b.drop_last());
        assert((a + b).last() == b.last());
        lemma_dec_concat(st, a, b.drop_last());
        match dec_from(st, a) {
            Err(_) => {},
            Ok((es, st1)) => match dec_from(st1, b.drop_last()) {
                Err(_) => {},
                Ok((es2, st2)) => match dec_step(st2, b.last()) {
                    Err(_) => {},
                    Ok((more, st3)) => {
                        assert(es + es2 + more =~= es + (es2 + more));
                    },
                },
            },
        }
    }
}

/// Decoding a single field is one decoding step.
proof fn lemma_dec_single(st: DecState, f: FieldView)
    ensures
        dec_from(st, seq![f]) == dec_step(st, f),
{
    assert(seq![f].drop_last() =~= Seq::<FieldView>::empty());
    assert(dec_from(st, Seq::<FieldView>::empty()) == Ok::<(Seq<EntryView>, DecState), AnonLocErr>(
        (seq![], st),
    ));
    match dec_step(st, f) {
        Err(_) => {},
        Ok((es, st2)) => {
            assert(Seq::<EntryView>::empty() + es =~= es);
        },
    }
}

/// The decoder state matching an encoder state at an entry boundary.
pub open spec fn dec_of(st: EncState) -> DecState {
    DecState { mode: st.mode, uid: st.uid, gid: st.gid, filename: None, dir: st.dir }
}

/// Decoding an optional metadata field sets that metadata.
proof fn lemma_dec_meta(st: EncState, e: EntryView)
    ensures
        dec_from(dec_of(st), meta_fields(st, e)) == Ok::<(Seq<EntryView>, DecState), AnonLocErr>(
            (
                seq![],
                dec_of(EncState { mode: Some(e.mode), uid: Some(e.uid), gid: Some(e.gid), ..st }),
            ),
        ),
{
    let m: Seq<FieldView> = if st.mode == Some(e.mode) {
        Seq::empty()
    } else {
        seq![FieldView::Mode(e.mode)]
    };
    let u: Seq<FieldView> = if st.uid == Some(e.uid) {
        Seq::empty()
    } else {
        seq![FieldView::Uid(e.uid)]
    };
    let g: Seq<FieldView> = if st.gid == Some(e.gid) {
        Seq::empty()
    } else {
        seq![FieldView::Gid(e.gid)]
    };
    let s0 = dec_of(st);
    let s1 = DecState { mode: Some(e.mode), ..s0 };
    let s2 = DecState { uid: Some(e.uid), ..s1 };
    let s3 = DecState { gid: Some(e.gid), ..s2 };
    assert(dec_from(s0, m) == Ok::<(Seq<EntryView>, DecState), AnonLocErr>((seq![], s1))) by {
        if st.mode != Some(e.mode) {
            lemma_dec_single(s0, FieldView::Mode(e.mode));
        }
    }
    assert(dec_from(s1, u) == Ok::<(Seq<EntryView>, DecState), AnonLocErr>((seq![], s2))) by {
        if st.uid != Some(e.uid) {
            lemma_dec_single(s1, FieldView::Uid(e.uid));
        }
    }
    assert(dec_from(s2, g) == Ok::<(Seq<EntryView>, DecState), AnonLocErr>((seq![], s3))) by {
        if st.gid != Some(e.gid) {
            lemma_dec_single(s2, FieldView::Gid(e.gid));
        }
    }
    lemma_dec_concat(s0, m, u);
    lemma_dec_concat(s0, m + u, g);
    assert(Seq::<EntryView>::empty() + Seq::<EntryView>::empty() =~= Seq::<EntryView>::empty());
}

/// Decoding the fields written for one entry gives back that entry and the matching state.
proof fn lemma_dec_enc_step(st: EncState, e: EntryView)
    requires
        plain_path(e.path),
        plain_dir(st.dir),
        e.path != st.dir,
        enc_step(st, e, plain_strip(e.path, st.dir)) is Some,
    ensures
        dec_from(dec_of(st), enc_step(st, e, plain_strip(e.path, st.dir)).unwrap().0) == Ok::<
            (Seq<EntryView>, DecState),
            AnonLocErr,
        >((seq![e], dec_of(enc_step(st, e, plain_strip(e.path, st.dir)).unwrap().1))),
{
    let sub = plain_strip(e.path, st.dir);
    let meta = meta_fields(st, e);
    let st1 = EncState { mode: Some(e.mode), uid: Some(e.uid), gid: Some(e.gid), ..st };
    lemma_dec_meta(st, e);
    let d1 = dec_of(st1);
    let tail: Seq<FieldView> = match e.kind {
        KindView::Directory => match sub {
            Some(sp) => seq![FieldView::Subdir(sp)],
            None => seq![FieldView::Dir(e.path)],
        },
        KindView::RegFile(h) => seq![FieldView::Filename(sub.unwrap()), FieldView::RegFile(h)],
        KindView::Symlink(t) => seq![FieldView::Filename(sub.unwrap()), FieldView::Symlink(t)],
    };
    let (more, st2) = enc_step(st, e, sub).unwrap();
    assert(more =~= meta + tail);
    lemma_dec_concat(dec_of(st), meta, tail);
    if sub is Some {
        lemma_join_plain_strip(e.path, st.dir);
    }
    match e.kind {
        KindView::Directory => {
            match sub {
                Some(sp) => {
                    lemma_dec_single(d1, FieldView::Subdir(sp));
                },
                None => {
                    lemma_dec_single(d1, FieldView::Dir(e.path));
                },
            }
        },
        KindView::RegFile(h) => {
            let sp = sub.unwrap();
            let d2 = DecState { filename: Some(sp), ..d1 };
            lemma_dec_single(d1, FieldView::Filename(sp));
            lemma_dec_single(d2, FieldView::RegFile(h));
            lemma_dec_concat(d1, seq![FieldView::Filename(sp)], seq![FieldView::RegFile(h)]);
            assert(seq![FieldView::Filename(sp)] + seq![FieldView::RegFile(h)] =~= tail);
            assert(dec_entry(d2, join_path(d2.dir, sp), KindView::RegFile(h)) == Ok::<
                EntryView,
                AnonLocErr,
            >(e));
            assert(Seq::<EntryView>::empty() + seq![e] =~= seq![e]);
        },
        KindView::Symlink(t) => {
            let sp = sub.unwrap();
            let d2 = DecState { filename: Some(sp), ..d1 };
            lemma_dec_single(d1, FieldView::Filename(sp));
            lemma_dec_single(d2, FieldView::Symlink(t));
            lemma_dec_concat(d1, seq![FieldView::Filename(sp)], seq![FieldView::Symlink(t)]);
            assert(seq![FieldView::Filename(sp)] + seq![FieldView::Symlink(t)] =~= tail);
            assert(dec_entry(d2, join_path(d2.dir, sp), KindView::Symlink(t)) == Ok::<
                EntryView,
                AnonLocErr,
            >(e));
            assert(Seq::<EntryView>::empty() + seq![e] =~= seq![e]);
        },
    }
    assert(Seq::<EntryView>::empty() + seq![e] =~= seq![e]);
}

/// Decoding what the entries encode to gives them back, with the decoder ending in the state
/// matching the encoder's; the encoder's directory is the root or the path of an earlier entry.
proof fn lemma_dec_enc_from(xs: Seq<EntryView>)
    requires
        plain_distinct(xs),
        enc_from(enc_init(), xs, plain_strip_fn()) is Some,
    ensures
        ({
            let (fs, st) = enc_from(enc_init(), xs, plain_strip_fn()).unwrap();
            &&& dec_from(dec_init(), fs) == Ok::<(Seq<EntryView>, DecState), AnonLocErr>(
                (xs, dec_of(st)),
            )
            &&& plain_dir(st.dir)
            &&& (st.dir.len() == 0 || exists|j: int| 0 <= j < xs.len() && #[trigger] xs[j].path == st.dir)
        }),
    decreases xs.len(),
{
    if xs.len() == 0 {
        assert(dec_of(enc_init()) == dec_init());
        assert(xs =~= Seq::<EntryView>::empty());
        assert(dec_from(dec_init(), Seq::<FieldView>::empty()) == Ok::<
            (Seq<EntryView>, DecState),
            AnonLocErr,
        >((seq![], dec_init())));
    } else {
        let prev = xs.drop_last();
        assert(plain_distinct(prev)) by {
            assert forall|i: int| 0 <= i < prev.len() implies plain_path(#[trigger] prev[i].path) by {
                assert(prev[i] == xs[i]);
            }
            assert forall|i: int, j: int| 0 <= i < j < prev.len() implies (#[trigger] prev[i].path)
                != (#[trigger] prev[j].path) by {
                assert(prev[i] == xs[i]);
                assert(prev[j] == xs[j]);
            }
        }
        lemma_dec_enc_from(prev);
        let (fs0, st0) = enc_from(enc_init(), prev, plain_strip_fn()).unwrap();
        let e = xs.last();
        let last = xs.len() - 1;
        assert(e == xs[last]);
        assert(plain_path(e.path));
        assert(e.path != st0.dir) by {
            if st0.dir.len() != 0 {
                let j = choose|j: int| 0 <= j < prev.len() && #[trigger] prev[j].path == st0.dir;
                assert(prev[j] == xs[j]);
                assert(xs[j].path != xs[last].path);
            }
        }
        let (more, st2) = enc_step(st0, e, plain_strip(e.path, st0.dir)).unwrap();
        lemma_dec_enc_step(st0, e);
        lemma_dec_concat(dec_init(), fs0, more);
        assert(prev + seq![e] =~= xs);
        if plain_strip(e.path, st0.dir) is Some {
            lemma_join_plain_strip(e.path, st0.dir);
        }
        match e.kind {
            KindView::Directory => {
                assert(st2.dir == e.path);
                assert(xs[last].path == st2.dir);
            },
            _ => {
                assert(st2.dir == st0.dir);
                if st0.dir.len() != 0 {
                    let j = choose|j: int| 0 <= j < prev.len() && #[trigger] prev[j].path == st0.dir;
                    assert(prev[j] == xs[j]);
                    assert(xs[j].path == st2.dir);
                }
            },
        }
    }
}

/// Decoding the encoding of entries with plain, distinct paths gives the same entries back, in
/// the same order.
pub proof fn lemma_decode_encoded(xs: Seq<EntryView>)
    requires
        plain_distinct(xs),
        encoded(xs, plain_strip_fn()) is Some,
    ensures
        decoded(encoded(xs, plain_strip_fn()).unwrap()) == Ok::<Seq<EntryView>, AnonLocErr>(xs),
{
    lemma_dec_enc_from(xs);
}

// ---------------------------------------------------------------------------------------------
// Sorted entries always encode
// ---------------------------------------------------------------------------------------------

/// The position of the last `/` in a path.
pub open spec fn last_slash(p: Seq<char>) -> Option<int>
    decreases p.len(),
{
    if p.len() == 0 {
        None
    } else if p.last() == '/' {
        Some(p.len() - 1)
    } else {
        last_slash(p.drop_last())
    }
}

/// Every file and symlink not at the root has its directory (the path before its last `/`)
/// listed as a directory entry.
pub open spec fn parents_listed(es: Seq<InstFile>) -> bool {
    forall|i: int|
        #![trigger es[i]]
        0 <= i < es.len() && !is_dir(es[i]) && last_slash(es[i].path@) is Some ==> exists|j: int|
            0 <= j < es.len() && is_dir(es[j]) && #[trigger] es[j].path@ == es[i].path@.take(
                last_slash(es[i].path@).unwrap(),
            )
}

/// The index of the last directory among the first `k` entries.
pub open spec fn last_dir_before(xs: Seq<EntryView>, k: int) -> Option<int>
    decreases k,
{
    if k <= 0 {
        None
    } else if xs[k - 1].kind is Directory {
        Some(k - 1)
    } else {
        last_dir_before(xs, k - 1)
    }
}

proof fn lemma_last_slash(p: Seq<char>)
    ensures
        match last_slash(p) {
            Some(m) => 0 <= m < p.len() && p[m] == '/' && forall|i: int| m < i < p.len() ==> p[i]
                != '/',
            None => !p.contains('/'),
        },
    decreases p.len(),
{
    if p.len() > 0 && p.last() != '/' {
        let q = p.drop_last();
        lemma_last_slash(q);
        match last_slash(q) {
            None => {
                assert forall|i: int| 0 <= i < p.len() implies p[i] != '/' by {
                    if i < p.len() - 1 {
                        assert(q[i] == p[i]);
                        if p[i] == '/' {
                            assert(q.contains('/'));
                        }
                    }
                }
            },
            Some(m) => {
                assert forall|i: int| m < i < p.len() implies p[i] != '/' by {
                    if i < p.len() - 1 {
                        assert(q[i] == p[i]);
                    }
                }
            },
        }
    }
}

proof fn lemma_last_dir_before(xs: Seq<EntryView>, k: int)
    requires
        0 <= k <= xs.len(),
    ensures
        match last_dir_before(xs, k) {
            Some(j) => 0 <= j < k && xs[j].kind is Directory && forall|i: int|
                j < i < k ==> !(#[trigger] xs[i].kind is Directory),
            None => forall|i: int| 0 <= i < k ==> !(#[trigger] xs[i].kind is Directory),
        },
    decreases k,
{
    if k > 0 && !(xs[k - 1].kind is Directory) {
        lemma_last_dir_before(xs, k - 1);
    }
}

/// While encoding entries with plain, distinct paths, the current directory is the path of the
/// last directory entry written, or the root before any.
proof fn lemma_enc_dir_is_last_dir(xs: Seq<EntryView>, k: int)
    requires
        plain_distinct(xs),
        0 <= k <= xs.len(),
        enc_from(enc_init(), xs.take(k), plain_strip_fn()) is Some,
    ensures
        enc_from(enc_init(), xs.take(k), plain_strip_fn()).unwrap().1.dir == match last_dir_before(
            xs,
            k,
        ) {
            Some(j) => xs[j].path,
            None => Seq::<char>::empty(),
        },
    decreases k,
{
    if k > 0 {
        assert(xs.take(k).drop_last() =~= xs.take(k - 1));
        assert(xs.take(k).last() == xs[k - 1]);
        lemma_enc_dir_is_last_dir(xs, k - 1);
        lemma_last_dir_before(xs, k - 1);
        let st = enc_from(enc_init(), xs.take(k - 1), plain_strip_fn()).unwrap().1;
        let e = xs[k - 1];
        assert(plain_path(e.path));
        if e.kind is Directory {
            match last_dir_before(xs, k - 1) {
                Some(j) => {
                    assert(xs[j].path != xs[k - 1].path);
                    assert(plain_path(xs[j].path));
                },
                None => {},
            }
            if plain_strip(e.path, st.dir) is Some {
                lemma_join_plain_strip(e.path, st.dir);
            }
        }
    }
}

/// The components of a plain path are all named: none is empty or `.`.
proof fn lemma_plain_components_named(p: Seq<char>)
    requires
        plain_path(p),
    ensures
        forall|k: int|
            0 <= k < split_on(p, '/').len() ==> named_component(#[trigger] split_on(p, '/')[k]),
    decreases p.len(),
{
    lemma_last_slash(p);
    match last_slash(p) {
        None => {
            lemma_split_no_sep(p, '/');
            assert(p != seq!['.']) by {
                if p == seq!['.'] {
                    assert(p[0] == '.');
                }
            }
        },
        Some(m) => {
            let q = p.take(m);
            let name = p.skip(m + 1);
            assert(p =~= q + seq!['/'] + name);
            assert(!name.contains('/')) by {
                if name.contains('/') {
                    let t = choose|t: int| 0 <= t < name.len() && name[t] == '/';
                    assert(p[m + 1 + t] == '/');
                }
            }
            lemma_split_concat(q, name, '/');
            lemma_split_no_sep(name, '/');
            assert(m > 0);
            assert(m < p.len() - 1);
            assert(p[m - 1] != '/') by {
                assert(p[m] == '/');
            }
            assert(name != seq!['.']) by {
                if name == seq!['.'] {
                    assert(p[m + 1] == '.');
                }
            }
            assert(plain_path(q)) by {
                assert forall|i: int| 0 <= i < q.len() - 1 implies !(#[trigger] q[i] == '/' && q[i
                    + 1] == '/') by {
                    assert(p[i] == q[i] && p[i + 1] == q[i + 1]);
                }
                assert forall|i: int| 0 <= i < q.len() && #[trigger] q[i] == '.' implies !((i == 0
                    || q[i - 1] == '/') && (i == q.len() - 1 || q[i + 1] == '/')) by {
                    assert(p[i] == q[i]);
                    if i > 0 {
                        assert(p[i - 1] == q[i - 1]);
                    }
                    if i < q.len() - 1 {
                        assert(p[i + 1] == q[i + 1]);
                    }
                }
            }
            lemma_plain_components_named(q);
            let cs = split_on(p, '/');
            assert forall|k: int| 0 <= k < cs.len() implies named_component(#[trigger] cs[k]) by {
                if k < split_on(q, '/').len() {
                    assert(cs[k] == split_on(q, '/')[k]);
                }
            }
        },
    }
}

/// Dropping empty and `.` components keeps a list of named components as it is.
proof fn lemma_kept_named(cs: Seq<Seq<char>>)
    requires
        forall|k: int| 0 <= k < cs.len() ==> named_component(#[trigger] cs[k]),
    ensures
        kept_components(cs) == cs,
    decreases cs.len(),
{
    if cs.len() > 0 {
        assert forall|k: int| 0 <= k < cs.drop_last().len() implies named_component(
            #[trigger] cs.drop_last()[k],
        ) by {
            assert(cs.drop_last()[k] == cs[k]);
        }
        lemma_kept_named(cs.drop_last());
        assert(named_component(cs[cs.len() - 1]));
        assert(cs.drop_last().push(cs.last()) =~= cs);
    }
}

/// Two plain paths are the same path only when they are the same text.
pub proof fn lemma_plain_same_path(p: Seq<char>, q: Seq<char>)
    requires
        plain_path(p),
        plain_path(q),
        same_path(p, q),
    ensures
        p == q,
{
    lemma_plain_components_named(p);
    lemma_plain_components_named(q);
    lemma_kept_named(split_on(p, '/'));
    lemma_kept_named(split_on(q, '/'));
    lemma_split_injective(p, q, '/');
}

/// Entries in serialization order (see [sort_entries]) always encode, provided their paths are
/// plain and distinct and every file's directory is listed: each file is then written while its
/// own directory is the current one (or, at the root, before any directory).
pub proof fn lemma_sorted_entries_encode(es: Seq<InstFile>)
    requires
        sorted_entries(es),
        plain_distinct(entries_view(es)),
        parents_listed(es),
    ensures
        encoded(entries_view(es), plain_strip_fn()) is Some,
{
    lemma_sorted_prefix_encodes(es, es.len() as int);
    assert(entries_view(es).take(es.len() as int) =~= entries_view(es));
}

proof fn lemma_sorted_prefix_encodes(es: Seq<InstFile>, k: int)
    requires
        sorted_entries(es),
        plain_distinct(entries_view(es)),
        parents_listed(es),
        0 <= k <= es.len(),
    ensures
        enc_from(enc_init(), entries_view(es).take(k), plain_strip_fn()) is Some,
    decreases k,
{
    let xs = entries_view(es);
    if k > 0 {
        lemma_sorted_prefix_encodes(es, k - 1);
        assert(xs.take(k).drop_last() =~= xs.take(k - 1));
        assert(xs.take(k).last() == xs[k - 1]);
        let st = enc_from(enc_init(), xs.take(k - 1), plain_strip_fn()).unwrap().1;
        lemma_enc_dir_is_last_dir(xs, k - 1);
        lemma_last_dir_before(xs, k - 1);
        let f = es[k - 1];
        let p = f.path@;
        assert(xs[k - 1] == entry_view(f));
        assert(plain_path(xs[k - 1].path));
        assert forall|a: int, b: int| 0 <= a < b < es.len() implies !same_path(
            (#[trigger] es[a]).path@,
            (#[trigger] es[b]).path@,
        ) by {
            assert(xs[a].path == es[a].path@);
            assert(xs[b].path == es[b].path@);
            if same_path(es[a].path@, es[b].path@) {
                lemma_plain_same_path(es[a].path@, es[b].path@);
            }
        }
        if !is_dir(f) {
            lemma_last_slash(p);
            match last_slash(p) {
                None => {
                    match last_dir_before(xs, k - 1) {
                        Some(j) => {
                            assert(xs[j] == entry_view(es[j]));
                            lemma_sorted_everywhere(es, j, k - 1);
                            lemma_root_file_before_dirs(f, es[j]);
                            lemma_entry_order_antisymmetric(f, es[j]);
                        },
                        None => {},
                    }
                    assert(st.dir.len() == 0);
                },
                Some(m) => {
                    let q = p.take(m);
                    let name = p.skip(m + 1);
                    assert(p =~= q + seq!['/'] + name);
                    assert(!name.contains('/')) by {
                        if name.contains('/') {
                            let t = choose|t: int| 0 <= t < name.len() && name[t] == '/';
                            assert(p[m + 1 + t] == '/');
                        }
                    }
                    let jq = choose|j: int|
                        0 <= j < es.len() && is_dir(es[j]) && #[trigger] es[j].path@ == q;
                    let parent = es[jq];
                    assert(jq < k - 1) by {
                        if jq >= k - 1 {
                            assert(jq != k - 1);
                            lemma_sorted_everywhere(es, k - 1, jq);
                            lemma_parent_before_child(parent, f, name);
                            lemma_entry_order_antisymmetric(f, parent);
                        }
                    }
                    assert(xs[jq] == entry_view(es[jq]));
                    assert forall|i: int| jq < i < k - 1 implies !(#[trigger] xs[i].kind is Directory) by {
                        if xs[i].kind is Directory {
                            assert(xs[i] == entry_view(es[i]));
                            lemma_sorted_everywhere(es, jq, i);
                            lemma_sorted_everywhere(es, i, k - 1);
                            lemma_file_before_dirs_after_parent(parent, f, es[i], name);
                            lemma_entry_order_antisymmetric(f, es[i]);
                        }
                    }
                    assert(last_dir_before(xs, k - 1) == Some(jq)) by {
                        match last_dir_before(xs, k - 1) {
                            Some(j) => {
                                if j < jq {
                                    assert(xs[jq].kind is Directory);
                                }
                            },
                            None => {
                                assert(xs[jq].kind is Directory);
                            },
                        }
                    }
                    assert(st.dir == q);
                    assert(p[0] != '/');
                    assert(m > 0);
                    assert(p.take(q.len() as int) =~= q);
                    assert(plain_strip(p, q) is Some);
                },
            }
        }
    }
}

/// Entries in serialization order, with plain, distinct paths and every file's directory
/// listed, encode; and decoding the encoding gives the same entries back, in the same order.
pub proof fn lemma_sorted_manifest_roundtrip(es: Seq<InstFile>)
    requires
        sorted_entries(es),
        plain_distinct(entries_view(es)),
        parents_listed(es),
    ensures
        encoded(entries_view(es), plain_strip_fn()) is Some,
        decoded(encoded(entries_view(es), plain_strip_fn()).unwrap()) == Ok::<
            Seq<EntryView>,
            AnonLocErr,
        >(entries_view(es)),
{
    lemma_sorted_entries_encode(es);
    lemma_decode_encoded(entries_view(es));
}

/// The file name of a package's install record: `<name>@<version>:<arch>.instpkg`.
pub open spec fn instpkg_name(pkgname: Seq<char>, pkgver: Seq<char>, arch: Arch) -> Seq<char> {
    pkgname + "@"@ + pkgver + ":"@ + arch_name(arch) + ".instpkg"@
}

/// Where a package's install record is written: `<dir>/<name>@<version>:<arch>.instpkg`.
pub fn instpkg_path(dir: &str, pkgname: &str, pkgver: &str, arch: Arch) -> (r: String)
    ensures
        r@ == join_path(dir@, instpkg_name(pkgname@, pkgver@, arch)),
{
    let a = concat3(pkgname, "@", pkgver);
    let b = concat3(a.as_str(), ":", arch.as_str());
    let name = concat2(b.as_str(), ".instpkg");
    join_path_exec(dir, name.as_str())
}

} // verus!
