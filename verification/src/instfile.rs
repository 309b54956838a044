//! Install-manifest entries and the order in which they are serialized.
//!
//! An install manifest lists every path a package installs.  The serializer tracks a current
//! directory, so entries must be emitted depth-first with the files of each directory before its
//! subdirectories.  [cmp_instfile_entries] is the comparator that produces that order.
use crate::text::{
    lemma_split_concat, lemma_split_injective, lemma_split_nonempty, nested_view, split_chars,
    split_on, str_to_chars,
};
use crate::tarball::{kept_components, kept_parts};
use std::cmp::Ordering;
use vstd::prelude::*;

verus! {

/// What kind of filesystem object an entry installs.
pub enum InstFileType {
    Directory,
    /// A regular file with the SHA-256 digest of its contents.
    RegFile([u8; 32]),
    /// A symbolic link with its target.
    Symlink(String),
}

/// One installed filesystem object: ownership, permissions, path relative to the root, and kind.
pub struct InstFile {
    pub mode: u32,
    pub uid: u64,
    pub gid: u64,
    pub path: String,
    pub entry_type: InstFileType,
}

pub open spec fn is_dir(e: InstFile) -> bool {
    e.entry_type is Directory
}

/// Lexicographic order of character sequences by code point (the order of `str::cmp`, since
/// UTF-8 preserves code point order), as -1, 0 or 1.
pub open spec fn char_order(a: Seq<char>, b: Seq<char>) -> int
    decreases a.len(),
{
    if a.len() == 0 {
        if b.len() == 0 { 0 } else { -1 }
    } else if b.len() == 0 {
        1
    } else if (a[0] as u32) < (b[0] as u32) {
        -1
    } else if (a[0] as u32) > (b[0] as u32) {
        1
    } else {
        char_order(a.drop_first(), b.drop_first())
    }
}

/// Rank of component `i` out of `n`: a file or symlink's own (final) component ranks 0, every
/// directory and intermediate component ranks 1.
pub open spec fn rank_at(n: int, i: int, dir: bool) -> int {
    if i == n - 1 && !dir { 0 } else { 1 }
}

/// The sort key of an entry: its path components, each paired with its rank.
pub open spec fn entry_key(path: Seq<char>, dir: bool) -> Seq<(int, Seq<char>)> {
    let cs = split_on(path, '/');
    Seq::new(cs.len(), |i: int| (rank_at(cs.len() as int, i, dir), cs[i]))
}

/// Order of (rank, component) pairs: rank first, then component name.
pub open spec fn pair_order(x: (int, Seq<char>), y: (int, Seq<char>)) -> int {
    if x.0 < y.0 {
        -1
    } else if x.0 > y.0 {
        1
    } else {
        char_order(x.1, y.1)
    }
}

/// Lexicographic order of keys, a proper prefix sorting first.
pub open spec fn key_order(a: Seq<(int, Seq<char>)>, b: Seq<(int, Seq<char>)>) -> int
    decreases a.len(),
{
    if a.len() == 0 {
        if b.len() == 0 { 0 } else { -1 }
    } else if b.len() == 0 {
        1
    } else if pair_order(a[0], b[0]) != 0 {
        pair_order(a[0], b[0])
    } else {
        key_order(a.drop_first(), b.drop_first())
    }
}

/// A path as paths compare: whether it starts at the root, whether it starts with a `.`
/// component, and its other components with the empty and `.` ones dropped.  So `a`, `a/` and
/// `a//./` are one path, while `./a` and `/a` are two others.
pub open spec fn path_components(p: Seq<char>) -> (bool, bool, Seq<Seq<char>>) {
    let cs = split_on(p, '/');
    (p.len() > 0 && p[0] == '/', cs[0] == seq!['.'], kept_components(cs))
}

/// Whether two paths are the same path, component by component.
pub open spec fn same_path(p: Seq<char>, q: Seq<char>) -> bool {
    path_components(p) == path_components(q)
}

/// The order of two entries, as -1 (first sorts earlier), 0 or 1.
///
/// Entries at the same path (see [same_path]) compare directory-first; otherwise their keys
/// decide.
pub open spec fn entry_order(a: InstFile, b: InstFile) -> int {
    if same_path(a.path@, b.path@) {
        if is_dir(a) == is_dir(b) {
            0
        } else if is_dir(a) {
            -1
        } else {
            1
        }
    } else {
        key_order(entry_key(a.path@, is_dir(a)), entry_key(b.path@, is_dir(b)))
    }
}

pub open spec fn ordering_sign(o: Ordering) -> int {
    match o {
        Ordering::Less => -1,
        Ordering::Equal => 0,
        Ordering::Greater => 1,
    }
}

/// Compares two character sequences by code point, as -1, 0 or 1.
fn char_seq_order(a: &[char], b: &[char]) -> (r: i8)
    ensures
        r == char_order(a@, b@),
        -1 <= r <= 1,
{
    let mut i: usize = 0;
    assert(a@.skip(0) =~= a@);
    assert(b@.skip(0) =~= b@);
    while i < a.len() && i < b.len()
        invariant
            i <= a.len(),
            i <= b.len(),
            char_order(a@, b@) == char_order(a@.skip(i as int), b@.skip(i as int)),
        decreases a.len() - i,
    {
        let x = a[i] as u32;
        let y = b[i] as u32;
        assert(a@.skip(i as int)[0] == a@[i as int]);
        assert(b@.skip(i as int)[0] == b@[i as int]);
        if x < y {
            return -1;
        }
        if x > y {
            return 1;
        }
        assert(a@.skip(i as int).drop_first() =~= a@.skip(i as int + 1));
        assert(b@.skip(i as int).drop_first() =~= b@.skip(i as int + 1));
        i = i + 1;
    }
    if i < b.len() {
        -1
    } else if i < a.len() {
        1
    } else {
        0
    }
}


/// Whether two lists of components are equal.
fn parts_equal(a: &Vec<Vec<char>>, b: &Vec<Vec<char>>) -> (r: bool)
    ensures
        r == (nested_view(a@) == nested_view(b@)),
{
    if a.len() != b.len() {
        return false;
    }
    let mut i: usize = 0;
    while i < a.len()
        invariant
            i <= a@.len() == b@.len(),
            forall|j: int| 0 <= j < i ==> a@[j]@ == b@[j]@,
        decreases a@.len() - i,
    {
        let c = char_seq_order(a[i].as_slice(), b[i].as_slice());
        proof {
            lemma_char_order_zero(a@[i as int]@, b@[i as int]@);
        }
        if c != 0 {
            assert(nested_view(a@)[i as int] != nested_view(b@)[i as int]);
            return false;
        }
        i = i + 1;
    }
    assert(nested_view(a@) =~= nested_view(b@));
    true
}

/// The components of a path (see [path_components]).
fn path_parts(p: &String) -> (r: (bool, bool, Vec<Vec<char>>))
    ensures
        path_components(p@) == (r.0, r.1, nested_view(r.2@)),
{
    let chars = str_to_chars(p.as_str());
    let parts = split_chars(chars.as_slice(), '/');
    proof {
        lemma_split_nonempty(p@, '/');
    }
    let root = chars.len() > 0 && chars[0] == '/';
    let first = &parts[0];
    let cur = first.len() == 1 && first[0] == '.';
    assert(cur == (split_on(p@, '/')[0] == seq!['.'])) by {
        assert(nested_view(parts@)[0] == first@);
        if first@.len() == 1 && first@[0] == '.' {
            assert(first@ =~= seq!['.']);
        }
    }
    let kept = kept_parts(&parts);
    (root, cur, kept)
}

/// Whether two paths are the same path (see [same_path]).
pub fn is_same_path(p: &String, q: &String) -> (r: bool)
    ensures
        r == same_path(p@, q@),
{
    let (pr, pc, pk) = path_parts(p);
    let (qr, qc, qk) = path_parts(q);
    pr == qr && pc == qc && parts_equal(&pk, &qk)
}

/// Rank of component `i` of `n` for an entry whose kind is `dir`.
fn component_rank(n: usize, i: usize, dir: bool) -> (r: u8)
    requires
        i < n,
    ensures
        r == rank_at(n as int, i as int, dir),
{
    if i + 1 == n && !dir {
        0
    } else {
        1
    }
}

/// Compares two distinct paths by their keys, as -1, 0 or 1.
fn path_key_order(a_path: &String, a_is_dir: bool, b_path: &String, b_is_dir: bool) -> (r: i8)
    ensures
        r == key_order(entry_key(a_path@, a_is_dir), entry_key(b_path@, b_is_dir)),
        -1 <= r <= 1,
{
    let a_chars = str_to_chars(a_path.as_str());
    let b_chars = str_to_chars(b_path.as_str());
    let a_parts = split_chars(&a_chars, '/');
    let b_parts = split_chars(&b_chars, '/');
    let a_n = a_parts.len();
    let b_n = b_parts.len();
    let ghost ka = entry_key(a_path@, a_is_dir);
    let ghost kb = entry_key(b_path@, b_is_dir);
    assert(ka.skip(0) =~= ka);
    assert(kb.skip(0) =~= kb);
    let mut i: usize = 0;
    while i < a_n && i < b_n
        invariant
            i <= a_n,
            i <= b_n,
            a_n == a_parts@.len(),
            b_n == b_parts@.len(),
            nested_view(a_parts@) == split_on(a_path@, '/'),
            nested_view(b_parts@) == split_on(b_path@, '/'),
            ka == entry_key(a_path@, a_is_dir),
            kb == entry_key(b_path@, b_is_dir),
            key_order(ka, kb) == key_order(ka.skip(i as int), kb.skip(i as int)),
        decreases a_n - i,
    {
        let a_rank = component_rank(a_n, i, a_is_dir);
        let b_rank = component_rank(b_n, i, b_is_dir);
        assert(ka.skip(i as int)[0] == (a_rank as int, a_parts@[i as int]@));
        assert(kb.skip(i as int)[0] == (b_rank as int, b_parts@[i as int]@));
        if a_rank < b_rank {
            return -1;
        }
        if a_rank > b_rank {
            return 1;
        }
        let c = char_seq_order(a_parts[i].as_slice(), b_parts[i].as_slice());
        assert(ka.skip(i as int).len() > 0 && kb.skip(i as int).len() > 0);
        assert(pair_order(ka.skip(i as int)[0], kb.skip(i as int)[0]) == c as int);
        if c < 0 {
            return -1;
        }
        if c > 0 {
            return 1;
        }
        assert(ka.skip(i as int).drop_first() =~= ka.skip(i as int + 1));
        assert(kb.skip(i as int).drop_first() =~= kb.skip(i as int + 1));
        i = i + 1;
    }
    // One path is a prefix of the other; shorter (parent) comes first
    if a_n < b_n {
        -1
    } else if a_n > b_n {
        1
    } else {
        0
    }
}

/// Compare instfile entries for sorting before serialization.
///
/// Produces a depth-first traversal order where files at each directory level sort before
/// subdirectories.  The serializer depends on this: it tracks a directory context and requires
/// that all files in a directory are emitted before descending into subdirectories.
///
/// The comparison walks path components in lockstep, assigning rank 0 to files/symlinks at their
/// final component and rank 1 to directories and intermediate components, and compares
/// (rank, name) at each level; when one path's components are a prefix of the other's, the
/// shorter (the parent) comes first.  Two entries at the same path, compared component by
/// component, compare directory-first.
pub fn cmp_instfile_entries(a: &InstFile, b: &InstFile) -> (o: Ordering)
    ensures
        ordering_sign(o) == entry_order(*a, *b),
{
    let a_is_dir = matches!(a.entry_type, InstFileType::Directory);
    let b_is_dir = matches!(b.entry_type, InstFileType::Directory);
    // Degenerate case: same path, directory sorts first
    if is_same_path(&a.path, &b.path) {
        if a_is_dir == b_is_dir {
            Ordering::Equal
        } else if a_is_dir {
            Ordering::Less
        } else {
            Ordering::Greater
        }
    } else {
        let r = path_key_order(&a.path, a_is_dir, &b.path, b_is_dir);
        if r < 0 {
            Ordering::Less
        } else if r > 0 {
            Ordering::Greater
        } else {
            Ordering::Equal
        }
    }
}

} // verus!

verus! {

proof fn lemma_char_order_antisymmetric(a: Seq<char>, b: Seq<char>)
    ensures
        char_order(a, b) == -char_order(b, a),
        -1 <= char_order(a, b) <= 1,
    decreases a.len(),
{
    if a.len() > 0 && b.len() > 0 {
        lemma_char_order_antisymmetric(a.drop_first(), b.drop_first());
    }
}

proof fn lemma_char_order_zero(a: Seq<char>, b: Seq<char>)
    ensures
        char_order(a, b) == 0 <==> a == b,
    decreases a.len(),
{
    if a.len() > 0 && b.len() > 0 {
        lemma_char_order_zero(a.drop_first(), b.drop_first());
        if (a[0] as u32) == (b[0] as u32) {
            vstd::utf8::char_u32_cast(a[0], a[0] as u32);
            vstd::utf8::char_u32_cast(b[0], b[0] as u32);
            assert(a[0] == b[0]);
            if a.drop_first() == b.drop_first() {
                assert(a =~= seq![a[0]] + a.drop_first());
                assert(b =~= seq![b[0]] + b.drop_first());
            }
        }
        if a == b {
            assert(a.drop_first() == b.drop_first());
        }
    } else if a.len() == 0 && b.len() == 0 {
        assert(a =~= b);
    }
}

proof fn lemma_char_order_transitive(a: Seq<char>, b: Seq<char>, c: Seq<char>)
    requires
        char_order(a, b) == -1,
        char_order(b, c) == -1,
    ensures
        char_order(a, c) == -1,
    decreases a.len(),
{
    if a.len() > 0 && b.len() > 0 && c.len() > 0 {
        if (a[0] as u32) == (b[0] as u32) && (b[0] as u32) == (c[0] as u32) {
            lemma_char_order_transitive(a.drop_first(), b.drop_first(), c.drop_first());
        }
    }
}

proof fn lemma_pair_order_props(x: (int, Seq<char>), y: (int, Seq<char>), z: (int, Seq<char>))
    ensures
        pair_order(x, y) == -pair_order(y, x),
        -1 <= pair_order(x, y) <= 1,
        pair_order(x, y) == 0 <==> x == y,
        pair_order(x, y) == -1 && pair_order(y, z) == -1 ==> pair_order(x, z) == -1,
{
    lemma_char_order_antisymmetric(x.1, y.1);
    lemma_char_order_zero(x.1, y.1);
    if pair_order(x, y) == -1 && pair_order(y, z) == -1 && x.0 == y.0 && y.0 == z.0 {
        lemma_char_order_transitive(x.1, y.1, z.1);
    }
}

proof fn lemma_key_order_antisymmetric(a: Seq<(int, Seq<char>)>, b: Seq<(int, Seq<char>)>)
    ensures
        key_order(a, b) == -key_order(b, a),
        -1 <= key_order(a, b) <= 1,
    decreases a.len(),
{
    if a.len() > 0 && b.len() > 0 {
        lemma_pair_order_props(a[0], b[0], b[0]);
        lemma_key_order_antisymmetric(a.drop_first(), b.drop_first());
    }
}

proof fn lemma_key_order_zero(a: Seq<(int, Seq<char>)>, b: Seq<(int, Seq<char>)>)
    ensures
        key_order(a, b) == 0 <==> a == b,
    decreases a.len(),
{
    if a.len() > 0 && b.len() > 0 {
        lemma_pair_order_props(a[0], b[0], b[0]);
        lemma_key_order_zero(a.drop_first(), b.drop_first());
        if a[0] == b[0] && a.drop_first() == b.drop_first() {
            assert(a =~= seq![a[0]] + a.drop_first());
            assert(b =~= seq![b[0]] + b.drop_first());
        }
        if a == b {
            assert(a.drop_first() == b.drop_first());
        }
    } else if a.len() == 0 && b.len() == 0 {
        assert(a =~= b);
    }
}

proof fn lemma_key_order_transitive(
    a: Seq<(int, Seq<char>)>,
    b: Seq<(int, Seq<char>)>,
    c: Seq<(int, Seq<char>)>,
)
    requires
        key_order(a, b) == -1,
        key_order(b, c) == -1,
    ensures
        key_order(a, c) == -1,
    decreases a.len(),
{
    if a.len() > 0 && b.len() > 0 && c.len() > 0 {
        lemma_pair_order_props(a[0], b[0], c[0]);
        lemma_pair_order_props(b[0], c[0], a[0]);
        lemma_pair_order_props(a[0], c[0], b[0]);
        if pair_order(a[0], b[0]) == 0 && pair_order(b[0], c[0]) == 0 {
            lemma_key_order_transitive(a.drop_first(), b.drop_first(), c.drop_first());
        }
    }
}

/// Two entries whose keys agree are at the same path.
proof fn lemma_entry_key_injective(p: Seq<char>, dp: bool, q: Seq<char>, dq: bool)
    requires
        entry_key(p, dp) == entry_key(q, dq),
    ensures
        p == q,
{
    let sp = split_on(p, '/');
    let sq = split_on(q, '/');
    assert(entry_key(p, dp).len() == sp.len());
    assert(entry_key(q, dq).len() == sq.len());
    assert forall|i: int| 0 <= i < sp.len() implies sp[i] == sq[i] by {
        assert(entry_key(p, dp)[i].1 == sp[i]);
        assert(entry_key(q, dq)[i].1 == sq[i]);
    }
    assert(sp =~= sq);
    lemma_split_injective(p, q, '/');
}


/// Appending a pair of rank 0 to a key keeps it below every all-directory key it was below.
proof fn lemma_key_push_file_pair(a: Seq<(int, Seq<char>)>, b: Seq<(int, Seq<char>)>, x: (int, Seq<char>))
    requires
        forall|i: int| 0 <= i < a.len() ==> (#[trigger] a[i]).0 == 1,
        x.0 == 0,
        key_order(b, a) == -1,
    ensures
        key_order(b.push(x), a) == -1,
    decreases b.len(),
{
    if b.len() == 0 {
        assert(b.push(x) =~= seq![x]);
        assert(a.len() > 0);
        assert(a[0].0 == 1);
        assert(seq![x].drop_first() =~= Seq::<(int, Seq<char>)>::empty());
    } else {
        assert(a.len() > 0);
        assert(b.push(x)[0] == b[0]);
        lemma_pair_order_props(b[0], a[0], a[0]);
        if pair_order(b[0], a[0]) == 0 {
            assert(b.push(x).drop_first() =~= b.drop_first().push(x));
            assert forall|i: int| 0 <= i < a.drop_first().len() implies (
            #[trigger] a.drop_first()[i]).0 == 1 by {
                assert(a.drop_first()[i] == a[i + 1]);
            }
            lemma_key_push_file_pair(a.drop_first(), b.drop_first(), x);
        }
    }
}

/// The key of a directory has rank 1 throughout.
proof fn lemma_dir_key_ranks(p: Seq<char>)
    ensures
        forall|i: int| 0 <= i < entry_key(p, true).len() ==> (#[trigger] entry_key(p, true)[i]).0 == 1,
{
}

/// The key of a file below a directory is the directory's key followed by the file's name at
/// rank 0.
proof fn lemma_file_key_extends_dir_key(q: Seq<char>, name: Seq<char>)
    requires
        !name.contains('/'),
    ensures
        entry_key(q + seq!['/'] + name, false) == entry_key(q, true).push((0, name)),
{
    lemma_split_concat(q, name, '/');
    crate::text::lemma_split_no_sep(name, '/');
    let cq = split_on(q, '/');
    let cf = split_on(q + seq!['/'] + name, '/');
    assert(cf =~= cq.push(name));
    assert(entry_key(q + seq!['/'] + name, false) =~= entry_key(q, true).push((0, name)));
}

/// A file or symlink at the root sorts before every directory.
pub proof fn lemma_root_file_before_dirs(file: InstFile, dir: InstFile)
    requires
        !is_dir(file),
        is_dir(dir),
        !file.path@.contains('/'),
        !same_path(file.path@, dir.path@),
    ensures
        entry_order(file, dir) == -1,
{
    crate::text::lemma_split_no_sep(file.path@, '/');
    lemma_split_nonempty(dir.path@, '/');
    let kf = entry_key(file.path@, false);
    let kd = entry_key(dir.path@, true);
    assert(kf =~= Seq::<(int, Seq<char>)>::empty().push((0, file.path@)));
    assert(key_order(Seq::<(int, Seq<char>)>::empty(), kd) == -1);
    lemma_dir_key_ranks(dir.path@);
    lemma_key_push_file_pair(kd, Seq::<(int, Seq<char>)>::empty(), (0, file.path@));
}

/// A file or symlink directly inside a directory sorts before every directory that sorts after
/// that directory: everything listed between a directory and its own files is one of those
/// files.
pub proof fn lemma_file_before_dirs_after_parent(
    parent: InstFile,
    file: InstFile,
    dir: InstFile,
    name: Seq<char>,
)
    requires
        is_dir(parent),
        is_dir(dir),
        !is_dir(file),
        file.path@ == parent.path@ + seq!['/'] + name,
        !name.contains('/'),
        entry_order(parent, dir) == -1,
        !same_path(file.path@, dir.path@),
    ensures
        entry_order(file, dir) == -1,
{
    let kq = entry_key(parent.path@, true);
    let kd = entry_key(dir.path@, true);
    lemma_file_key_extends_dir_key(parent.path@, name);
    lemma_dir_key_ranks(dir.path@);
    assert(!same_path(parent.path@, dir.path@));
    assert(parent.path@ != dir.path@);
    lemma_key_push_file_pair(kd, kq, (0, name));
}

/// In a sequence whose adjacent entries are in order and whose paths are distinct (compared
/// component by component), every entry sorts strictly before every later one.
pub proof fn lemma_sorted_everywhere(es: Seq<InstFile>, i: int, j: int)
    requires
        forall|k: int| 0 <= k < es.len() - 1 ==> entry_order(#[trigger] es[k], es[k + 1]) <= 0,
        forall|k: int, l: int|
            0 <= k < l < es.len() ==> !same_path((#[trigger] es[k]).path@, (#[trigger] es[l]).path@),
        0 <= i < j < es.len(),
    ensures
        entry_order(es[i], es[j]) == -1,
    decreases j - i,
{
    lemma_entry_order_equal_iff(es[j - 1], es[j]);
    lemma_entry_order_antisymmetric(es[j - 1], es[j]);
    assert(!same_path(es[j - 1].path@, es[j].path@));
    assert(entry_order(es[j - 1], es[j]) <= 0);
    if j == i + 1 {
    } else {
        lemma_sorted_everywhere(es, i, j - 1);
        lemma_entry_order_transitive(es[i], es[j - 1], es[j]);
    }
}

/// Whether `a` sorts strictly before `b`.
pub fn entry_less(a: &InstFile, b: &InstFile) -> (r: bool)
    ensures
        r == (entry_order(*a, *b) == -1),
{
    match cmp_instfile_entries(a, b) {
        Ordering::Less => true,
        Ordering::Equal => false,
        Ordering::Greater => false,
    }
}

/// Swapping the entries negates their order, and the order is always -1, 0 or 1.
pub proof fn lemma_entry_order_antisymmetric(a: InstFile, b: InstFile)
    ensures
        entry_order(a, b) == -entry_order(b, a),
        -1 <= entry_order(a, b) <= 1,
{
    lemma_key_order_antisymmetric(entry_key(a.path@, is_dir(a)), entry_key(b.path@, is_dir(b)));
}

/// Two entries compare equal exactly when they are at the same path and both or neither are
/// directories.
pub proof fn lemma_entry_order_equal_iff(a: InstFile, b: InstFile)
    ensures
        entry_order(a, b) == 0 <==> (same_path(a.path@, b.path@) && is_dir(a) == is_dir(b)),
{
    let ka = entry_key(a.path@, is_dir(a));
    let kb = entry_key(b.path@, is_dir(b));
    lemma_key_order_zero(ka, kb);
    if !same_path(a.path@, b.path@) && ka == kb {
        lemma_entry_key_injective(a.path@, is_dir(a), b.path@, is_dir(b));
    }
}

/// Entries at different paths compare by key alone.
proof fn lemma_entry_order_is_key_order(a: InstFile, b: InstFile)
    requires
        !same_path(a.path@, b.path@),
    ensures
        entry_order(a, b) == key_order(entry_key(a.path@, is_dir(a)), entry_key(b.path@, is_dir(b))),
{
}

/// The order is transitive among entries where no path is held by a directory and a
/// non-directory at once, except that the first may be a directory at the path of the last; and
/// where the first and last are not one path written two ways.
pub proof fn lemma_entry_order_transitive(a: InstFile, b: InstFile, c: InstFile)
    requires
        same_path(a.path@, b.path@) ==> is_dir(a) == is_dir(b),
        same_path(b.path@, c.path@) ==> is_dir(b) == is_dir(c),
        same_path(a.path@, c.path@) ==> (is_dir(a) && !is_dir(c)) || (a.path@ == c.path@
            && is_dir(a) == is_dir(c)),
        entry_order(a, b) == -1,
        entry_order(b, c) == -1,
    ensures
        entry_order(a, c) == -1,
{
    let ka = entry_key(a.path@, is_dir(a));
    let kb = entry_key(b.path@, is_dir(b));
    let kc = entry_key(c.path@, is_dir(c));
    lemma_entry_order_is_key_order(a, b);
    lemma_entry_order_is_key_order(b, c);
    lemma_key_order_transitive(ka, kb, kc);
    lemma_key_order_zero(ka, kc);
    if !same_path(a.path@, c.path@) {
        lemma_entry_order_is_key_order(a, c);
    }
}

/// Keys whose first `k` pairs agree compare as what follows them.
proof fn lemma_key_order_common_prefix(a: Seq<(int, Seq<char>)>, b: Seq<(int, Seq<char>)>, k: int)
    requires
        0 <= k <= a.len(),
        k <= b.len(),
        forall|i: int| 0 <= i < k ==> a[i] == b[i],
    ensures
        key_order(a, b) == key_order(a.skip(k), b.skip(k)),
    decreases k,
{
    if k > 0 {
        lemma_pair_order_props(a[0], b[0], b[0]);
        assert forall|i: int| 0 <= i < k - 1 implies a.drop_first()[i] == b.drop_first()[i] by {
            assert(a[i + 1] == b[i + 1]);
        }
        lemma_key_order_common_prefix(a.drop_first(), b.drop_first(), k - 1);
        assert(a.drop_first().skip(k - 1) =~= a.skip(k));
        assert(b.drop_first().skip(k - 1) =~= b.skip(k));
    } else {
        assert(a.skip(0) =~= a);
        assert(b.skip(0) =~= b);
    }
}

/// A directory sorts before everything beneath it (at another path than its own).
pub proof fn lemma_parent_before_child(parent: InstFile, child: InstFile, rest: Seq<char>)
    requires
        is_dir(parent),
        child.path@ == parent.path@ + seq!['/'] + rest,
        !same_path(parent.path@, child.path@),
    ensures
        entry_order(parent, child) == -1,
{
    let p = parent.path@;
    assert(child.path@.len() > p.len());
    assert(p != child.path@);
    lemma_split_concat(p, rest, '/');
    lemma_split_nonempty(p, '/');
    lemma_split_nonempty(rest, '/');
    let sp = split_on(p, '/');
    let sc = split_on(child.path@, '/');
    let kp = entry_key(p, true);
    let kc = entry_key(child.path@, is_dir(child));
    let k = sp.len() as int;
    assert forall|i: int| 0 <= i < k implies kp[i] == kc[i] by {
        assert(sc[i] == sp[i]);
    }
    lemma_key_order_common_prefix(kp, kc, k);
    assert(kp.skip(k).len() == 0);
    assert(kc.skip(k).len() > 0);
}

/// Within one directory, a file or symlink sorts before any subdirectory and everything beneath
/// it: if the file's components are `dirs` followed by `name`, and the other entry's components
/// are `dirs`, then `sub`, then `more` (where `more` is non-empty unless that entry is itself the
/// directory `sub`), the file comes first.
pub proof fn lemma_files_before_subdirectories(
    file: InstFile,
    other: InstFile,
    dirs: Seq<Seq<char>>,
    name: Seq<char>,
    sub: Seq<char>,
    more: Seq<Seq<char>>,
)
    requires
        !is_dir(file),
        split_on(file.path@, '/') == dirs.push(name),
        split_on(other.path@, '/') == dirs + seq![sub] + more,
        more.len() > 0 || is_dir(other),
        !same_path(file.path@, other.path@),
    ensures
        entry_order(file, other) == -1,
{
    let sf = split_on(file.path@, '/');
    let so = split_on(other.path@, '/');
    let kf = entry_key(file.path@, false);
    let ko = entry_key(other.path@, is_dir(other));
    let k = dirs.len() as int;
    assert forall|i: int| 0 <= i < k implies kf[i] == ko[i] by {
        assert(sf[i] == dirs[i]);
        assert(so[i] == dirs[i]);
    }
    lemma_key_order_common_prefix(kf, ko, k);
    assert(kf.skip(k)[0] == kf[k]);
    assert(ko.skip(k)[0] == ko[k]);
    assert(kf[k].0 == 0);
    assert(ko[k].0 == 1);
}

} // verus!
