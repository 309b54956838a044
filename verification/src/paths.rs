//! Path safety checks and path composition.
//!
//! Paths read from package metadata are relative to a configurable root directory; absolute
//! paths and `..` components are rejected so that crafted metadata cannot reach outside it.
use crate::constant::ROOT_CACHE_DIR;
use crate::error::{AnonLocErr, Error};
use crate::text::{chars_to_string, concat3, nested_view, split_chars, split_on, str_to_chars};
use vstd::prelude::*;

verus! {

/// A path is absolute when it starts with `/`.
pub open spec fn is_absolute(p: Seq<char>) -> bool {
    p.len() > 0 && p[0] == '/'
}

/// The path has a `..` component: one of its `/`-separated pieces is exactly `..`.  (Empty
/// pieces and `.` pieces are not components, and are never `..`.)
pub open spec fn has_parent_dir(p: Seq<char>) -> bool {
    split_on(p, '/').contains(seq!['.', '.'])
}

/// The message for a rejected absolute path.
pub open spec fn absolute_path_message(p: Seq<char>) -> Seq<char> {
    "absolute paths are not allowed: `"@ + p + "`"@
}

/// The message for a rejected `..` component.
pub open spec fn parent_dir_message(p: Seq<char>) -> Seq<char> {
    "`..` components are not allowed: `"@ + p + "`"@
}

/// `path` joined onto `base`: an absolute `path` replaces `base`; otherwise it is appended,
/// with a `/` between them unless `base` is empty or already ends with one.
pub open spec fn join_path(base: Seq<char>, path: Seq<char>) -> Seq<char> {
    if is_absolute(path) {
        path
    } else if base.len() == 0 || base.last() == '/' {
        base + path
    } else {
        base + seq!['/'] + path
    }
}

/// Whether any of the pieces is exactly `..`.
fn any_parent_piece(pieces: &Vec<Vec<char>>) -> (r: bool)
    ensures
        r == nested_view(pieces@).contains(seq!['.', '.']),
{
    let mut i: usize = 0;
    while i < pieces.len()
        invariant
            i <= pieces.len(),
            forall|k: int| 0 <= k < i ==> nested_view(pieces@)[k] != seq!['.', '.'],
        decreases pieces.len() - i,
    {
        let piece = &pieces[i];
        if piece.len() == 2 && piece[0] == '.' && piece[1] == '.' {
            assert(nested_view(pieces@)[i as int] =~= seq!['.', '.']);
            return true;
        }
        assert(nested_view(pieces@)[i as int] != seq!['.', '.']) by {
            if nested_view(pieces@)[i as int] == seq!['.', '.'] {
                assert(piece@ == seq!['.', '.']);
            }
        }
        i = i + 1;
    }
    false
}

/// Whether the path has a `..` component.
pub fn has_parent_dir_exec(path: &str) -> (r: bool)
    ensures
        r == has_parent_dir(path@),
{
    let chars = str_to_chars(path);
    let pieces = split_chars(chars.as_slice(), '/');
    any_parent_piece(&pieces)
}

/// Whether the path starts with `/`.
pub fn is_absolute_exec(path: &str) -> (r: bool)
    ensures
        r == is_absolute(path@),
{
    let chars = str_to_chars(path);
    chars.len() > 0 && chars[0] == '/'
}

/// Validate that a path is relative and contains no `..` components.
///
/// An absolute path is reported as such even when it also has `..` components.
pub fn reject_unsafe_path(path: &str, field_name: &'static str) -> (r: Result<(), AnonLocErr>)
    ensures
        r is Ok <==> !is_absolute(path@) && !has_parent_dir(path@),
        r matches Err(e) ==> (e matches AnonLocErr::FieldInvalid(f, msg) && f == field_name && (
        if is_absolute(path@) {
            msg@ == absolute_path_message(path@)
        } else {
            msg@ == parent_dir_message(path@)
        })),
{
    if is_absolute_exec(path) {
        let msg = concat3("absolute paths are not allowed: `", path, "`");
        return Err(AnonLocErr::FieldInvalid(field_name, msg));
    }
    if has_parent_dir_exec(path) {
        let msg = concat3("`..` components are not allowed: `", path, "`");
        return Err(AnonLocErr::FieldInvalid(field_name, msg));
    }
    Ok(())
}

/// Reject a temporary-directory subpath that could escape the directory: an absolute path, or
/// one with a `..` component.
pub fn reject_traversal(subpath: &str) -> (r: Result<(), Error>)
    ensures
        r is Ok <==> !is_absolute(subpath@) && !has_parent_dir(subpath@),
        r matches Err(e) ==> (e matches Error::PathTraversal(p) && p@ == subpath@),
{
    if is_absolute_exec(subpath) || has_parent_dir_exec(subpath) {
        return Err(Error::PathTraversal(subpath.to_owned()));
    }
    Ok(())
}

/// A path that passes [reject_traversal] also passes [reject_unsafe_path], and the other way
/// round: both accept exactly the relative paths without `..` components.
pub proof fn lemma_traversal_checks_agree(p: Seq<char>)
    ensures
        (!is_absolute(p) && !has_parent_dir(p)) == !(is_absolute(p) || has_parent_dir(p)),
{
}

/// `path` joined onto `base` (`Path::join` on Unix).
pub fn join_path_exec(base: &str, path: &str) -> (r: String)
    ensures
        r@ == join_path(base@, path@),
{
    let mut b = str_to_chars(base);
    let mut p = str_to_chars(path);
    if p.len() > 0 && p[0] == '/' {
        return chars_to_string(p.as_slice());
    }
    if b.len() > 0 && b[b.len() - 1] != '/' {
        b.push('/');
    }
    b.append(&mut p);
    chars_to_string(b.as_slice())
}

/// The directories listed in a `PATH`-style value: the pieces between `:` separators, empty
/// ones included.
pub fn path_list_dirs(value: &str) -> (dirs: Vec<String>)
    ensures
        dirs@.len() == split_on(value@, ':').len(),
        forall|i: int| 0 <= i < dirs@.len() ==> #[trigger] dirs@[i]@ == split_on(value@, ':')[i],
{
    let chars = str_to_chars(value);
    let pieces = split_chars(chars.as_slice(), ':');
    let mut dirs: Vec<String> = Vec::new();
    let mut i: usize = 0;
    while i < pieces.len()
        invariant
            i <= pieces.len(),
            nested_view(pieces@) == split_on(value@, ':'),
            dirs@.len() == i,
            forall|k: int| 0 <= k < i ==> #[trigger] dirs@[k]@ == split_on(value@, ':')[k],
        decreases pieces.len() - i,
    {
        let s = chars_to_string(pieces[i].as_slice());
        assert(s@ == nested_view(pieces@)[i as int]);
        dirs.push(s);
        i = i + 1;
    }
    dirs
}

/// Where an executable named `exe` would be found in each listed directory, in order.
pub fn executable_candidates(exe: &str, dirs: &[String]) -> (r: Vec<String>)
    ensures
        r@.len() == dirs@.len(),
        forall|i: int| 0 <= i < r@.len() ==> #[trigger] r@[i]@ == join_path(dirs@[i]@, exe@),
{
    let mut r: Vec<String> = Vec::new();
    let mut i: usize = 0;
    while i < dirs.len()
        invariant
            i <= dirs.len(),
            r@.len() == i,
            forall|k: int| 0 <= k < i ==> #[trigger] r@[k]@ == join_path(dirs@[k]@, exe@),
        decreases dirs.len() - i,
    {
        r.push(join_path_exec(dirs[i].as_str(), exe));
        i = i + 1;
    }
    r
}

/// A file system entry is an executable when it is a regular file with an execute bit set
/// (for its owner, its group or others).
pub open spec fn executable_entry(is_file: bool, mode: u32) -> bool {
    is_file && (mode & 0o111u32) != 0
}

/// Whether a file system entry of this kind and permission mode is an executable.
pub fn is_executable_entry(is_file: bool, mode: u32) -> (r: bool)
    ensures
        r == executable_entry(is_file, mode),
{
    is_file && (mode & 0o111u32) != 0
}

/// What the file system said of a candidate shows an executable.
pub open spec fn inspected_executable(entry: Option<(bool, u32)>) -> bool {
    match entry {
        Some((is_file, mode)) => executable_entry(is_file, mode),
        None => false,
    }
}

/// Whether any of the candidates is an executable, given what the file system says of each:
/// `None` where it cannot be inspected, else whether it is a regular file, and its mode.
pub fn any_executable(entries: &[Option<(bool, u32)>]) -> (r: bool)
    ensures
        r == exists|i: int| 0 <= i < entries@.len() && inspected_executable(#[trigger] entries@[i]),
{
    let mut i: usize = 0;
    while i < entries.len()
        invariant
            i <= entries.len(),
            forall|k: int| 0 <= k < i ==> !inspected_executable(#[trigger] entries@[k]),
        decreases entries.len() - i,
    {
        match entries[i] {
            Some((is_file, mode)) => {
                if is_executable_entry(is_file, mode) {
                    assert(inspected_executable(entries@[i as int]));
                    return true;
                }
            },
            None => {},
        }
        i = i + 1;
    }
    false
}

/// The directory under which caches are kept: `<root>/var/cache` for root (uid 0); otherwise the
/// user's cache directory, falling back to `<root>/var/cache` when the user has none (the user
/// may still have permission there).
pub fn parent_cache_dir(root: &str, uid: u32, user_cache_dir: Option<String>) -> (r: String)
    ensures
        r@ == (if uid == 0 || user_cache_dir is None {
            join_path(root@, ROOT_CACHE_DIR@)
        } else {
            user_cache_dir.unwrap()@
        }),
{
    if uid == 0 {
        join_path_exec(root, ROOT_CACHE_DIR)
    } else {
        match user_cache_dir {
            Some(dir) => dir,
            None => join_path_exec(root, ROOT_CACHE_DIR),
        }
    }
}

/// The default minisign secret key: `.minisign/minisign.key` in the user's home directory.
pub fn default_priv_key_path(home: &str) -> (r: String)
    ensures
        r@ == join_path(home@, ".minisign/minisign.key"@),
{
    join_path_exec(home, ".minisign/minisign.key")
}

} // verus!
