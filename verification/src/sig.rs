//! Signature blocks appended to signed files.
//!
//! A signed file ends with a block `"\n# bpt-sig-v1:" <base64 signature> "\n"`.  Discovery reads
//! at most [SIG_LEN_MAX] bytes from the end of the file (the tail) and looks for the last
//! occurrence of the common stem `"\n# bpt-sig-"` in it.
use crate::codec::{
    base64_decode, base64_decoded, base64_encode, base64_encoded, base64_encoded_len,
    is_base64_alphabet,
};
use vstd::prelude::*;

verus! {

/// Maximum signature block size across all supported versions: the v1 prefix (14 bytes), the
/// base64 of a 74-byte minisign signature (99 bytes) and the suffix (1 byte).
pub const SIG_LEN_MAX: u64 = 114;

/// Length of the common stem `"\n# bpt-sig-"`.
pub const SIG_STEM_LEN: usize = 11;

/// Length of the v1 prefix `"\n# bpt-sig-v1:"`.
pub const SIG_V1_PREFIX_LEN: usize = 14;

/// Signature format version.
#[derive(Debug, Clone, Copy, PartialEq, Eq)]
pub enum SigFormat {
    /// v1: minisign Ed25519 (SignatureBones, 74 bytes raw / 99 chars base64)
    V1,
}

/// Location of a signature found within a file's tail region.
pub struct SigLocation {
    /// Total file length
    pub file_len: u64,
    /// File length excluding the signature (i.e. content only)
    pub content_len: u64,
    /// Raw base64 bytes of the signature (not yet decoded)
    pub sig_base64: Vec<u8>,
    /// Which signature format version was found
    pub format: SigFormat,
}

/// Result of searching for a signature in a file's tail.
pub enum FindSigResult {
    /// No signature prefix/suffix structure found at all.
    NotFound,
    /// Signature prefix and suffix found, but the base64 content between them is corrupt.
    Corrupt,
    /// Valid signature structure found.
    Found(SigLocation),
}

/// The common stem of every signature version: `"\n# bpt-sig-"`.
pub open spec fn sig_stem() -> Seq<u8> {
    seq![10u8, 35u8, 32u8, 98u8, 112u8, 116u8, 45u8, 115u8, 105u8, 103u8, 45u8]
}

/// The v1 prefix: `"\n# bpt-sig-v1:"`.
pub open spec fn sig_v1_prefix() -> Seq<u8> {
    sig_stem() + seq![118u8, 49u8, 58u8]
}

/// The suffix ending every signature block: `"\n"`.
pub open spec fn sig_suffix() -> Seq<u8> {
    seq![10u8]
}

/// The stem starts at position `p` of `buf`.
pub open spec fn stem_at(buf: Seq<u8>, p: int) -> bool {
    0 <= p && p + 11 <= buf.len() && buf.subrange(p, p + 11) == sig_stem()
}

/// `p` is the last position of `buf` at which the stem starts.
pub open spec fn last_stem_at(buf: Seq<u8>, p: int) -> bool {
    stem_at(buf, p) && forall|q: int| p < q ==> !stem_at(buf, q)
}

/// The last stem of `buf`, at `p`, opens a well-formed v1 block reaching the end of `buf`: the
/// v1 prefix, then the (possibly empty) base64 text, then the suffix.
pub open spec fn v1_block_at(buf: Seq<u8>, p: int) -> bool {
    &&& last_stem_at(buf, p)
    &&& p + 15 <= buf.len()
    &&& buf.subrange(p, p + 14) == sig_v1_prefix()
    &&& buf[buf.len() - 1] == 10u8
}

/// What signature discovery finds in a tail `buf` of a file of `file_len` bytes: the content
/// length and the base64 text, or nothing.
pub open spec fn located_signature(buf: Seq<u8>, file_len: int) -> Option<(int, Seq<u8>)> {
    if exists|p: int| v1_block_at(buf, p) {
        let p = choose|p: int| v1_block_at(buf, p);
        Some((file_len - (buf.len() - p), buf.subrange(p + 14, buf.len() - 1)))
    } else {
        None
    }
}

/// The v1 signature block for an encoded signature.
pub open spec fn v1_block(sig_base64: Seq<u8>) -> Seq<u8> {
    sig_v1_prefix() + sig_base64 + sig_suffix()
}

/// The last `min(len, SIG_LEN_MAX)` bytes of a file: what discovery reads.
pub open spec fn file_tail(file: Seq<u8>) -> Seq<u8> {
    if file.len() <= 114 {
        file
    } else {
        file.skip(file.len() - 114)
    }
}

proof fn lemma_last_stem_unique(buf: Seq<u8>, p: int, q: int)
    requires
        last_stem_at(buf, p),
        last_stem_at(buf, q),
    ensures
        p == q,
{
}

/// Whether the stem starts at `p`.
fn stem_at_exec(buf: &[u8], p: usize) -> (r: bool)
    requires
        p + 11 <= buf.len(),
    ensures
        r == stem_at(buf@, p as int),
{
    let stem: [u8; 11] = [10, 35, 32, 98, 112, 116, 45, 115, 105, 103, 45];
    assert(stem@ == sig_stem());
    let mut i: usize = 0;
    while i < 11
        invariant
            i <= 11,
            p + 11 <= buf.len(),
            stem@ == sig_stem(),
            forall|j: int| 0 <= j < i ==> buf@[p + j] == stem@[j],
        decreases 11 - i,
    {
        if buf[p + i] != stem[i] {
            assert(buf@.subrange(p as int, p + 11)[i as int] != sig_stem()[i as int]);
            return false;
        }
        i = i + 1;
    }
    assert(buf@.subrange(p as int, p + 11) =~= sig_stem());
    true
}

/// The last position at which the stem starts, if any.
fn last_stem(buf: &[u8]) -> (r: Option<usize>)
    ensures
        r matches Some(p) ==> last_stem_at(buf@, p as int),
        r is None ==> forall|q: int| !stem_at(buf@, q),
{
    if buf.len() < 11 {
        return None;
    }
    let mut q: usize = buf.len() - 10;
    while q > 0
        invariant
            q <= buf@.len() - 10,
            buf@.len() >= 11,
            forall|r: int| q <= r ==> !stem_at(buf@, r),
        decreases q,
    {
        if stem_at_exec(buf, q - 1) {
            return Some(q - 1);
        }
        q = q - 1;
    }
    None
}

/// Whether the v1 prefix starts at `p`.
fn v1_prefix_at(buf: &[u8], p: usize) -> (r: bool)
    requires
        stem_at(buf@, p as int),
        p + 14 <= buf.len(),
    ensures
        r == (buf@.subrange(p as int, p + 14) == sig_v1_prefix()),
{
    let r = buf[p + 11] == 118 && buf[p + 12] == 49 && buf[p + 13] == 58;
    assert(buf@.subrange(p as int, p + 11) == sig_stem());
    if r {
        assert(buf@.subrange(p as int, p + 14) =~= sig_v1_prefix());
    } else {
        proof {
            if buf@.subrange(p as int, p + 14) == sig_v1_prefix() {
                assert(buf@.subrange(p as int, p + 14)[11] == 118u8);
                assert(buf@.subrange(p as int, p + 14)[12] == 49u8);
                assert(buf@.subrange(p as int, p + 14)[13] == 58u8);
            }
        }
    }
    r
}

/// Locate the signature block in the tail `tail` of a file of `file_len` bytes.
///
/// The block must start at the last occurrence of the stem in the tail, carry the v1 version
/// tag, and end the tail with the suffix; anything else (including an unknown version) means no
/// signature was found.
pub fn find_signature_block(tail: &[u8], file_len: u64) -> (r: Option<SigLocation>)
    requires
        tail@.len() <= file_len,
    ensures
        r is None <==> located_signature(tail@, file_len as int) is None,
        r matches Some(loc) ==> {
            &&& located_signature(tail@, file_len as int) == Some(
                (loc.content_len as int, loc.sig_base64@),
            )
            &&& loc.file_len == file_len
            &&& loc.format == SigFormat::V1
        },
{
    let len = tail.len();
    // Minimum: stem + version_tag + ":" + 1 base64 byte + suffix
    if len < 15 {
        assert(forall|p: int| !v1_block_at(tail@, p));
        return None;
    }
    let stem_start = match last_stem(tail) {
        Some(p) => p,
        None => {
            assert(forall|p: int| !v1_block_at(tail@, p));
            return None;
        },
    };
    if tail[len - 1] != 10 || len - stem_start < 15 || !v1_prefix_at(tail, stem_start) {
        assert forall|p: int| !v1_block_at(tail@, p) by {
            if v1_block_at(tail@, p) {
                lemma_last_stem_unique(tail@, p, stem_start as int);
            }
        }
        return None;
    }
    assert(v1_block_at(tail@, stem_start as int));
    proof {
        let p = choose|p: int| v1_block_at(tail@, p);
        lemma_last_stem_unique(tail@, p, stem_start as int);
    }
    let sig_base64 = vstd::slice::slice_to_vec(vstd::slice::slice_subrange(tail, stem_start + 14, len - 1));
    let sig_size = (len - stem_start) as u64;
    Some(SigLocation {
        file_len,
        content_len: file_len - sig_size,
        sig_base64,
        format: SigFormat::V1,
    })
}


/// Search a file's tail for a signature and check that its base64 text decodes.
pub fn find_signature(tail: &[u8], file_len: u64) -> (r: FindSigResult)
    requires
        tail@.len() <= file_len,
    ensures
        r is NotFound <==> located_signature(tail@, file_len as int) is None,
        r is Corrupt <==> (located_signature(tail@, file_len as int) matches Some(l)
            && base64_decoded(l.1) is None),
        r matches FindSigResult::Found(loc) ==> {
            &&& located_signature(tail@, file_len as int) == Some(
                (loc.content_len as int, loc.sig_base64@),
            )
            &&& base64_decoded(loc.sig_base64@) is Some
            &&& loc.file_len == file_len
            &&& loc.format == SigFormat::V1
        },
{
    let sig_loc = match find_signature_block(tail, file_len) {
        Some(loc) => loc,
        None => return FindSigResult::NotFound,
    };
    if base64_decode(sig_loc.sig_base64.as_slice()).is_none() {
        return FindSigResult::Corrupt;
    }
    FindSigResult::Found(sig_loc)
}

/// The length a signed file is truncated to when its trailing signature is stripped, or `None`
/// when there is nothing to strip.
///
/// A trailing signature-shaped block is stripped even when its base64 text is corrupt, so stale
/// or malformed trailers are removed before a new signature is appended.
pub fn signature_strip_len(tail: &[u8], file_len: u64) -> (r: Option<u64>)
    requires
        tail@.len() <= file_len,
    ensures
        r is None <==> located_signature(tail@, file_len as int) is None,
        r matches Some(n) ==> located_signature(tail@, file_len as int).unwrap().0 == n,
{
    match find_signature(tail, file_len) {
        FindSigResult::Found(loc) => Some(loc.content_len),
        FindSigResult::Corrupt => match find_signature_block(tail, file_len) {
            Some(loc) => Some(loc.content_len),
            None => None,
        },
        FindSigResult::NotFound => None,
    }
}

/// The v1 signature block for raw signature bytes: the v1 prefix, the unpadded base64 of the
/// signature, and the suffix.
///
/// What signing appends is what verification finds: for a signature of at most 74 bytes (the
/// size of a minisign signature), a file made of any content followed by this block has its
/// signature located at the end of exactly that content, with text that decodes back to the
/// signature.
pub fn signature_block(sig: &[u8]) -> (r: Vec<u8>)
    requires
        sig@.len() <= usize::MAX / 2,
    ensures
        r@ == v1_block(base64_encoded(sig@)),
        base64_encoded(sig@).len() == base64_encoded_len(sig@.len()),
        forall|i: int|
            0 <= i < base64_encoded(sig@).len() ==> is_base64_alphabet(
                #[trigger] base64_encoded(sig@)[i],
            ),
        base64_decoded(base64_encoded(sig@)) == Some(sig@),
        sig@.len() <= 74 ==> forall|content: Seq<u8>|
            #[trigger] located_signature(file_tail(content + r@), (content + r@).len() as int)
                == Some((content.len() as int, base64_encoded(sig@))),
{
    let encoded = base64_encode(sig);
    let mut r: Vec<u8> = vec![10, 35, 32, 98, 112, 116, 45, 115, 105, 103, 45, 118, 49, 58];
    assert(r@ =~= sig_v1_prefix());
    let mut i: usize = 0;
    while i < encoded.len()
        invariant
            i <= encoded@.len(),
            r@ == sig_v1_prefix() + encoded@.take(i as int),
        decreases encoded.len() - i,
    {
        r.push(encoded[i]);
        i = i + 1;
        assert(r@ =~= sig_v1_prefix() + encoded@.take(i as int));
    }
    r.push(10);
    assert(encoded@.take(encoded@.len() as int) =~= encoded@);
    assert(r@ =~= v1_block(base64_encoded(sig@)));
    if sig.len() <= 74 {
        assert(base64_encoded(sig@).len() <= 99);
        assert forall|content: Seq<u8>|
            #[trigger] located_signature(file_tail(content + r@), (content + r@).len() as int)
                == Some((content.len() as int, base64_encoded(sig@))) by {
            lemma_signature_found_after_append(content, base64_encoded(sig@));
        }
    }
    r
}

/// A buffer ending with a well-formed block locates that block.
proof fn lemma_block_suffix_located(buf: Seq<u8>, p: int, sig_base64: Seq<u8>, file_len: int)
    requires
        0 <= p <= buf.len(),
        buf.subrange(p, buf.len() as int) == v1_block(sig_base64),
        forall|i: int| 0 <= i < sig_base64.len() ==> is_base64_alphabet(#[trigger] sig_base64[i]),
    ensures
        v1_block_at(buf, p),
        located_signature(buf, file_len) == Some((file_len - (buf.len() - p), sig_base64)),
{
    let block = v1_block(sig_base64);
    let l = buf.len() as int;
    let b = block.len() as int;
    assert(p + b == l);
    assert forall|i: int| 0 <= i < b implies buf[p + i] == block[i] by {
        assert(buf.subrange(p, l)[i] == buf[p + i]);
    }
    assert(buf.subrange(p, p + 11) =~= sig_stem()) by {
        assert forall|i: int| 0 <= i < 11 implies buf.subrange(p, p + 11)[i] == sig_stem()[i] by {
            assert(buf[p + i] == block[i]);
        }
    }
    assert(buf.subrange(p, p + 14) =~= sig_v1_prefix()) by {
        assert forall|i: int| 0 <= i < 14 implies buf.subrange(p, p + 14)[i] == sig_v1_prefix()[i] by {
            assert(buf[p + i] == block[i]);
        }
    }
    assert forall|q: int| p < q implies !stem_at(buf, q) by {
        if stem_at(buf, q) {
            assert(buf.subrange(q, q + 11)[0] == 10u8);
            let k = q - p;
            assert(buf[q] == block[k]);
            if k < 14 {
                assert(block[k] == sig_v1_prefix()[k]);
            } else {
                assert(block[k] == sig_base64[k - 14]);
                assert(is_base64_alphabet(sig_base64[k - 14]));
            }
        }
    }
    assert(buf[l - 1] == block[b - 1]);
    assert(v1_block_at(buf, p));
    let chosen = choose|q: int| v1_block_at(buf, q);
    lemma_last_stem_unique(buf, chosen, p);
    assert(buf.subrange(p + 14, l - 1) =~= sig_base64) by {
        assert forall|i: int| 0 <= i < sig_base64.len() implies buf.subrange(p + 14, l - 1)[i]
            == sig_base64[i] by {
            assert(buf[p + 14 + i] == block[14 + i]);
        }
    }
}

/// The tail of a file still ends with any suffix of at most 114 bytes.
proof fn lemma_tail_keeps_suffix(content: Seq<u8>, block: Seq<u8>)
    requires
        block.len() <= 114,
    ensures
        file_tail(content + block).len() >= block.len(),
        file_tail(content + block).subrange(
            file_tail(content + block).len() - block.len(),
            file_tail(content + block).len() as int,
        ) == block,
{
    let file = content + block;
    let n = file.len() as int;
    let tail = file_tail(file);
    let l = tail.len() as int;
    let b = block.len() as int;
    let p = l - b;
    assert forall|i: int| 0 <= i < b implies tail.subrange(p, l)[i] == block[i] by {
        if n <= 114 {
            assert(tail[p + i] == file[p + i]);
        } else {
            assert(tail[p + i] == file[n - 114 + p + i]);
        }
        assert(file[content.len() + i] == block[i]);
    }
    assert(tail.subrange(p, l) =~= block);
}

/// A block appended after any content is found again from the file's tail, as long as its base64
/// text fits the block size bound and uses only the base64 alphabet: discovery reports the
/// length of the content before the block and the same base64 text.
pub proof fn lemma_signature_found_after_append(content: Seq<u8>, sig_base64: Seq<u8>)
    requires
        sig_base64.len() <= 99,
        forall|i: int| 0 <= i < sig_base64.len() ==> is_base64_alphabet(#[trigger] sig_base64[i]),
    ensures
        located_signature(
            file_tail(content + v1_block(sig_base64)),
            (content + v1_block(sig_base64)).len() as int,
        ) == Some((content.len() as int, sig_base64)),
{
    let block = v1_block(sig_base64);
    let file = content + block;
    lemma_tail_keeps_suffix(content, block);
    let tail = file_tail(file);
    let p = tail.len() - block.len();
    lemma_block_suffix_located(tail, p, sig_base64, file.len() as int);
}

/// What signature discovery finds in a whole file: its content length and base64 text, or
/// nothing (discovery reads only the file's tail).
pub open spec fn file_signature(file: Seq<u8>) -> Option<(int, Seq<u8>)> {
    located_signature(file_tail(file), file.len() as int)
}

/// A file shorter than a minimal block (15 bytes), or not ending in a line break, has no
/// signature.
pub proof fn lemma_file_signature_needs_block(file: Seq<u8>)
    ensures
        file.len() < 15 ==> file_signature(file) is None,
        file.len() > 0 && file[file.len() - 1] != 10u8 ==> file_signature(file) is None,
{
    let t = file_tail(file);
    if file.len() > 114 {
        assert(t[t.len() - 1] == file[file.len() - 1]);
    }
}

/// Searches a whole file for its signature (reading only its tail, as discovery does): not
/// found, corrupt (the block's text is not base64), or found with the content length and text.
pub fn find_file_signature(file: &[u8]) -> (r: FindSigResult)
    ensures
        r is NotFound <==> file_signature(file@) is None,
        r is Corrupt <==> (file_signature(file@) matches Some(l) && base64_decoded(l.1) is None),
        r matches FindSigResult::Found(loc) ==> {
            &&& file_signature(file@) == Some((loc.content_len as int, loc.sig_base64@))
            &&& base64_decoded(loc.sig_base64@) is Some
            &&& loc.file_len == file@.len()
        },
{
    let n = file.len();
    let start = if n <= 114 { 0 } else { n - 114 };
    let tail = vstd::slice::slice_subrange(file, start, n);
    assert(tail@ =~= file_tail(file@));
    find_signature(tail, n as u64)
}

} // verus!
