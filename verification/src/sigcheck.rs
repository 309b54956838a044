//! Deciding how a signed file is checked.
//!
//! A file's signature is located first (see [crate::sig]); what follows depends on what was found
//! and on the configured public keys.  Verification itself is done by `minisign` on the file's
//! contents, by the caller, following the plan decided here.
use crate::codec::{base64_decode, base64_decoded};
use crate::error::AnonLocErr;
use crate::sig::{FindSigResult, SigFormat, SigLocation};
use crate::text::str_to_chars;
use vstd::prelude::*;

verus! {

/// A minisign public key.
#[verifier::external_type_specification]
#[verifier::external_body]
pub struct ExMinisignPublicKey(minisign::PublicKey);

/// A parsed minisign signature, ready for verification.
#[verifier::external_type_specification]
#[verifier::external_body]
pub struct ExMinisignSignatureBox(minisign::SignatureBox);

/// Public keys used to verify signed files.
pub enum PublicKeys {
    /// Verification is skipped: files are accepted whether signed or not.
    SkipVerify,
    /// Files must carry a signature made by one of these keys.
    VerifyWithKeys {
        /// v1 (minisign Ed25519) public keys
        v1_keys: Vec<minisign::PublicKey>,
    },
}

/// How a file is to be checked.
pub enum SigCheck {
    /// Accept the file whole, from its start.
    Accept,
    /// Accept the file without verifying it, with its trailing signature of this many bytes cut
    /// off.
    AcceptStripped(u64),
    /// Verify the v1 signature, whose block is `sig_size` bytes long, against every key in turn
    /// over the content before it; on success keep the signature hidden when `strip`, else show
    /// the whole file again.
    VerifyV1 { sig_size: u64, strip: bool },
}

/// What was found at the end of a file, without the signature's text.
pub enum FoundKind {
    NotFound,
    Corrupt,
    Found(u64),
}

/// The kind of the check, as a number of keys (`None` when verification is skipped).
pub open spec fn plan_for(found: FoundKind, keys: Option<nat>, strip: bool) -> Result<
    SigCheck,
    AnonLocErr,
> {
    match found {
        FoundKind::Corrupt => Err(AnonLocErr::SigCorrupt),
        FoundKind::NotFound => match keys {
            None => Ok(SigCheck::Accept),
            Some(_) => Err(AnonLocErr::SigMissing),
        },
        FoundKind::Found(sig_size) => match keys {
            None => if strip {
                Ok(SigCheck::AcceptStripped(sig_size))
            } else {
                Ok(SigCheck::Accept)
            },
            Some(n) => if n == 0 {
                Err(AnonLocErr::NoPublicKeys)
            } else {
                Ok(SigCheck::VerifyV1 { sig_size, strip })
            },
        },
    }
}

/// What was found, with a found signature's block size.
pub open spec fn found_kind(found: FindSigResult) -> FoundKind {
    match found {
        FindSigResult::NotFound => FoundKind::NotFound,
        FindSigResult::Corrupt => FoundKind::Corrupt,
        FindSigResult::Found(loc) => FoundKind::Found((loc.file_len - loc.content_len) as u64),
    }
}

/// The keys configured: `None` when verification is skipped, else how many.
pub open spec fn key_count(keys: &PublicKeys) -> Option<nat> {
    match keys {
        PublicKeys::SkipVerify => None,
        PublicKeys::VerifyWithKeys { v1_keys } => Some(v1_keys@.len()),
    }
}

/// Decides how a file is checked, from what was found at its end, the configured keys, and
/// whether the signature is to be hidden from the caller afterwards:
///
/// - a corrupt signature is an error, even when verification is skipped;
/// - without a signature the file is accepted only when verification is skipped;
/// - with a signature and verification skipped the file is accepted, its signature hidden when
///   asked for;
/// - otherwise at least one key is needed, and the signature is verified.
pub fn plan_signature_check(found: &FindSigResult, keys: &PublicKeys, strip: bool) -> (r: Result<
    SigCheck,
    AnonLocErr,
>)
    requires
        found matches FindSigResult::Found(loc) ==> loc.content_len <= loc.file_len,
    ensures
        r == plan_for(found_kind(*found), key_count(keys), strip),
{
    match found {
        FindSigResult::Corrupt => Err(AnonLocErr::SigCorrupt),
        FindSigResult::NotFound => match keys {
            PublicKeys::SkipVerify => Ok(SigCheck::Accept),
            PublicKeys::VerifyWithKeys { .. } => Err(AnonLocErr::SigMissing),
        },
        FindSigResult::Found(loc) => {
            let sig_size = loc.file_len - loc.content_len;
            match keys {
                PublicKeys::SkipVerify => {
                    if strip {
                        Ok(SigCheck::AcceptStripped(sig_size))
                    } else {
                        Ok(SigCheck::Accept)
                    }
                },
                PublicKeys::VerifyWithKeys { v1_keys } => {
                    if v1_keys.len() == 0 {
                        Err(AnonLocErr::NoPublicKeys)
                    } else {
                        match loc.format {
                            SigFormat::V1 => Ok(SigCheck::VerifyV1 { sig_size, strip }),
                        }
                    }
                },
            }
        },
    }
}

/// When keys are configured, a file is never accepted unchecked: every successful plan
/// verifies a signature.  Only skipping verification accepts files as they are.
pub proof fn lemma_keys_force_verification(found: FoundKind, n: nat, strip: bool)
    ensures
        plan_for(found, Some(n), strip) is Ok ==> plan_for(found, Some(n), strip).unwrap() is VerifyV1,
        plan_for(found, Some(n), strip) is Ok ==> found is Found && n > 0,
{
}

/// A corrupt signature is rejected whatever the keys.
pub proof fn lemma_corrupt_always_rejected(keys: Option<nat>, strip: bool)
    ensures
        plan_for(FoundKind::Corrupt, keys, strip) == Err::<SigCheck, AnonLocErr>(
            AnonLocErr::SigCorrupt,
        ),
{
}

/// The raw bytes of a located signature; text that is not valid base64 is a corrupt signature.
pub fn decode_signature(loc: &SigLocation) -> (r: Result<Vec<u8>, AnonLocErr>)
    ensures
        match base64_decoded(loc.sig_base64@) {
            Some(bytes) => r matches Ok(v) && v@ == bytes,
            None => r matches Err(AnonLocErr::SigCorrupt),
        },
{
    match base64_decode(loc.sig_base64.as_slice()) {
        Some(v) => Ok(v),
        None => Err(AnonLocErr::SigCorrupt),
    }
}

/// Whether raw signature bytes are a minisign signature: at least the algorithm (two bytes),
/// the key id (eight bytes) and the Ed25519 signature (sixty-four bytes), the algorithm being
/// `Ed` (plain) or `ED` (pre-hashed).  Bytes after those are not read.
pub open spec fn is_minisign_signature(raw: Seq<u8>) -> bool {
    &&& raw.len() >= 74
    &&& raw[0] == 0x45u8
    &&& (raw[1] == 0x64u8 || raw[1] == 0x44u8)
}

/// Parses raw signature bytes with `minisign::SignatureBones::from_bytes`, turned into the
/// `SignatureBox` that `minisign::verify` takes.
///
/// Trusted: `from_bytes` reads the algorithm, key id and signature in that order and fails when
/// the bytes run out or the algorithm is neither `Ed` nor `ED`; it never panics.  What the
/// resulting box holds is not stated: it only carries the signature on to `minisign::verify`.
#[verifier::external_body]
fn signature_box_from_bytes(raw: &[u8]) -> (r: Option<minisign::SignatureBox>)
    ensures
        r is Some <==> is_minisign_signature(raw@),
{
    match minisign::SignatureBones::from_bytes(raw) {
        Ok(bones) => Some(minisign::SignatureBox::from(bones)),
        Err(_) => None,
    }
}

/// The minisign signature of a located signature block.  The block's text must be valid base64
/// whose bytes are a minisign signature; anything else is a corrupt signature.
pub fn signature_box(loc: &SigLocation) -> (r: Result<minisign::SignatureBox, AnonLocErr>)
    ensures
        r is Ok <==> (base64_decoded(loc.sig_base64@) matches Some(raw) && is_minisign_signature(
            raw,
        )),
        r matches Err(e) ==> e == AnonLocErr::SigCorrupt,
{
    let raw = decode_signature(loc)?;
    match signature_box_from_bytes(raw.as_slice()) {
        Some(b) => Ok(b),
        None => Err(AnonLocErr::SigCorrupt),
    }
}

/// The outcome of trying the keys in turn: the index of the first key that verified the
/// signature, or `SigInvalid` when none did.
pub fn first_verifying_key(results: &[bool]) -> (r: Result<usize, AnonLocErr>)
    ensures
        match r {
            Ok(i) => i < results@.len() && results@[i as int] && forall|j: int|
                0 <= j < i ==> !results@[j],
            Err(e) => e == AnonLocErr::SigInvalid && forall|j: int|
                0 <= j < results@.len() ==> !results@[j],
        },
{
    let mut i: usize = 0;
    while i < results.len()
        invariant
            i <= results@.len(),
            forall|j: int| 0 <= j < i ==> !results@[j],
        decreases results@.len() - i,
    {
        if results[i] {
            return Ok(i);
        }
        i = i + 1;
    }
    Err(AnonLocErr::SigInvalid)
}

/// The text a minisign public key file begins with.
pub open spec fn minisign_key_marker() -> Seq<char> {
    "untrusted comment:"@
}

/// Whether a public key file's text is a v1 (minisign) key: it begins with
/// `untrusted comment:`.  A key file in any other format is not recognized.
pub fn is_v1_public_key(content: &str) -> (r: bool)
    ensures
        r == (content@.len() >= minisign_key_marker().len() && content@.take(
            minisign_key_marker().len() as int,
        ) == minisign_key_marker()),
{
    let marker = str_to_chars("untrusted comment:");
    let chars = str_to_chars(content);
    if chars.len() < marker.len() {
        return false;
    }
    let mut i: usize = 0;
    while i < marker.len()
        invariant
            i <= marker@.len() <= chars@.len(),
            marker@ == minisign_key_marker(),
            chars@ == content@,
            forall|j: int| 0 <= j < i ==> chars@[j] == marker@[j],
        decreases marker@.len() - i,
    {
        if chars[i] != marker[i] {
            assert(content@.take(marker@.len() as int)[i as int] != marker@[i as int]);
            return false;
        }
        i = i + 1;
    }
    assert(content@.take(marker@.len() as int) =~= marker@);
    true
}

} // verus!
