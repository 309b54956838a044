//! Base64 encoding of signatures, delegated to the `base64` crate.
//!
//! bpt uses the standard alphabet without padding (`STANDARD_NO_PAD`).
use base64::Engine;
use vstd::prelude::*;

verus! {

/// What `STANDARD_NO_PAD` decoding of the input yields: the decoded bytes, or `None` where the
/// input is not valid unpadded standard base64.
pub uninterp spec fn base64_decoded(input: Seq<u8>) -> Option<Seq<u8>>;

/// What `STANDARD_NO_PAD` encoding of the input yields, as bytes.
pub uninterp spec fn base64_encoded(input: Seq<u8>) -> Seq<u8>;

/// Whether a byte belongs to the standard base64 alphabet `A-Z a-z 0-9 + /`.
pub open spec fn is_base64_alphabet(b: u8) -> bool {
    (65 <= b <= 90) || (97 <= b <= 122) || (48 <= b <= 57) || b == 43 || b == 47
}

/// Length of the unpadded base64 encoding of `n` bytes.
pub open spec fn base64_encoded_len(n: nat) -> nat {
    4 * (n / 3) + if n % 3 == 0 { 0 } else { n % 3 + 1 }
}

/// Decodes unpadded standard base64 (`base64::engine::general_purpose::STANDARD_NO_PAD`).
///
/// Trusted: the result is the named decoding of the input; the crate returns an error (here
/// `None`) exactly where that decoding is undefined, and never panics.
#[verifier::external_body]
pub fn base64_decode(input: &[u8]) -> (r: Option<Vec<u8>>)
    ensures
        r is Some <==> base64_decoded(input@) is Some,
        r matches Some(v) ==> v@ == base64_decoded(input@).unwrap(),
{
    base64::engine::general_purpose::STANDARD_NO_PAD.decode(input).ok()
}

/// Encodes bytes as unpadded standard base64 (`base64::engine::general_purpose::STANDARD_NO_PAD`).
///
/// Trusted: the result is the named encoding; as the crate documents, it has the unpadded
/// length, uses only the standard alphabet, and decodes back to the input.  The crate panics only
/// when the encoded length overflows `usize`, which the precondition rules out.
#[verifier::external_body]
pub fn base64_encode(input: &[u8]) -> (r: Vec<u8>)
    requires
        input@.len() <= usize::MAX / 2,
    ensures
        r@ == base64_encoded(input@),
        r@.len() == base64_encoded_len(input@.len()),
        forall|i: int| 0 <= i < r@.len() ==> is_base64_alphabet(#[trigger] r@[i]),
        base64_decoded(r@) == Some(input@),
{
    base64::engine::general_purpose::STANDARD_NO_PAD.encode(input).into_bytes()
}

} // verus!
