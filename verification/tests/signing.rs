use bpt::error::AnonLocErr;
use bpt::outcome::signing_needed;
use bpt::sig::{find_signature, signature_block, signature_strip_len, FindSigResult, SIG_LEN_MAX};
use bpt::sigcheck::{signature_box, first_verifying_key, plan_signature_check, PublicKeys, SigCheck};
use minisign::{KeyPair, SignatureBones};
use std::io::Cursor;

fn tail(contents: &[u8]) -> &[u8] {
    let n = contents.len().min(SIG_LEN_MAX as usize);
    &contents[contents.len() - n..]
}

/// Whether a file with these contents needs signing under the keys, as the library decides it,
/// with minisign doing the verification the plan asks for.
fn needs_signing(contents: &[u8], pubkeys: &PublicKeys) -> Result<bool, AnonLocErr> {
    let found = find_signature(tail(contents), contents.len() as u64);
    let verified = match plan_signature_check(&found, pubkeys, false) {
        Err(e) => Err(e),
        Ok(SigCheck::Accept) | Ok(SigCheck::AcceptStripped(_)) => Ok(()),
        Ok(SigCheck::VerifyV1 { sig_size, .. }) => {
            let (FindSigResult::Found(loc), PublicKeys::VerifyWithKeys { v1_keys }) =
                (&found, pubkeys)
            else {
                panic!("a verification plan needs a signature and keys");
            };
            let sig_box = signature_box(loc)?;
            let content = &contents[..contents.len() - sig_size as usize];
            let results: Vec<bool> = v1_keys
                .iter()
                .map(|k| minisign::verify(k, &sig_box, Cursor::new(content), true, false, false).is_ok())
                .collect();
            first_verifying_key(&results).map(|_| ())
        }
    };
    signing_needed(verified)
}

fn keys(kp: &KeyPair) -> PublicKeys {
    PublicKeys::VerifyWithKeys {
        v1_keys: vec![kp.pk.clone()],
    }
}

/// The verification outcome of a file with these contents under the keys.
fn verify(contents: &[u8], pubkeys: &PublicKeys) -> Result<(), AnonLocErr> {
    match needs_signing(contents, pubkeys) {
        Ok(false) => Ok(()),
        Ok(true) => {
            let found = find_signature(tail(contents), contents.len() as u64);
            match plan_signature_check(&found, pubkeys, false) {
                Err(e) => Err(e),
                Ok(_) => Err(AnonLocErr::SigInvalid),
            }
        }
        Err(e) => Err(e),
    }
}

/// The contents without a trailing signature block, corrupt or not.
fn strip(contents: &[u8]) -> Vec<u8> {
    match signature_strip_len(tail(contents), contents.len() as u64) {
        Some(n) => contents[..n as usize].to_vec(),
        None => contents.to_vec(),
    }
}

/// Re-signs contents: any trailing signature block is replaced by one for the rest.
fn resign(contents: &[u8], kp: &KeyPair) -> Vec<u8> {
    sign(&strip(contents), kp)
}

fn sign(contents: &[u8], kp: &KeyPair) -> Vec<u8> {
    let bones: SignatureBones = minisign::sign(None, &kp.sk, Cursor::new(contents), None, None)
        .unwrap()
        .into();
    let mut signed = contents.to_vec();
    signed.extend_from_slice(&signature_block(&bones.to_bytes()));
    signed
}

#[test]
fn needs_signing_true_for_unsigned_file() {
    let kp = KeyPair::generate_unencrypted_keypair().unwrap();
    assert!(needs_signing(b"unsigned", &keys(&kp)).unwrap());
}

#[test]
fn needs_signing_false_for_valid_signature() {
    let kp = KeyPair::generate_unencrypted_keypair().unwrap();
    let signed = sign(b"signed", &kp);
    assert!(!needs_signing(&signed, &keys(&kp)).unwrap());
}

#[test]
fn needs_signing_true_for_invalid_signature() {
    let kp = KeyPair::generate_unencrypted_keypair().unwrap();
    let mut contents = b"invalid".to_vec();
    contents.extend_from_slice(b"\n# bpt-sig-v1:corrupt+signature\n");
    assert!(needs_signing(&contents, &keys(&kp)).unwrap());
}

#[test]
fn signature_by_another_key_calls_for_signing() {
    let signer = KeyPair::generate_unencrypted_keypair().unwrap();
    let other = KeyPair::generate_unencrypted_keypair().unwrap();
    let signed = sign(b"signed by someone else", &signer);
    assert!(needs_signing(&signed, &keys(&other)).unwrap());
}

#[test]
fn signature_over_changed_content_calls_for_signing() {
    let kp = KeyPair::generate_unencrypted_keypair().unwrap();
    let mut signed = sign(b"signed text", &kp);
    signed[0] = b'O';
    assert!(needs_signing(&signed, &keys(&kp)).unwrap());
}

#[test]
fn minisign_public_key_files_are_recognized() {
    let kp = KeyPair::generate_unencrypted_keypair().unwrap();
    let text = kp.pk.to_box().unwrap().to_string();
    assert!(bpt::sigcheck::is_v1_public_key(&text));
    assert!(!bpt::sigcheck::is_v1_public_key("-----BEGIN PUBLIC KEY-----\n"));
    assert!(!bpt::sigcheck::is_v1_public_key("untrusted comment"));
    assert!(bpt::sigcheck::is_v1_public_key("untrusted comment:"));
}

const OLD_SIG: &[u8] = b"\n# bpt-sig-v1:RUSWg+V4uzz1zRLiMvYdSiKjPd86/ZZC8TYnsmwrPsYTr2NUmnG5fN+sHoLg90YU2tNXtYscxROVXgYh+O/L/R4/Z3wZKhjZ8QA\n";

fn holds(haystack: &[u8], needle: &[u8]) -> bool {
    haystack.windows(needle.len()).any(|w| w == needle)
}

#[test]
fn test_sign() {
    let contents = b"Test file contents";
    let kp = KeyPair::generate_unencrypted_keypair().unwrap();
    let signed = resign(contents, &kp);
    assert!(signed.len() > contents.len());
    assert!(signed.starts_with(contents));
    assert!(verify(&signed, &keys(&kp)).is_ok());
}

#[test]
fn test_sign_already_signed() {
    let contents = b"Test file contents";
    let kp = KeyPair::generate_unencrypted_keypair().unwrap();
    let mut file = contents.to_vec();
    file.extend_from_slice(OLD_SIG);
    let signed = resign(&file, &kp);
    assert!(signed.starts_with(contents));
    assert!(!holds(&signed, OLD_SIG));
    assert!(verify(&signed, &keys(&kp)).is_ok());
}

#[test]
fn test_sign_with_corrupt_trailing_sig_block() {
    let contents = b"Test file contents";
    let corrupt_sig = b"\n# bpt-sig-v1:corrupt-signature-block\n";
    let kp = KeyPair::generate_unencrypted_keypair().unwrap();
    let mut file = contents.to_vec();
    file.extend_from_slice(corrupt_sig);
    let signed = resign(&file, &kp);
    assert!(signed.starts_with(contents));
    assert!(!holds(&signed, corrupt_sig));
    assert!(verify(&signed, &keys(&kp)).is_ok());
}

#[test]
fn test_strip_signature() {
    let contents = b"Test file contents";
    let kp = KeyPair::generate_unencrypted_keypair().unwrap();
    let mut file = contents.to_vec();
    file.extend_from_slice(OLD_SIG);
    let stripped = strip(&file);
    assert_eq!(&stripped, contents);
    assert!(!holds(&stripped, OLD_SIG));
    assert!(matches!(verify(&stripped, &keys(&kp)), Err(AnonLocErr::SigMissing)));
}
