use bpt::sig::find_file_signature;
use bpt::window::{BoundedWindow, SeekOrigin};
use bpt::sig::{
    find_signature, find_signature_block, signature_block, signature_strip_len, FindSigResult,
    SigFormat, SIG_LEN_MAX,
};

// A valid base64-encoded minisign signature
const VALID_SIG_B64: &str = "RUSWg+V4uzz1zRLiMvYdSiKjPd86/ZZC8TYnsmwrPsYTr2NUmnG5fN+sHoLg90YU2tNXtYscxROVXgYh+O/L/R4/Z3wZKhjZ8QA";
const SIG_V1_PREFIX: &str = "\n# bpt-sig-v1:";
const SIG_SUFFIX: &str = "\n";

/// The tail a signature search reads: the last (at most) `SIG_LEN_MAX` bytes.
fn tail(contents: &[u8]) -> &[u8] {
    let n = contents.len().min(SIG_LEN_MAX as usize);
    &contents[contents.len() - n..]
}

fn signed(body: &[u8], sig_b64: &str) -> Vec<u8> {
    let mut contents = body.to_vec();
    contents.extend_from_slice(SIG_V1_PREFIX.as_bytes());
    contents.extend_from_slice(sig_b64.as_bytes());
    contents.extend_from_slice(SIG_SUFFIX.as_bytes());
    contents
}

fn block(contents: &[u8]) -> Option<bpt::sig::SigLocation> {
    find_signature_block(tail(contents), contents.len() as u64)
}

fn search(contents: &[u8]) -> FindSigResult {
    find_signature(tail(contents), contents.len() as u64)
}

#[test]
fn test_find_signature_block_found() {
    let body = b"file content";
    let contents = signed(body, VALID_SIG_B64);

    let loc = block(&contents).expect("expected Some(SigLocation)");

    assert_eq!(loc.content_len, body.len() as u64);
    assert_eq!(loc.sig_base64, VALID_SIG_B64.as_bytes());
    let expected_len = body.len() + SIG_V1_PREFIX.len() + VALID_SIG_B64.len() + SIG_SUFFIX.len();
    assert_eq!(loc.file_len, expected_len as u64);
    assert_eq!(loc.format, SigFormat::V1);
}

#[test]
fn test_find_signature_block_no_prefix() {
    assert!(block(b"just some plain content").is_none());
}

#[test]
fn test_find_signature_block_no_suffix() {
    let mut contents = b"body".to_vec();
    contents.extend_from_slice(SIG_V1_PREFIX.as_bytes());
    contents.extend_from_slice(b"c29tZWJhc2U2NA");
    assert!(block(&contents).is_none());
}

#[test]
fn test_find_signature_block_empty_file() {
    assert!(block(b"").is_none());
}

#[test]
fn test_find_signature_block_file_too_short() {
    assert!(block(b"x").is_none());
}

#[test]
fn test_find_signature_block_content_len_excludes_sig() {
    let body = b"0123456789";
    let contents = signed(body, VALID_SIG_B64);

    let loc = block(&contents).unwrap();
    assert_eq!(loc.content_len, 10);
    assert_eq!(
        loc.file_len - loc.content_len,
        (SIG_V1_PREFIX.len() + VALID_SIG_B64.len() + SIG_SUFFIX.len()) as u64
    );
}

#[test]
fn test_find_signature_valid() {
    let contents = signed(b"content", VALID_SIG_B64);
    match search(&contents) {
        FindSigResult::Found(loc) => {
            assert_eq!(loc.content_len, 7);
            assert_eq!(loc.sig_base64, VALID_SIG_B64.as_bytes());
        }
        _other => panic!("expected Found, got NotFound/Corrupt"),
    }
}

#[test]
fn test_find_signature_corrupt_base64() {
    let contents = signed(b"content", "!!!not-valid-base64!!!");
    assert!(matches!(search(&contents), FindSigResult::Corrupt));
}

#[test]
fn test_find_signature_not_found() {
    assert!(matches!(search(b"no signature here"), FindSigResult::NotFound));
}

#[test]
fn test_find_signature_not_found_empty() {
    assert!(matches!(search(b""), FindSigResult::NotFound));
}

#[test]
fn test_find_signature_prefix_only_no_suffix() {
    let mut contents = b"body".to_vec();
    contents.extend_from_slice(SIG_V1_PREFIX.as_bytes());
    contents.extend_from_slice(VALID_SIG_B64.as_bytes());
    assert!(matches!(search(&contents), FindSigResult::NotFound));
}

#[test]
fn test_find_signature_called_twice_is_idempotent() {
    let contents = signed(b"content", VALID_SIG_B64);
    let first = match search(&contents) {
        FindSigResult::Found(loc) => loc.content_len,
        _ => panic!("expected Found"),
    };
    let second = match search(&contents) {
        FindSigResult::Found(loc) => loc.content_len,
        _ => panic!("expected Found"),
    };
    assert_eq!(first, second);
}

#[test]
fn test_find_signature_body_containing_prefix_substring() {
    let mut body = b"some content with ".to_vec();
    body.extend_from_slice(&SIG_V1_PREFIX.as_bytes()[..5]);
    body.extend_from_slice(b" more content");
    let contents = signed(&body, VALID_SIG_B64);

    match search(&contents) {
        FindSigResult::Found(loc) => {
            assert_eq!(loc.content_len, body.len() as u64);
        }
        _ => panic!("expected Found"),
    }
}

#[test]
fn unknown_signature_versions_are_not_signatures() {
    let mut contents = b"body".to_vec();
    contents.extend_from_slice(b"\n# bpt-sig-v2:QUJD\n");
    assert!(matches!(search(&contents), FindSigResult::NotFound));
}

#[test]
fn stripping_removes_valid_and_corrupt_trailers() {
    let contents = signed(b"content", VALID_SIG_B64);
    assert_eq!(signature_strip_len(tail(&contents), contents.len() as u64), Some(7));
    let corrupt = signed(b"content!", "!!!");
    assert_eq!(signature_strip_len(tail(&corrupt), corrupt.len() as u64), Some(8));
    assert_eq!(signature_strip_len(b"plain", 5), None);
}

#[test]
fn appended_signature_block_is_found_again() {
    let raw = [7u8; 74];
    let b = signature_block(&raw);
    assert_eq!(b.len(), 14 + 99 + 1);
    assert_eq!(b.len() as u64, SIG_LEN_MAX);
    let mut contents = b"payload".to_vec();
    contents.extend_from_slice(&b);
    match search(&contents) {
        FindSigResult::Found(loc) => {
            assert_eq!(loc.content_len, 7);
            assert_eq!(loc.sig_base64, b[14..113].to_vec());
        }
        _ => panic!("expected Found"),
    }
}

#[test]
fn test_find_signature_block_works_on_bounded_file() {
    let body = b"bounded content";
    let contents = signed(body, VALID_SIG_B64);

    // The tail is read through a window over the whole file.
    let mut window = BoundedWindow::from_len(contents.len() as u64);
    let len = window.seek(SeekOrigin::End(0)).unwrap();
    let n = len.min(SIG_LEN_MAX);
    let start = window.seek(SeekOrigin::End(-(n as i64))).unwrap();
    let tail = &contents[start as usize..(start + n) as usize];

    let loc = find_signature_block(tail, len).expect("expected Some(SigLocation)");
    assert_eq!(loc.content_len, body.len() as u64);
    assert_eq!(loc.sig_base64, VALID_SIG_B64.as_bytes());
}

#[test]
fn whole_file_signature_search() {
    let contents = signed(b"whole file", VALID_SIG_B64);
    match find_file_signature(&contents) {
        FindSigResult::Found(loc) => {
            assert_eq!(loc.content_len, 10);
            assert_eq!(loc.file_len, contents.len() as u64);
        }
        _ => panic!("expected a signature"),
    }
    assert!(matches!(find_file_signature(b"short"), FindSigResult::NotFound));
    let mut no_newline = contents.clone();
    no_newline.pop();
    assert!(matches!(find_file_signature(&no_newline), FindSigResult::NotFound));
    let corrupt = signed(b"whole file", "!!!not-valid-base64!!!");
    assert!(matches!(find_file_signature(&corrupt), FindSigResult::Corrupt));
}
