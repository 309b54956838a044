use bpt::error::{Error, IoErrorKind};
use bpt::passphrase::{passphrase_len, tty_passphrase_len};

/// The passphrase a passphrase file with these contents holds.
fn read_secret(contents: &str) -> Result<String, Error> {
    let n = passphrase_len("passphrase", contents.as_bytes())?;
    Ok(contents[..n].to_owned())
}

#[test]
fn test_read_secret_trims_trailing_newlines() {
    assert_eq!(read_secret("secret\n").unwrap(), "secret");
}

#[test]
fn test_read_secret_trims_crlf() {
    assert_eq!(read_secret("secret\r\n").unwrap(), "secret");
}

#[test]
fn test_read_secret_trims_multiple_trailing_newlines() {
    assert_eq!(read_secret("secret\n\r\n\n").unwrap(), "secret");
}

#[test]
fn test_read_secret_no_trailing_newline() {
    assert_eq!(read_secret("secret").unwrap(), "secret");
}

#[test]
fn test_read_secret_empty_file() {
    assert!(read_secret("").is_err());
}

#[test]
fn test_read_secret_only_newlines() {
    assert!(read_secret("\n\r\n").is_err());
}

#[test]
fn empty_passphrase_is_an_invalid_input_read_error() {
    match passphrase_len("/etc/bpt/pass", b"\r\n") {
        Err(Error::Read(path, e)) => {
            assert_eq!(path, "/etc/bpt/pass");
            assert_eq!(e.kind, IoErrorKind::InvalidInput);
            assert_eq!(e.message, "Passphrase file is empty");
        }
        other => panic!("unexpected: {other:?}"),
    }
}

#[test]
fn inner_newlines_are_kept() {
    assert_eq!(read_secret("a\nb\n").unwrap(), "a\nb");
}

#[test]
fn tty_line_needs_its_newline() {
    assert_eq!(tty_passphrase_len("/dev/tty", b"pw\n").unwrap(), 2);
    assert_eq!(tty_passphrase_len("/dev/tty", b"pw\r\n").unwrap(), 3);
    match tty_passphrase_len("/dev/tty", b"pw") {
        Err(Error::Read(path, e)) => {
            assert_eq!(path, "/dev/tty");
            assert_eq!(e.message, "No trailing newline");
        }
        other => panic!("unexpected: {other:?}"),
    }
}
