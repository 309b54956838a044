use bpt::error::{AnonLocErr, Error, IoError, IoErrorKind};

fn os_error(code: i32) -> IoError {
    IoError {
        kind: IoErrorKind::Other,
        raw_os_error: Some(code),
        message: format!("os error {code}"),
    }
}

#[test]
fn build_tarball_uses_io_exit_code() {
    let err = Error::BuildTarball("test-dir".to_string(), os_error(28));
    assert_eq!(err.exit_code(), 28);
}

#[test]
fn unpack_tarball_uses_io_exit_code() {
    let err = Error::UnpackTarball("test-pkg".to_string(), os_error(13));
    assert_eq!(err.exit_code(), 13);
}

#[test]
fn io_errors_without_an_os_code_exit_with_one() {
    let err = Error::Read(
        "x".to_owned(),
        IoError {
            kind: IoErrorKind::InvalidInput,
            raw_os_error: None,
            message: "Passphrase file is empty".to_owned(),
        },
    );
    assert_eq!(err.exit_code(), 1);
}

#[test]
fn sysexits_codes() {
    assert_eq!(Error::InputFieldInvalid("f", "m".to_owned()).exit_code(), 64);
    assert_eq!(Error::PathTraversal("../x".to_owned()).exit_code(), 67);
    assert_eq!(Error::FileTooLarge("f".to_owned(), 1).exit_code(), 65);
}

#[test]
fn locating_an_error_keeps_its_details() {
    match AnonLocErr::FieldInvalid("path", "bad".to_owned()).loc("/x".to_owned()) {
        Error::FieldInvalid(l, f, m) => {
            assert_eq!(l, "/x");
            assert_eq!(f, "path");
            assert_eq!(m, "bad");
        }
        other => panic!("unexpected: {other:?}"),
    }
    match AnonLocErr::UnexpectedData.loc("/y".to_owned()) {
        Error::UnexpectedData(l) => assert_eq!(l, "/y"),
        other => panic!("unexpected: {other:?}"),
    }
}
