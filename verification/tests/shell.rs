use bpt::constant::SMALL_FILE_MAX_SIZE;
use bpt::error::AnonLocErr;
use bpt::shell::{
    check_output_len, decimal_digits, parse_shell_output, query_command, run_command,
    shell_status_result, ShellStatus,
};

fn strings(v: &[&str]) -> Vec<String> {
    v.iter().map(|s| s.to_string()).collect()
}

#[test]
fn query_command_sources_scripts_and_prints_records() {
    let cmd = query_command(
        &strings(&["pkgname=\"a\"\n", "pkgver=1"]),
        &strings(&["pkgname", "pkgver"]),
        5,
    );
    assert_eq!(
        cmd,
        "set -eu; pkgname=\"a\"\npkgver=1\nprintf \"pkgname=%s\\00pkgver=%s\\00\" \"${pkgname:-}\" \"${pkgver:-}\" >&5\0"
    );
}

#[test]
fn query_command_without_scripts_or_variables() {
    assert_eq!(query_command(&[], &[], 12), "set -eu; printf \"\" >&12\0");
}

#[test]
fn run_command_changes_directory_through_the_environment() {
    let cmd = run_command(&strings(&["build() { make; }"]), "build");
    assert_eq!(
        cmd,
        "set -eu; build() { make; }\ncd \"${BPT_CWD}\" && set -eux && build\0"
    );
}

#[test]
fn decimal_digits_of_numbers() {
    let s: String = decimal_digits(0).into_iter().collect();
    assert_eq!(s, "0");
    let s: String = decimal_digits(1024).into_iter().collect();
    assert_eq!(s, "1024");
    let s: String = decimal_digits(u64::MAX).into_iter().collect();
    assert_eq!(s, "18446744073709551615");
}

#[test]
fn parse_shell_output_reads_records_in_order() {
    let out = parse_shell_output(b"pkgname=from-open-fd\0pkgver=1.0=x\0\0empty=\0").unwrap();
    assert_eq!(
        out,
        vec![
            ("pkgname".to_owned(), "from-open-fd".to_owned()),
            ("pkgver".to_owned(), "1.0=x".to_owned()),
            ("empty".to_owned(), "".to_owned()),
        ]
    );
}

#[test]
fn parse_shell_output_accepts_a_final_unterminated_record() {
    let out = parse_shell_output(b"\0\0a=b").unwrap();
    assert_eq!(out, vec![("a".to_owned(), "b".to_owned())]);
    assert!(parse_shell_output(b"").unwrap().is_empty());
}

#[test]
fn parse_shell_output_rejects_corrupt_records() {
    assert!(matches!(
        parse_shell_output(b"a=b\0novalue\0"),
        Err(AnonLocErr::ShellMsgCorrupt("Missing `=`"))
    ));
    assert!(matches!(
        parse_shell_output(b"a=\xff\0"),
        Err(AnonLocErr::ShellMsgCorrupt("invalid utf-8"))
    ));
    assert!(matches!(
        parse_shell_output(b"\xfe=b\0"),
        Err(AnonLocErr::ShellMsgCorrupt("invalid utf-8"))
    ));
}

#[test]
fn parse_shell_output_decodes_utf8() {
    let out = parse_shell_output("desc=caf\u{e9}\0".as_bytes()).unwrap();
    assert_eq!(out, vec![("desc".to_owned(), "caf\u{e9}".to_owned())]);
}

#[test]
fn output_length_limit() {
    assert!(check_output_len(0).is_ok());
    assert!(check_output_len(SMALL_FILE_MAX_SIZE - 1).is_ok());
    assert!(matches!(
        check_output_len(SMALL_FILE_MAX_SIZE),
        Err(AnonLocErr::ShellMsgCorrupt("output exceeded SMALL_FILE_MAX_SIZE"))
    ));
}

#[test]
fn shell_status_outcomes() {
    assert!(shell_status_result(ShellStatus::Exited(0)).is_ok());
    assert!(matches!(
        shell_status_result(ShellStatus::Exited(3)),
        Err(AnonLocErr::ShellNonZero(3))
    ));
    match shell_status_result(ShellStatus::Other("Signaled(9)".to_owned())) {
        Err(AnonLocErr::ShellWaitStatus(d)) => assert_eq!(d, "Signaled(9)"),
        other => panic!("unexpected: {other:?}"),
    }
}

#[test]
fn reported_variables_read_back() {
    let vars = [("pkgname", "bpt"), ("pkgdesc", "a=b, ünïcode"), ("empty", "")];
    let mut out = Vec::new();
    for (name, value) in vars {
        out.extend_from_slice(format!("{name}={value}\0").as_bytes());
    }
    let parsed = parse_shell_output(&out).unwrap();
    let expected: Vec<(String, String)> =
        vars.iter().map(|(n, v)| (n.to_string(), v.to_string())).collect();
    assert_eq!(parsed, expected);
}
