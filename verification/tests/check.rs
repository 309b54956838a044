use bpt::check::{
    backup_check_mode, check_outcome, classify_file_issue, format_check_report, partition_issues,
    BackupCheckMode, InstPkgCheckIssue,
};
use bpt::error::Error;

#[test]
fn format_check_report_groups_issues_by_pkg() {
    let report = format_check_report(&[
        (
            "fakeblock@1.0.0:noarch".to_owned(),
            vec![
                "Missing: /root/usr/bin/fakeblock".to_owned(),
                "Incorrect mode: /root/etc/fakeblock.conf (expected 644; found 600)".to_owned(),
            ],
        ),
        (
            "fakeblock-songs@1.0.0:noarch".to_owned(),
            vec!["Incorrect sha256: /root/usr/share/fakeblock/songs/main-theme".to_owned()],
        ),
    ]);

    assert_eq!(
        report,
        [
            "fakeblock@1.0.0:noarch\n",
            "  Missing: /root/usr/bin/fakeblock\n",
            "  Incorrect mode: /root/etc/fakeblock.conf (expected 644; found 600)\n",
            "\n",
            "fakeblock-songs@1.0.0:noarch\n",
            "  Incorrect sha256: /root/usr/share/fakeblock/songs/main-theme"
        ]
        .concat()
    );
}

#[test]
fn format_check_report_of_nothing_is_empty() {
    assert_eq!(format_check_report(&[]), "");
}

#[test]
fn format_check_report_package_without_issues() {
    assert_eq!(
        format_check_report(&[("a@1:noarch".to_owned(), vec![])]),
        "a@1:noarch"
    );
}

#[test]
fn backup_mode_options_exclude_each_other() {
    match backup_check_mode(true, true) {
        Err(Error::InputFieldInvalid(field, msg)) => {
            assert_eq!(field, "check options");
            assert_eq!(msg, "--strict and --ignore-backup cannot be used together");
        }
        other => panic!("unexpected: {other:?}"),
    }
    assert_eq!(backup_check_mode(true, false).unwrap(), BackupCheckMode::Strict);
    assert_eq!(backup_check_mode(false, true).unwrap(), BackupCheckMode::Ignore);
    assert_eq!(backup_check_mode(false, false).unwrap(), BackupCheckMode::Warn);
}

fn issues() -> Vec<InstPkgCheckIssue> {
    vec![
        InstPkgCheckIssue::Error("e1".to_owned()),
        InstPkgCheckIssue::BackupDiff("b1".to_owned()),
        InstPkgCheckIssue::Error("e2".to_owned()),
        InstPkgCheckIssue::BackupDiff("b2".to_owned()),
    ]
}

#[test]
fn partition_issues_follows_the_backup_mode() {
    let (errors, warnings) = partition_issues(issues(), BackupCheckMode::Warn);
    assert_eq!(errors, vec!["e1", "e2"]);
    assert_eq!(warnings, vec!["b1", "b2"]);

    let (errors, warnings) = partition_issues(issues(), BackupCheckMode::Strict);
    assert_eq!(errors, vec!["e1", "b1", "e2", "b2"]);
    assert!(warnings.is_empty());

    let (errors, warnings) = partition_issues(issues(), BackupCheckMode::Ignore);
    assert_eq!(errors, vec!["e1", "e2"]);
    assert!(warnings.is_empty());
}

#[test]
fn only_backup_content_differences_are_backup_diffs() {
    assert!(matches!(
        classify_file_issue(true, true, "m".to_owned()),
        InstPkgCheckIssue::BackupDiff(m) if m == "m"
    ));
    assert!(matches!(
        classify_file_issue(true, false, "m".to_owned()),
        InstPkgCheckIssue::Error(_)
    ));
    assert!(matches!(
        classify_file_issue(false, true, "m".to_owned()),
        InstPkgCheckIssue::Error(_)
    ));
}

#[test]
fn check_fails_with_the_report_of_error_issues() {
    let targets = vec!["a@1:x86_64".to_owned(), "b@2:x86_64".to_owned()];
    let issues = vec![("a@1:x86_64".to_owned(), vec!["missing /usr/bin/a".to_owned()])];
    match check_outcome(&issues, &targets) {
        Err(Error::CheckFailed(report)) => assert_eq!(report, "a@1:x86_64\n  missing /usr/bin/a"),
        other => panic!("expected CheckFailed, got {other:?}"),
    }
    assert_eq!(check_outcome(&[], &targets).unwrap(), "Checked all 2 installed packages");
    assert_eq!(
        check_outcome(&[], &targets[..1]).unwrap(),
        "Checked installed package a@1:x86_64"
    );
}
