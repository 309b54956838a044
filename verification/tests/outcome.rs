use bpt::outcome::{is_bbuild_file, make_repo_bbuilds};
use bpt::error::AnonLocErr;
use bpt::outcome::{check_summary, is_confirmation, sign_summary, signing_needed};

fn strings(v: &[&str]) -> Vec<String> {
    v.iter().map(|s| s.to_string()).collect()
}

#[test]
fn signature_problems_call_for_signing() {
    assert_eq!(signing_needed(Ok(())).unwrap(), false);
    for e in [
        AnonLocErr::SigCorrupt,
        AnonLocErr::SigInvalid,
        AnonLocErr::NoPublicKeys,
        AnonLocErr::SigMissing,
    ] {
        assert_eq!(signing_needed(Err(e)).unwrap(), true);
    }
    assert!(matches!(
        signing_needed(Err(AnonLocErr::UnexpectedData)),
        Err(AnonLocErr::UnexpectedData)
    ));
}

#[test]
fn confirmation_answers() {
    for a in ["y\n", "Y\n", "yes\n", "YES\r\n", "y"] {
        assert!(is_confirmation(a), "{a:?}");
    }
    for a in ["", "\n", "n\n", "Yes\n", " y\n", "yes please\n"] {
        assert!(!is_confirmation(a), "{a:?}");
    }
}

#[test]
fn sign_summaries() {
    let one = strings(&["a.bpt"]);
    let three = strings(&["a", "b", "c"]);
    assert_eq!(
        sign_summary(true, &three, &[]),
        "All 3 files already had valid signatures"
    );
    assert_eq!(sign_summary(false, &one, &one), "Signed a.bpt");
    assert_eq!(
        sign_summary(true, &three, &strings(&["b", "c"])),
        "Signed 2 of 3 files"
    );
    assert_eq!(sign_summary(false, &three, &three), "Signed all 3 files");
}

#[test]
fn check_summaries() {
    assert_eq!(check_summary(&[]), "No installed packages to check");
    assert_eq!(
        check_summary(&strings(&["bpt@1.0.0:x86_64"])),
        "Checked installed package bpt@1.0.0:x86_64"
    );
    assert_eq!(
        check_summary(&strings(&["a", "b"])),
        "Checked all 2 installed packages"
    );
}

#[test]
fn make_repo_needs_build_definitions() {
    assert!(is_bbuild_file("hello.bbuild"));
    assert!(!is_bbuild_file(".bbuild"));
    assert!(!is_bbuild_file("hello.bpt"));
    assert!(!is_bbuild_file("hello.bbuild.old"));
    let names: Vec<String> = ["a.bbuild", "b.bpt", "x86_64.pkgidx", "c.bbuild"].iter().map(|s| s.to_string()).collect();
    assert_eq!(make_repo_bbuilds("/out", &names).unwrap(), vec!["a.bbuild".to_owned(), "c.bbuild".to_owned()]);
    match make_repo_bbuilds("/out", &names[1..3]) {
        Err(bpt::error::Error::MakeRepoNoBbuilds(d)) => assert_eq!(d, "/out"),
        other => panic!("expected MakeRepoNoBbuilds, got {other:?}"),
    }
}
