use bpt::bpt_conf::{BptConfNetworking, NetworkingUtil};
use bpt::error::Error;
use bpt::netutil::{download_result, NetUtil};

fn util(terms: &[&str]) -> NetworkingUtil {
    NetworkingUtil::from_terms(terms.iter().map(|s| s.to_string()).collect())
}

fn networking() -> BptConfNetworking {
    BptConfNetworking {
        utils: vec![
            util(&["curl", "-sSfL", "{}"]),
            util(&["wget", "-O", "-", "{}"]),
        ],
        print_stderr: false,
    }
}

#[test]
fn first_found_utility_is_chosen() {
    let conf = networking();
    let n = NetUtil::new(&conf, false, &[false, true]);
    assert_eq!(
        n.download_command("https://example.com/a.bpt").unwrap(),
        vec!["wget", "-O", "-", "https://example.com/a.bpt"]
    );
    let n = NetUtil::new(&conf, false, &[true, true]);
    assert_eq!(
        n.download_command("https://example.com/a.bpt").unwrap(),
        vec!["curl", "-sSfL", "https://example.com/a.bpt"]
    );
}

#[test]
fn no_utility_found_fails_only_on_download() {
    let conf = networking();
    let n = NetUtil::new(&conf, false, &[false, false]);
    assert!(matches!(n.download_command("u"), Err(Error::NoNetUtilInPath)));
    let n = NetUtil::new(&conf, false, &[]);
    assert!(matches!(n.download_command("u"), Err(Error::NoNetUtilInPath)));
}

#[test]
fn stderr_shown_when_asked_or_configured() {
    let mut conf = networking();
    assert!(!NetUtil::new(&conf, false, &[true]).print_stderr());
    assert!(NetUtil::new(&conf, true, &[true]).print_stderr());
    conf.print_stderr = true;
    assert!(NetUtil::new(&conf, false, &[true]).print_stderr());
}

#[test]
fn program_name_is_never_substituted() {
    let conf = BptConfNetworking {
        utils: vec![util(&["{}", "{}", "x{}"])],
        print_stderr: false,
    };
    let n = NetUtil::new(&conf, false, &[true]);
    assert_eq!(n.download_command("URL").unwrap(), vec!["{}", "URL", "x{}"]);
}

#[test]
fn download_failures_report_the_exit_code() {
    assert!(download_result("curl", true, Some(0)).is_ok());
    match download_result("curl", false, Some(22)) {
        Err(Error::NetUtilNonZero(p, c)) => {
            assert_eq!(p, "curl");
            assert_eq!(c, 22);
        }
        other => panic!("unexpected: {other:?}"),
    }
    assert!(matches!(
        download_result("wget", false, None),
        Err(Error::NetUtilNonZero(_, 1))
    ));
}
