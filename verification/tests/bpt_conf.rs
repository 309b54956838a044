use bpt::arch::Arch;
use bpt::bpt_conf::{
    BptConf, BptConfBuild, BptConfCache, BptConfGeneral, BptConfMakeRepo, BptConfNetworking,
    BuildCredentials, Lookup, NetworkingUtil, UserEntry,
};
use bpt::error::{AnonLocErr, Error};

/// The architecture the tests take bpt to run on.
const HOST: Arch = Arch::x86_64;

#[test]
fn test_missing_root_config_uses_defaults() {
    let conf = BptConf::from_optional_contents("/root/etc/bpt/bpt.conf", None, HOST).unwrap();
    assert_eq!(conf, BptConf::default_for_host(HOST));
}

#[test]
fn test_build_credentials_returns_none_for_non_root() {
    let conf = BptConf::default_for_host(HOST);
    let creds = conf
        .build_credentials_for_euid(1000, Lookup::NotFound, Lookup::NotFound)
        .unwrap();
    assert_eq!(creds, None);
}

#[test]
fn build_credentials_for_root_need_the_accounts() {
    let conf = BptConf::default_for_host(HOST);
    let user = || Lookup::Found(UserEntry { uid: 900, home_dir: Ok("/var/lib/bpt".to_owned()) });
    assert_eq!(
        conf.build_credentials_for_euid(0, user(), Lookup::Found(901)).unwrap(),
        Some(BuildCredentials {
            user_name: "bpt".to_owned(),
            uid: 900,
            gid: 901,
            home_dir: "/var/lib/bpt".to_owned(),
        })
    );
    match conf.build_credentials_for_euid(0, Lookup::NotFound, Lookup::Found(901)) {
        Err(Error::InputFieldInvalid(f, m)) => {
            assert_eq!(f, "build unprivileged-user");
            assert_eq!(m, "user `bpt` was not found");
        }
        other => panic!("unexpected: {other:?}"),
    }
    match conf.build_credentials_for_euid(0, user(), Lookup::NotFound) {
        Err(Error::InputFieldInvalid(f, m)) => {
            assert_eq!(f, "build unprivileged-group");
            assert_eq!(m, "group `bpt` was not found");
        }
        other => panic!("unexpected: {other:?}"),
    }
    match conf.build_credentials_for_euid(0, Lookup::Failed("EIO".to_owned()), Lookup::Found(1)) {
        Err(Error::InputFieldInvalid(f, m)) => {
            assert_eq!(f, "build unprivileged-user");
            assert_eq!(m, "EIO");
        }
        other => panic!("unexpected: {other:?}"),
    }
    let odd_home = Lookup::Found(UserEntry { uid: 900, home_dir: Err("/home/\u{fffd}".to_owned()) });
    match conf.build_credentials_for_euid(0, odd_home, Lookup::Found(901)) {
        Err(Error::InputFieldInvalid(f, m)) => {
            assert_eq!(f, "build unprivileged-user");
            assert_eq!(m, "user `bpt` has a non-UTF-8 home directory `/home/\u{fffd}`");
        }
        other => panic!("unexpected: {other:?}"),
    }
}

#[test]
fn parse_errors_are_located_at_the_file() {
    match BptConf::from_optional_contents("/r/etc/bpt/bpt.conf", Some("[bogus]\n"), HOST) {
        Err(Error::BptConfInvalidLine(path, nr, what, line)) => {
            assert_eq!(path, "/r/etc/bpt/bpt.conf");
            assert_eq!(nr, 1);
            assert_eq!(what, "section header");
            assert_eq!(line, "[bogus]");
        }
        other => panic!("unexpected: {other:?}"),
    }
}

#[test]
fn lines_before_any_section_are_rejected() {
    match BptConf::from_file_contents("tmp = /x\n", HOST) {
        Err(AnonLocErr::BptConfInvalidLine(nr, what, line)) => {
            assert_eq!(nr, 1);
            assert_eq!(what, "line before any [section] header");
            assert_eq!(line, "tmp = /x");
        }
        other => panic!("unexpected: {other:?}"),
    }
}

#[test]
fn test_parse_valid_full_config() {
    let config_str = r#"
        [general]
        default-archs = x86_64, aarch64

        [build]
        unprivileged-user = builder
        unprivileged-group = builders
        tmp = /var/tmp

        [make-repo]
        archs = noarch, host

        [networking]
        util = curl -f -L {}
        util = wget -O- {}
        print-stderr = true

        [cache]
        pkg-max-days = 30
        src-max-days = forever
    "#;

    let parsed_conf =
        BptConf::from_file_contents(config_str, HOST).expect("Failed to parse valid full config");

    let expected_conf = BptConf {
        general: BptConfGeneral {
            default_archs: vec![Arch::x86_64, Arch::aarch64],
            pin_direct_pkgver: false,
        },
        build: BptConfBuild {
            unprivileged_user: "builder".to_owned(),
            unprivileged_group: "builders".to_owned(),
            tmp: "/var/tmp".to_owned(),
        },
        make_repo: BptConfMakeRepo {
            archs: vec![Arch::noarch, HOST],
        },
        networking: BptConfNetworking {
            utils: vec![
                NetworkingUtil::from_terms(vec!["curl".to_owned(), "-f".to_owned(), "-L".to_owned(), "{}".to_owned()]),
                NetworkingUtil::from_terms(vec!["wget".to_owned(), "-O-".to_owned(), "{}".to_owned()]),
            ],
            print_stderr: true,
        },
        cache: BptConfCache {
            cache_pkg_max_days: Some(30),
            cache_src_max_days: None,
        },
    };

    assert_eq!(&parsed_conf, &expected_conf);
}

#[test]
fn test_parse_missing_sections() {
    let config_str = r#"
        [general]
        default-archs = x86_64

        [build]
        unprivileged-user = builder
    "#;

    let parsed_conf = BptConf::from_file_contents(config_str, HOST)
        .expect("Failed to parse config with missing sections");

    let mut expected_conf = BptConf::default_for_host(HOST);
    expected_conf.general.default_archs = vec![Arch::x86_64];
    expected_conf.build.unprivileged_user = "builder".to_owned();
    expected_conf.build.unprivileged_group = "bpt".to_owned();
    expected_conf.build.tmp = "/tmp".to_owned();
    // make_repo, networking, and cache should remain as defaults.

    assert_eq!(&parsed_conf, &expected_conf);
}

#[test]
fn test_parse_invalid_section_header() {
    let config_str = r#"
        [general]
        default-archs = x86_64

        [invalid-section]
        key = value
    "#;

    let result = BptConf::from_file_contents(config_str, HOST);
    assert!(result.is_err());

    match result {
        Err(AnonLocErr::BptConfInvalidLine(nr, invalid, line)) => {
            assert_eq!(nr, 5);
            assert_eq!(invalid, "section header");
            assert_eq!(line, "[invalid-section]");
        }
        _ => panic!("Unexpected error variant"),
    }
}

#[test]
fn test_parse_invalid_key_in_section() {
    let config_str = r#"
        [build]
        unprivileged-user = builder
        invalid-key = value
    "#;

    let result = BptConf::from_file_contents(config_str, HOST);
    assert!(result.is_err());

    match result {
        Err(AnonLocErr::BptConfInvalidLine(nr, invalid, line)) => {
            assert_eq!(nr, 4);
            assert_eq!(invalid, "[build] key");
            assert_eq!(line, "invalid-key = value");
        }
        _ => panic!("Unexpected error variant"),
    }
}

#[test]
fn test_parse_invalid_value_type() {
    let config_str = r#"
        [cache]
        pkg-max-days = not_an_integer
    "#;

    let result = BptConf::from_file_contents(config_str, HOST);
    assert!(result.is_err());

    match result {
        Err(AnonLocErr::BptConfInvalidLine(nr, invalid, line)) => {
            assert_eq!(nr, 3);
            assert_eq!(invalid, "non-negative integer or \"forever\"");
            assert_eq!(line, "pkg-max-days = not_an_integer");
        }
        _ => panic!("Unexpected error variant"),
    }
}

#[test]
fn test_parse_missing_key_value_separator() {
    let config_str = r#"
        [general]
        default-archs x86_64, aarch64
    "#;

    let result = BptConf::from_file_contents(config_str, HOST);
    assert!(result.is_err());

    match result {
        Err(AnonLocErr::BptConfInvalidLine(nr, invalid, line)) => {
            assert_eq!(nr, 3);
            assert_eq!(invalid, "\"key = value\" pair");
            assert_eq!(line, "default-archs x86_64, aarch64");
        }
        _ => panic!("Unexpected error variant"),
    }
}

#[test]
fn test_parse_invalid_boolean() {
    let config_str = r#"
        [networking]
        print-stderr = not_a_bool
    "#;

    let result = BptConf::from_file_contents(config_str, HOST);
    assert!(result.is_err());

    match result {
        Err(AnonLocErr::BptConfInvalidLine(nr, invalid, line)) => {
            assert_eq!(nr, 3);
            assert_eq!(invalid, "boolean value");
            assert_eq!(line, "print-stderr = not_a_bool");
        }
        _ => panic!("Unexpected error variant"),
    }
}

#[test]
fn test_parse_with_whitespace_and_comments() {
    let config_str = r#"
        # This is a comment
        [general]
        default-archs = x86_64,    aarch64  # Inline comment

        [build]   # Another comment
        unprivileged-user = builder
        unprivileged-group = builders

        [cache]
        pkg-max-days = 45
    "#;

    let parsed_conf = BptConf::from_file_contents(config_str, HOST)
        .expect("Failed to parse config with whitespace and comments");

    let mut expected_conf = BptConf::default_for_host(HOST);
    expected_conf.general.default_archs = vec![Arch::x86_64, Arch::aarch64];
    expected_conf.build.unprivileged_user = "builder".to_owned();
    expected_conf.build.unprivileged_group = "builders".to_owned();
    expected_conf.cache.cache_pkg_max_days = Some(45);
    // Other fields should remain as defaults.

    assert_eq!(&parsed_conf, &expected_conf);
}

#[test]
fn test_parse_only_comments_and_empty_lines() {
    let config_str = r#"
        # Entire configuration is comments and empty lines

        # Another comment

    "#;

    let parsed_conf = BptConf::from_file_contents(config_str, HOST)
        .expect("Failed to parse config with only comments and empty lines");

    let expected_conf = BptConf::default_for_host(HOST);

    assert_eq!(&parsed_conf, &expected_conf);
}

#[test]
fn test_parse_duplicate_keys() {
    let config_str = r#"
        [build]
        unprivileged-user = builder1
        unprivileged-user = builder2
        tmp = /tmp1
        tmp = /tmp2
    "#;

    let parsed_conf = BptConf::from_file_contents(config_str, HOST)
        .expect("Failed to parse config with duplicate keys");

    let mut expected_conf = BptConf::default_for_host(HOST);
    expected_conf.build.unprivileged_user = "builder2".to_owned();
    expected_conf.build.tmp = "/tmp2".to_owned();
    // Other fields should remain as defaults.

    assert_eq!(&parsed_conf, &expected_conf);
}

#[test]
fn test_parse_networking_utils_missing_placeholder() {
    let config_str = r#"
        [networking]
        util = curl -f -L
    "#;

    let result = BptConf::from_file_contents(config_str, HOST);
    assert!(result.is_err());

    match result {
        Err(AnonLocErr::BptConfInvalidLine(nr, invalid, line)) => {
            assert_eq!(nr, 3);
            assert_eq!(invalid, "netutil description (missing `{}`)");
            assert_eq!(line, "util = curl -f -L");
        }
        _ => panic!("Unexpected error variant"),
    }
}

#[test]
fn test_parse_invalid_arch_in_general() {
    let config_str = r#"
        [general]
        default-archs = x86_64, invalid_arch
    "#;

    let result = BptConf::from_file_contents(config_str, HOST);
    assert!(result.is_err());

    match result {
        Err(AnonLocErr::BptConfInvalidLine(nr, invalid, line)) => {
            assert_eq!(nr, 3);
            assert_eq!(invalid, "arch");
            assert_eq!(line, "default-archs = x86_64, invalid_arch");
        }
        _ => panic!("Unexpected error variant"),
    }
}

#[test]
fn test_parse_empty_configuration() {
    let config_str = "";

    let parsed_conf =
        BptConf::from_file_contents(config_str, HOST).expect("Failed to parse empty configuration");

    let expected_conf = BptConf::default_for_host(HOST);

    assert_eq!(&parsed_conf, &expected_conf);
}

#[test]
fn test_parse_only_one_section() {
    let config_str = r#"
        [cache]
        pkg-max-days = 60
        src-max-days = 60
    "#;

    let parsed_conf = BptConf::from_file_contents(config_str, HOST)
        .expect("Failed to parse config with only cache section");

    let mut expected_conf = BptConf::default_for_host(HOST);
    expected_conf.cache.cache_pkg_max_days = Some(60);
    expected_conf.cache.cache_src_max_days = Some(60);
    // Other fields should remain as defaults.

    assert_eq!(&parsed_conf, &expected_conf);
}

#[test]
fn test_parse_cache_forever() {
    let config_str = r#"
        [cache]
        pkg-max-days = forever
        src-max-days = forever
    "#;

    let parsed_conf =
        BptConf::from_file_contents(config_str, HOST).expect("Failed to parse cache forever");

    assert_eq!(parsed_conf.cache.cache_pkg_max_days, None);
    assert_eq!(parsed_conf.cache.cache_src_max_days, None);
}

#[test]
fn test_parse_cache_zero() {
    let config_str = r#"
        [cache]
        pkg-max-days = 0
        src-max-days = 0
    "#;

    let parsed_conf =
        BptConf::from_file_contents(config_str, HOST).expect("Failed to parse cache zero");

    assert_eq!(parsed_conf.cache.cache_pkg_max_days, Some(0));
    assert_eq!(parsed_conf.cache.cache_src_max_days, Some(0));
}

#[test]
fn test_parse_cache_negative_rejected() {
    let config_str = r#"
        [cache]
        pkg-max-days = -1
    "#;

    let result = BptConf::from_file_contents(config_str, HOST);
    assert!(result.is_err());

    match result {
        Err(AnonLocErr::BptConfInvalidLine(nr, invalid, line)) => {
            assert_eq!(nr, 3);
            assert_eq!(invalid, "non-negative integer or \"forever\"");
            assert_eq!(line, "pkg-max-days = -1");
        }
        _ => panic!("Unexpected error variant"),
    }
}

#[test]
fn test_parse_networking_single_util() {
    let config_str = r#"
        [networking]
        util = curl -f -L {}
    "#;

    let parsed_conf = BptConf::from_file_contents(config_str, HOST)
        .expect("Failed to parse networking with single util");

    let mut expected_conf = BptConf::default_for_host(HOST);
    expected_conf.networking.utils = vec![NetworkingUtil::from_terms(vec![
        "curl".to_owned(),
        "-f".to_owned(),
        "-L".to_owned(),
        "{}".to_owned(),
    ])];
    // Other fields should remain as defaults.

    assert_eq!(&parsed_conf, &expected_conf);
}

#[test]
fn test_parse_networking_no_utils() {
    let config_str = r#"
        [networking]
        print-stderr = true
    "#;

    let parsed_conf = BptConf::from_file_contents(config_str, HOST)
        .expect("Failed to parse networking with no utils");

    let mut expected_conf = BptConf::default_for_host(HOST);
    expected_conf.networking.print_stderr = true;
    // utils should remain as defaults.

    assert_eq!(&parsed_conf, &expected_conf);
}

#[test]
fn comment_only_config_is_the_default() {
    let text = "# bpt configuration\n\n   # nothing set here\n\t\n";
    let conf = BptConf::from_file_contents(text, HOST).unwrap();
    assert_eq!(conf, BptConf::default_for_host(HOST));
}
