use bpt::color::Color;
use bpt::constant::{is_pkgname_char, is_pkgver_char, is_pkgver_start_char_disallowed};

#[test]
fn pkgname_chars_follow_debian_convention() {
    for c in "abcxyz0189+-.".chars() {
        assert!(is_pkgname_char(c), "{c}");
    }
    for c in "ABZ_/@: \t~=<>^\"'\\$".chars() {
        assert!(!is_pkgname_char(c), "{c}");
    }
}

#[test]
fn pkgver_chars_allow_tilde() {
    for c in "az09.+-~".chars() {
        assert!(is_pkgver_char(c), "{c}");
    }
    for c in "A_/@: =<>^".chars() {
        assert!(!is_pkgver_char(c), "{c}");
    }
}

#[test]
fn pkgver_may_not_start_with_comparison_chars() {
    for c in "=<>^~".chars() {
        assert!(is_pkgver_start_char_disallowed(c), "{c}");
    }
    for c in "a0.+-".chars() {
        assert!(!is_pkgver_start_char_disallowed(c), "{c}");
    }
}

#[test]
fn test_color_macro() {
    assert_eq!(Color::Success.render(true), "\x1b[0;32m");
    assert_eq!(Color::Default.render(true), "\x1b[0m");
    assert_eq!(Color::Success.render(false), "");
    let colored = format!("{}{}{}", Color::Success.render(true), "test", Color::Default.render(true));
    assert_eq!(colored, "\x1b[0;32mtest\x1b[0m");
    let plain = format!("{}{}{}", Color::Success.render(false), "test", Color::Default.render(false));
    assert_eq!(plain, "test");
}

#[test]
fn color_codes_by_concept() {
    assert_eq!(Color::Url.code(), "\x1b[0;38;5;33m");
    assert_eq!(Color::Error.code(), "\x1b[1;31m");
    assert_eq!(Color::Warn.code(), "\x1b[0;93m");
    assert_eq!(Color::Arch.code(), "\x1b[0;95m");
}
