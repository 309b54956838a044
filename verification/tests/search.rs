use bpt::error::Error;
use bpt::search::{
    filters_in_force, highlight_spans, provides_row, regex_case_insensitive, search_row,
    search_width, SearchRegex,
};

#[test]
fn smart_case() {
    assert!(regex_case_insensitive("^gcc"));
    assert!(!regex_case_insensitive("^GCC"));
    assert!(regex_case_insensitive("caf\u{c9}"));
}

#[test]
fn no_filter_means_all() {
    assert_eq!(filters_in_force(false, false), (true, true));
    assert_eq!(filters_in_force(true, false), (true, false));
    assert_eq!(filters_in_force(false, true), (false, true));
    assert_eq!(filters_in_force(true, true), (true, true));
}

#[test]
fn lower_case_patterns_match_any_case() {
    let re = SearchRegex::new("lib".to_owned()).unwrap();
    assert!(re.is_match("zLIB compression"));
    let re = SearchRegex::new("Lib".to_owned()).unwrap();
    assert!(!re.is_match("zlib compression"));
    assert!(re.is_match("Library"));
}

#[test]
fn invalid_patterns_are_reported() {
    match SearchRegex::new("(unclosed".to_owned()) {
        Err(Error::InvalidRegex(p, _)) => assert_eq!(p, "(unclosed"),
        Err(other) => panic!("unexpected: {other:?}"),
        Ok(_) => panic!("expected an error"),
    }
}

#[test]
fn matches_are_wrapped_in_color_codes() {
    let re = SearchRegex::new("o".to_owned()).unwrap();
    assert_eq!(re.highlight("foo bar", "[", "]"), b"f[o][o] bar".to_vec());
    let re = SearchRegex::new("x".to_owned()).unwrap();
    assert_eq!(re.highlight("foo", "[", "]"), b"foo".to_vec());
}

#[test]
fn highlighting_given_spans() {
    assert_eq!(
        highlight_spans(b"abcdef", &[(1, 2), (4, 6)], b"<", b">"),
        b"a<b>cd<ef>".to_vec()
    );
    assert_eq!(highlight_spans(b"abc", &[(0, 0)], b"<", b">"), b"<>abc".to_vec());
}

#[test]
fn width_is_one_more_than_the_longest() {
    assert_eq!(search_width(&[3, 10, 7]), 11);
    assert_eq!(search_width(&[]), 0);
}

#[test]
fn rows_pad_identifiers_to_the_column() {
    let row = search_row(b"bpt@1:noarch", b"[bpt]@1:noarch".to_vec(), 15, b"desc".to_vec());
    assert_eq!(row, b"[bpt]@1:noarch   desc".to_vec());
    assert_eq!(provides_row("gcc@1:x86_64", 14, b"/usr/bin/gcc".to_vec()), b"gcc@1:x86_64  /usr/bin/gcc".to_vec());
    assert_eq!(provides_row("long-name", 3, b"/x".to_vec()), b"long-name/x".to_vec());
}

#[test]
fn highlight_without_color_is_the_text() {
    let re = SearchRegex::new("o+".to_owned()).unwrap();
    assert_eq!(re.highlight("foo bar boo", "", ""), b"foo bar boo".to_vec());
    assert_eq!(re.highlight("foo bar boo", "[", "]"), b"f[oo] bar b[oo]".to_vec());
}

#[test]
fn packages_are_listed_when_name_or_description_matches() {
    let re = SearchRegex::new("lib".to_owned()).unwrap();
    assert_eq!(re.package_matches(true, true, "zlib", "compression"), Some((true, false)));
    assert_eq!(re.package_matches(true, true, "gcc", "uses LIBS"), Some((false, true)));
    assert_eq!(re.package_matches(true, true, "gcc", "compiler"), None);
    assert_eq!(re.package_matches(false, true, "zlib", "compression"), None);
    assert_eq!(re.package_matches(true, false, "gcc", "a library"), None);
    assert_eq!(re.package_matches(true, true, "libc", "a library"), Some((true, true)));
}
