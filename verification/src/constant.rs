//! Character sets, sizes and paths shared across bpt.
use vstd::prelude::*;

verus! {

/// Whether `c` may appear in a package name: lower case letters, digits, `+`, `-` and `.`
/// (the conservative Debian convention).
pub open spec fn pkgname_char(c: char) -> bool {
    ('a' <= c && c <= 'z') || ('0' <= c && c <= '9') || c == '+' || c == '-' || c == '.'
}

/// Whether a package version may not start with `c`: the semver comparison characters
/// `= < > ^ ~`, so that a dependency's version can be told from its comparison operator.
pub open spec fn pkgver_start_char_disallowed(c: char) -> bool {
    c == '=' || c == '<' || c == '>' || c == '^' || c == '~'
}

/// Whether `c` may appear in a package version: lower case letters, digits, `.`, `+`, `-`
/// and `~`.
pub open spec fn pkgver_char(c: char) -> bool {
    ('a' <= c && c <= 'z') || ('0' <= c && c <= '9') || c == '.' || c == '+' || c == '-'
        || c == '~'
}

/// Allowed characters in a package name.
///
/// None of `/`, `@`, `:`, whitespace, the semver comparison characters or the shell special
/// characters is allowed, so that names can be used in file names, package identifiers,
/// whitespace-separated lists, dependency expressions and shell strings.
pub fn is_pkgname_char(c: char) -> (r: bool)
    ensures
        r == pkgname_char(c),
{
    ('a' <= c && c <= 'z') || ('0' <= c && c <= '9') || c == '+' || c == '-' || c == '.'
}

/// Characters a package version may not start with.
pub fn is_pkgver_start_char_disallowed(c: char) -> (r: bool)
    ensures
        r == pkgver_start_char_disallowed(c),
{
    c == '=' || c == '<' || c == '>' || c == '^' || c == '~'
}

/// Allowed characters in a package version.
pub fn is_pkgver_char(c: char) -> (r: bool)
    ensures
        r == pkgver_char(c),
{
    ('a' <= c && c <= 'z') || ('0' <= c && c <= '9') || c == '.' || c == '+' || c == '-'
        || c == '~'
}

/// Every package-name character is a package-version character, and none of them is one a
/// version may not start with.
pub proof fn lemma_pkgname_chars_are_pkgver_chars(c: char)
    requires
        pkgname_char(c),
    ensures
        pkgver_char(c),
        !pkgver_start_char_disallowed(c),
{
}

/// Maximum size for files expected to be small (package metadata, shell script output): 1 MiB.
pub const SMALL_FILE_MAX_SIZE: usize = 1048576;

/// Maximum number of files expected in a package.
pub const PACKAGE_FILE_COUNT: usize = 1048576;

/// Public key configuration directory, relative to the root directory.
pub const PUB_KEY_DIR_PATH: &'static str = "etc/bpt/keys";

/// Repository configuration directory, relative to the root directory.
pub const REPOS_DIR_PATH: &'static str = "etc/bpt/repos";

/// General configuration file, relative to the root directory.
pub const BPT_CONF_PATH: &'static str = "etc/bpt/bpt.conf";

/// File listing the explicitly installed packages, relative to the root directory.
pub const WORLD_PATH: &'static str = "etc/bpt/world";

/// Directory of installed-package records, relative to the root directory.
pub const INSTPKG_DIR_PATH: &'static str = "var/lib/bpt/instpkg";

/// Cache directory when running as root, relative to the root directory.
pub const ROOT_CACHE_DIR: &'static str = "var/cache";

/// Leading bytes of a zstd frame.
pub const ZSTD_MAGIC: [u8; 4] = [0x28, 0xb5, 0x2f, 0xfd];

/// Leading bytes of a zstd dictionary.
pub const ZSTD_DICT_MAGIC: [u8; 4] = [0x37, 0xa4, 0x30, 0xec];

} // verus!
