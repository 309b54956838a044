//! The `bpt.conf` configuration file.
//!
//! The file is organized in `[section]` blocks of `key = value` lines; `#` starts a comment.  Any
//! item the file leaves out keeps its built-in default.
use crate::arch::{parse_arch, Arch};
use crate::error::{AnonLocErr, Error};
use crate::text::{
    concat3,
    ascii_words, ascii_words_exec, chars_range, chars_to_string, find_char, first_index_of,
    nested_view, parse_u32, parse_u32_exec, split_chars, split_on, str_eq, str_to_chars,
    strip_comment, strip_comment_chars, text_lines, text_lines_exec, trim, trim_chars,
};
use vstd::prelude::*;

verus! {

/// bpt configuration
///
/// Organized by sections
#[derive(Debug, PartialEq)]
pub struct BptConf {
    pub general: BptConfGeneral,
    pub build: BptConfBuild,
    pub make_repo: BptConfMakeRepo,
    pub networking: BptConfNetworking,
    pub cache: BptConfCache,
}

#[derive(Debug, PartialEq)]
pub struct BptConfGeneral {
    pub default_archs: Vec<Arch>,
    pub pin_direct_pkgver: bool,
}

#[derive(Debug, PartialEq)]
pub struct BptConfBuild {
    pub unprivileged_user: String,
    pub unprivileged_group: String,
    pub tmp: String,
}

#[derive(Debug, PartialEq)]
pub struct BptConfMakeRepo {
    pub archs: Vec<Arch>,
}

#[derive(Debug, PartialEq)]
pub struct BptConfNetworking {
    pub utils: Vec<NetworkingUtil>,
    pub print_stderr: bool,
}

/// A network download command line; the term `{}` stands for the URL.
#[derive(Debug, PartialEq)]
pub struct NetworkingUtil(Vec<String>);

#[derive(Debug, PartialEq)]
pub struct BptConfCache {
    pub cache_pkg_max_days: Option<u32>,
    pub cache_src_max_days: Option<u32>,
}

/// The part of the file a line belongs to.
#[derive(Clone, Copy, PartialEq, Eq, Structural)]
pub enum Section {
    Preamble,  // before any section header
    Build,
    General,
    MakeRepo,
    Networking,
    Cache,
}

pub type GeneralView = (Seq<Arch>, bool);

pub type BuildView = (Seq<char>, Seq<char>, Seq<char>);

pub type NetworkingView = (Seq<Seq<Seq<char>>>, bool);

pub type CacheView = (Option<u32>, Option<u32>);

pub type ConfView = (GeneralView, BuildView, Seq<Arch>, NetworkingView, CacheView);

pub open spec fn strings_view(v: Seq<String>) -> Seq<Seq<char>> {
    v.map_values(|s: String| s@)
}

pub open spec fn utils_view(v: Seq<NetworkingUtil>) -> Seq<Seq<Seq<char>>> {
    v.map_values(|u: NetworkingUtil| u@)
}

impl View for NetworkingUtil {
    type V = Seq<Seq<char>>;

    closed spec fn view(&self) -> Seq<Seq<char>> {
        strings_view(self.0@)
    }
}

impl View for BptConfGeneral {
    type V = GeneralView;

    open spec fn view(&self) -> GeneralView {
        (self.default_archs@, self.pin_direct_pkgver)
    }
}

impl View for BptConfBuild {
    type V = BuildView;

    open spec fn view(&self) -> BuildView {
        (self.unprivileged_user@, self.unprivileged_group@, self.tmp@)
    }
}

impl View for BptConfMakeRepo {
    type V = Seq<Arch>;

    open spec fn view(&self) -> Seq<Arch> {
        self.archs@
    }
}

impl View for BptConfNetworking {
    type V = NetworkingView;

    open spec fn view(&self) -> NetworkingView {
        (utils_view(self.utils@), self.print_stderr)
    }
}

impl View for BptConfCache {
    type V = CacheView;

    open spec fn view(&self) -> CacheView {
        (self.cache_pkg_max_days, self.cache_src_max_days)
    }
}

impl View for BptConf {
    type V = ConfView;

    open spec fn view(&self) -> ConfView {
        (self.general@, self.build@, self.make_repo@, self.networking@, self.cache@)
    }
}

/// `true` or `false`.
pub open spec fn parse_bool(s: Seq<char>) -> Option<bool> {
    if s == "true"@ {
        Some(true)
    } else if s == "false"@ {
        Some(false)
    } else {
        None
    }
}

/// A comma-separated list of architecture names, each trimmed.
pub open spec fn parse_arch_list(s: Seq<char>, host: Arch) -> Option<Seq<Arch>> {
    let fields = split_on(s, ',');
    if forall|i: int| 0 <= i < fields.len() ==> (#[trigger] parse_arch(trim(fields[i]), host)) is Some {
        Some(Seq::new(fields.len(), |i: int| parse_arch(trim(fields[i]), host)->0))
    } else {
        None
    }
}

/// A max-days value: `forever` means no limit, otherwise a non-negative integer.
pub open spec fn parse_max_days(s: Seq<char>) -> Option<Option<u32>> {
    if s == "forever"@ {
        Some(None)
    } else {
        match parse_u32(s) {
            Some(n) => Some(Some(n)),
            None => None,
        }
    }
}

/// The effect of `key = value` in `[general]`: the new section contents, or what was invalid.
pub open spec fn general_update(g: GeneralView, key: Seq<char>, value: Seq<char>, host: Arch) -> Result<GeneralView, Seq<char>> {
    if key == "default-archs"@ {
        match parse_arch_list(value, host) {
            Some(archs) => Ok((archs, g.1)),
            None => Err("arch"@),
        }
    } else if key == "pin-direct-pkgver"@ {
        match parse_bool(value) {
            Some(b) => Ok((g.0, b)),
            None => Err("boolean value"@),
        }
    } else {
        Err("[general] key"@)
    }
}

/// The effect of `key = value` in `[build]`.
pub open spec fn build_update(b: BuildView, key: Seq<char>, value: Seq<char>) -> Result<BuildView, Seq<char>> {
    if key == "unprivileged-user"@ {
        Ok((value, b.1, b.2))
    } else if key == "unprivileged-group"@ {
        Ok((b.0, value, b.2))
    } else if key == "tmp"@ {
        Ok((b.0, b.1, value))
    } else {
        Err("[build] key"@)
    }
}

/// The effect of `key = value` in `[make-repo]`.
pub open spec fn make_repo_update(m: Seq<Arch>, key: Seq<char>, value: Seq<char>, host: Arch) -> Result<Seq<Arch>, Seq<char>> {
    if key == "archs"@ {
        match parse_arch_list(value, host) {
            Some(archs) => Ok(archs),
            None => Err("arch"@),
        }
    } else {
        Err("[make-repo] key"@)
    }
}

/// The effect of `key = value` in `[networking]`: `util` adds a download command, which must
/// contain the `{}` URL placeholder as one of its words.
pub open spec fn networking_update(n: NetworkingView, key: Seq<char>, value: Seq<char>) -> Result<NetworkingView, Seq<char>> {
    if key == "util"@ {
        if ascii_words(value).contains(seq!['{', '}']) {
            Ok((n.0.push(ascii_words(value)), n.1))
        } else {
            Err("netutil description (missing `{}`)"@)
        }
    } else if key == "print-stderr"@ {
        match parse_bool(value) {
            Some(b) => Ok((n.0, b)),
            None => Err("boolean value"@),
        }
    } else {
        Err("[networking] key"@)
    }
}

/// The effect of `key = value` in `[cache]`.
pub open spec fn cache_update(c: CacheView, key: Seq<char>, value: Seq<char>) -> Result<CacheView, Seq<char>> {
    if key == "pkg-max-days"@ {
        match parse_max_days(value) {
            Some(d) => Ok((d, c.1)),
            None => Err("non-negative integer or \"forever\""@),
        }
    } else if key == "src-max-days"@ {
        match parse_max_days(value) {
            Some(d) => Ok((c.0, d)),
            None => Err("non-negative integer or \"forever\""@),
        }
    } else {
        Err("[cache] key"@)
    }
}

/// Parses a `true`/`false` value.
fn parse_bool_exec(s: &str) -> (r: Option<bool>)
    ensures
        r == parse_bool(s@),
{
    if str_eq(s, "true") {
        Some(true)
    } else if str_eq(s, "false") {
        Some(false)
    } else {
        None
    }
}

/// Parses a comma-separated list of architecture names.
fn parse_arch_list_exec(s: &str, host: Arch) -> (r: Option<Vec<Arch>>)
    ensures
        r is Some <==> parse_arch_list(s@, host) is Some,
        r matches Some(v) ==> v@ == parse_arch_list(s@, host)->0,
{
    let chars = str_to_chars(s);
    let fields = split_chars(&chars, ',');
    let ghost fs = split_on(s@, ',');
    let mut archs: Vec<Arch> = Vec::new();
    let mut i: usize = 0;
    while i < fields.len()
        invariant
            i <= fields@.len(),
            nested_view(fields@) == fs,
            fs == split_on(s@, ','),
            archs@.len() == i,
            forall|j: int| 0 <= j < i ==> (#[trigger] parse_arch(trim(fs[j]), host)) == Some(archs@[j]),
        decreases fields.len() - i,
    {
        let field = trim_chars(fields[i].as_slice());
        assert(fs[i as int] == fields@[i as int]@);
        let name = chars_to_string(&field);
        match Arch::from_name(name.as_str(), host) {
            Some(a) => archs.push(a),
            None => {
                assert(parse_arch(trim(fs[i as int]), host) is None);
                return None;
            },
        }
        i = i + 1;
    }
    assert(archs@ =~= Seq::new(fs.len(), |i: int| parse_arch(trim(fs[i]), host)->0));
    Some(archs)
}

/// Parse a max-days value: "forever" → None, non-negative integer → Some(n)
fn parse_max_days_exec(value: &str) -> (r: Result<Option<u32>, &'static str>)
    ensures
        r is Ok <==> parse_max_days(value@) is Some,
        r matches Ok(d) ==> parse_max_days(value@) == Some(d),
        r matches Err(e) ==> e@ == "non-negative integer or \"forever\""@,
{
    if str_eq(value, "forever") {
        return Ok(None);
    }
    let chars = str_to_chars(value);
    match parse_u32_exec(&chars) {
        Some(n) => Ok(Some(n)),
        None => Err("non-negative integer or \"forever\""),
    }
}

impl NetworkingUtil {
    /// The command line's terms.
    pub fn as_slice(&self) -> (r: &[String])
        ensures
            strings_view(r@) == self@,
    {
        self.0.as_slice()
    }

    /// A download command line made of the given terms.
    pub fn from_terms(terms: Vec<String>) -> (r: Self)
        ensures
            r@ == strings_view(terms@),
    {
        NetworkingUtil(terms)
    }
}

impl BptConfGeneral {
    /// Apply `key = value` from the `[general]` section.  `host` is the architecture the name
    /// `host` denotes.
    pub fn update(&mut self, key: &str, value: &str, host: Arch) -> (r: Result<(), &'static str>)
        ensures
            match general_update(old(self)@, key@, value@, host) {
                Ok(g) => r is Ok && final(self)@ == g,
                Err(e) => r matches Err(x) && x@ == e && final(self)@ == old(self)@,
            },
    {
        if str_eq(key, "default-archs") {
            match parse_arch_list_exec(value, host) {
                Some(archs) => {
                    self.default_archs = archs;
                },
                None => return Err("arch"),
            }
        } else if str_eq(key, "pin-direct-pkgver") {
            match parse_bool_exec(value) {
                Some(b) => {
                    self.pin_direct_pkgver = b;
                },
                None => return Err("boolean value"),
            }
        } else {
            return Err("[general] key");
        }
        Ok(())
    }
}

impl BptConfBuild {
    /// Apply `key = value` from the `[build]` section.
    pub fn update(&mut self, key: &str, value: &str) -> (r: Result<(), &'static str>)
        ensures
            match build_update(old(self)@, key@, value@) {
                Ok(b) => r is Ok && final(self)@ == b,
                Err(e) => r matches Err(x) && x@ == e && final(self)@ == old(self)@,
            },
    {
        if str_eq(key, "unprivileged-user") {
            self.unprivileged_user = value.to_owned();
        } else if str_eq(key, "unprivileged-group") {
            self.unprivileged_group = value.to_owned();
        } else if str_eq(key, "tmp") {
            self.tmp = value.to_owned();
        } else {
            return Err("[build] key");
        }
        Ok(())
    }
}

impl BptConfMakeRepo {
    /// Apply `key = value` from the `[make-repo]` section.  `host` is the architecture the name
    /// `host` denotes.
    pub fn update(&mut self, key: &str, value: &str, host: Arch) -> (r: Result<(), &'static str>)
        ensures
            match make_repo_update(old(self)@, key@, value@, host) {
                Ok(m) => r is Ok && final(self)@ == m,
                Err(e) => r matches Err(x) && x@ == e && final(self)@ == old(self)@,
            },
    {
        if str_eq(key, "archs") {
            match parse_arch_list_exec(value, host) {
                Some(archs) => {
                    self.archs = archs;
                },
                None => return Err("arch"),
            }
        } else {
            return Err("[make-repo] key");
        }
        Ok(())
    }
}

/// Whether a word is the URL placeholder `{}`.
fn is_placeholder(w: &Vec<char>) -> (r: bool)
    ensures
        r == (w@ == seq!['{', '}']),
{
    let r = w.len() == 2 && w[0] == '{' && w[1] == '}';
    if r {
        assert(w@ =~= seq!['{', '}']);
    }
    r
}

impl BptConfNetworking {
    /// Apply `key = value` from the `[networking]` section.
    pub fn update(&mut self, key: &str, value: &str) -> (r: Result<(), &'static str>)
        ensures
            match networking_update(old(self)@, key@, value@) {
                Ok(n) => r is Ok && final(self)@ == n,
                Err(e) => r matches Err(x) && x@ == e && final(self)@ == old(self)@,
            },
    {
        if str_eq(key, "util") {
            let chars = str_to_chars(value);
            let words = ascii_words_exec(&chars);
            let ghost ws = ascii_words(value@);
            let mut found = false;
            let mut terms: Vec<String> = Vec::new();
            let mut i: usize = 0;
            while i < words.len()
                invariant
                    i <= words@.len(),
                    nested_view(words@) == ws,
                    strings_view(terms@) == ws.take(i as int),
                    found == ws.take(i as int).contains(seq!['{', '}']),
                decreases words.len() - i,
            {
                let ghost old_terms = strings_view(terms@);
                let p = is_placeholder(&words[i]);
                terms.push(chars_to_string(words[i].as_slice()));
                assert(ws.take(i as int + 1) =~= ws.take(i as int).push(ws[i as int]));
                assert(strings_view(terms@) =~= old_terms.push(words@[i as int]@));
                proof {
                    if found || p {
                        if p {
                            assert(ws.take(i as int + 1)[i as int] == seq!['{', '}']);
                        } else {
                            let k = choose|k: int| 0 <= k < i && ws.take(i as int)[k] == seq!['{', '}'];
                            assert(ws.take(i as int + 1)[k] == seq!['{', '}']);
                        }
                    } else {
                        assert forall|k: int| 0 <= k < i + 1 implies #[trigger] ws.take(i as int + 1)[k] != seq!['{', '}'] by {
                            if k < i {
                                assert(ws.take(i as int + 1)[k] == ws.take(i as int)[k]);
                            }
                        }
                    }
                }
                found = found || p;
                i = i + 1;
            }
            assert(ws.take(ws.len() as int) =~= ws);
            if !found {
                return Err("netutil description (missing `{}`)");
            }
            let ghost old_utils = utils_view(self.utils@);
            self.utils.push(NetworkingUtil(terms));
            assert(utils_view(self.utils@) =~= old_utils.push(ws));
        } else if str_eq(key, "print-stderr") {
            match parse_bool_exec(value) {
                Some(b) => {
                    self.print_stderr = b;
                },
                None => return Err("boolean value"),
            }
        } else {
            return Err("[networking] key");
        }
        Ok(())
    }
}

impl BptConfCache {
    /// Apply `key = value` from the `[cache]` section.
    pub fn update(&mut self, key: &str, value: &str) -> (r: Result<(), &'static str>)
        ensures
            match cache_update(old(self)@, key@, value@) {
                Ok(c) => r is Ok && final(self)@ == c,
                Err(e) => r matches Err(x) && x@ == e && final(self)@ == old(self)@,
            },
    {
        if str_eq(key, "pkg-max-days") {
            self.cache_pkg_max_days = parse_max_days_exec(value)?;
        } else if str_eq(key, "src-max-days") {
            self.cache_src_max_days = parse_max_days_exec(value)?;
        } else {
            return Err("[cache] key");
        }
        Ok(())
    }
}


/// The built-in configuration, used for every item the file does not set.  `host` is the
/// architecture bpt runs on.
pub open spec fn default_conf(host: Arch) -> ConfView {
    (
        (seq![Arch::noarch, host], false),
        ("bpt"@, "bpt"@, "/tmp"@),
        seq![Arch::noarch, host, Arch::bbuild],
        (seq![seq!["curl"@, "-f"@, "-L"@, "{}"@], seq!["wget"@, "-O-"@, "{}"@]], false),
        (Some(90u32), Some(90u32)),
    )
}

/// The section a header line opens.
pub open spec fn section_of(line: Seq<char>) -> Option<Section> {
    if line == "[general]"@ {
        Some(Section::General)
    } else if line == "[build]"@ {
        Some(Section::Build)
    } else if line == "[make-repo]"@ {
        Some(Section::MakeRepo)
    } else if line == "[networking]"@ {
        Some(Section::Networking)
    } else if line == "[cache]"@ {
        Some(Section::Cache)
    } else {
        None
    }
}

/// Parser state: the configuration so far, the current section, and the `[networking]` section
/// read so far (its utilities start empty and replace the defaults only if any are given).
pub type ParseState = (ConfView, Section, NetworkingView);

/// Applies `key = value` to the current section.
pub open spec fn section_update(st: ParseState, key: Seq<char>, value: Seq<char>, host: Arch) -> Result<ParseState, Seq<char>> {
    let c = st.0;
    match st.1 {
        Section::Preamble => Err("line before any [section] header"@),
        Section::Build => match build_update(c.1, key, value) {
            Ok(b) => Ok(((c.0, b, c.2, c.3, c.4), st.1, st.2)),
            Err(e) => Err(e),
        },
        Section::General => match general_update(c.0, key, value, host) {
            Ok(g) => Ok(((g, c.1, c.2, c.3, c.4), st.1, st.2)),
            Err(e) => Err(e),
        },
        Section::MakeRepo => match make_repo_update(c.2, key, value, host) {
            Ok(m) => Ok(((c.0, c.1, m, c.3, c.4), st.1, st.2)),
            Err(e) => Err(e),
        },
        Section::Networking => match networking_update(st.2, key, value) {
            Ok(n) => Ok((c, st.1, n)),
            Err(e) => Err(e),
        },
        Section::Cache => match cache_update(c.4, key, value) {
            Ok(k) => Ok(((c.0, c.1, c.2, c.3, k), st.1, st.2)),
            Err(e) => Err(e),
        },
    }
}

/// The effect of one raw line: the new state, or what is invalid and the offending
/// (comment-stripped) line.
pub open spec fn line_step(st: ParseState, raw: Seq<char>, host: Arch) -> Result<ParseState, (Seq<char>, Seq<char>)> {
    let line = strip_comment(raw);
    if line.len() == 0 {
        Ok(st)
    } else if line[0] == '[' {
        match section_of(line) {
            Some(sec) => Ok((st.0, sec, st.2)),
            None => Err(("section header"@, line)),
        }
    } else {
        match first_index_of(line, '=') {
            None => Err(("\"key = value\" pair"@, line)),
            Some(k) => match section_update(st, trim(line.take(k)), trim(line.skip(k + 1)), host) {
                Ok(st2) => Ok(st2),
                Err(e) => Err((e, line)),
            },
        }
    }
}

/// Runs the lines from index `i` on: the final state, or the 1-based number of the first invalid
/// line with what is invalid and the line.
pub open spec fn run_lines(lines: Seq<Seq<char>>, i: int, st: ParseState, host: Arch) -> Result<ParseState, (int, Seq<char>, Seq<char>)>
    decreases lines.len() - i,
{
    if i < 0 || i >= lines.len() {
        Ok(st)
    } else {
        match line_step(st, lines[i], host) {
            Ok(st2) => run_lines(lines, i + 1, st2, host),
            Err(e) => Err((i + 1, e.0, e.1)),
        }
    }
}

/// The configuration a `bpt.conf` text describes, or its first invalid line (1-based number,
/// what is invalid, the line without its comment).  Items the text leaves out keep their
/// defaults; `[networking] util` lines, if any, replace the default utilities.
pub open spec fn parse_conf(text: Seq<char>, host: Arch) -> Result<ConfView, (int, Seq<char>, Seq<char>)> {
    let d = default_conf(host);
    match run_lines(text_lines(text), 0, (d, Section::Preamble, (Seq::empty(), d.3.1)), host) {
        Ok(st) => {
            let c = st.0;
            let utils = if st.2.0.len() > 0 { st.2.0 } else { c.3.0 };
            Ok((c.0, c.1, c.2, (utils, st.2.1), c.4))
        },
        Err(e) => Err(e),
    }
}

/// Which section a header line opens.
fn section_from_str(line: &str) -> (r: Option<Section>)
    ensures
        r == section_of(line@),
{
    if str_eq(line, "[general]") {
        Some(Section::General)
    } else if str_eq(line, "[build]") {
        Some(Section::Build)
    } else if str_eq(line, "[make-repo]") {
        Some(Section::MakeRepo)
    } else if str_eq(line, "[networking]") {
        Some(Section::Networking)
    } else if str_eq(line, "[cache]") {
        Some(Section::Cache)
    } else {
        None
    }
}

impl BptConf {
    /// The built-in configuration for a host architecture.
    pub fn default_for_host(host: Arch) -> (r: BptConf)
        ensures
            r@ == default_conf(host),
    {
        let curl = NetworkingUtil(vec!["curl".to_owned(), "-f".to_owned(), "-L".to_owned(), "{}".to_owned()]);
        let wget = NetworkingUtil(vec!["wget".to_owned(), "-O-".to_owned(), "{}".to_owned()]);
        assert(curl@ =~= seq!["curl"@, "-f"@, "-L"@, "{}"@]);
        assert(wget@ =~= seq!["wget"@, "-O-"@, "{}"@]);
        let r = BptConf {
            general: BptConfGeneral { default_archs: vec![Arch::noarch, host], pin_direct_pkgver: false },
            build: BptConfBuild {
                unprivileged_user: "bpt".to_owned(),
                unprivileged_group: "bpt".to_owned(),
                tmp: "/tmp".to_owned(),
            },
            make_repo: BptConfMakeRepo { archs: vec![Arch::noarch, host, Arch::bbuild] },
            networking: BptConfNetworking { utils: vec![curl, wget], print_stderr: false },
            cache: BptConfCache { cache_pkg_max_days: Some(90), cache_src_max_days: Some(90) },
        };
        assert(r.general@.0 =~= seq![Arch::noarch, host]);
        assert(r.make_repo@ =~= seq![Arch::noarch, host, Arch::bbuild]);
        assert(r.networking@.0 =~= seq![seq!["curl"@, "-f"@, "-L"@, "{}"@], seq!["wget"@, "-O-"@, "{}"@]]);
        r
    }

    /// Parse the contents of a `bpt.conf` file.  `host` is the architecture bpt runs on; it is
    /// what the architecture name `host` and the built-in defaults refer to.
    pub fn from_file_contents(contents: &str, host: Arch) -> (r: Result<Self, AnonLocErr>)
        ensures
            match parse_conf(contents@, host) {
                Ok(c) => r matches Ok(conf) && conf@ == c,
                Err(e) => r matches Err(AnonLocErr::BptConfInvalidLine(n, what, line)) && n as int
                    == e.0 && what@ == e.1 && line@ == e.2,
            },
    {
        // If any items are unspecified, fall back to the hard-coded default.
        let mut conf = Self::default_for_host(host);
        let mut section = Section::Preamble;
        // Parse networking into a separate struct starting empty; if any utils are specified,
        // they replace the defaults.
        let mut networking = BptConfNetworking {
            utils: Vec::new(),
            print_stderr: conf.networking.print_stderr,
        };
        assert(networking@.0 =~= Seq::<Seq<Seq<char>>>::empty());
        let chars = str_to_chars(contents);
        let lines = text_lines_exec(&chars);
        let ghost ls = text_lines(contents@);
        let ghost d = default_conf(host);
        let ghost init: ParseState = (d, Section::Preamble, (Seq::empty(), d.3.1));
        let mut i: usize = 0;
        while i < lines.len()
            invariant
                i <= lines@.len(),
                nested_view(lines@) == ls,
                ls == text_lines(contents@),
                d == default_conf(host),
                init == (d, Section::Preamble, (Seq::<Seq<Seq<char>>>::empty(), d.3.1)),
                conf.networking@ == d.3,
                run_lines(ls, 0, init, host) == run_lines(ls, i as int, (conf@, section, networking@), host),
            decreases lines.len() - i,
        {
            let ghost st: ParseState = (conf@, section, networking@);
            let raw = lines[i].as_slice();
            assert(ls[i as int] == raw@);
            let line = strip_comment_chars(raw);
            let text = chars_to_string(&line);
            if line.len() == 0 {
                assert(line_step(st, ls[i as int], host) == Ok::<ParseState, (Seq<char>, Seq<char>)>(st));
            } else if line[0] == '[' {
                match section_from_str(text.as_str()) {
                    Some(sec) => {
                        section = sec;
                    },
                    None => {
                        return Err(AnonLocErr::BptConfInvalidLine(i + 1, "section header", text));
                    },
                }
            } else {
                let eq = match find_char(&line, '=') {
                    Some(k) => k,
                    None => {
                        return Err(
                            AnonLocErr::BptConfInvalidLine(i + 1, "\"key = value\" pair", text),
                        );
                    },
                };
                let key_chars = trim_chars(&chars_range(&line, 0, eq));
                let value_chars = trim_chars(&chars_range(&line, eq + 1, line.len()));
                assert(line@.subrange(0, eq as int) =~= line@.take(eq as int));
                assert(line@.subrange(eq + 1, line@.len() as int) =~= line@.skip(eq + 1));
                let key = chars_to_string(&key_chars);
                let value = chars_to_string(&value_chars);
                let res = match section {
                    Section::Preamble => {
                        return Err(
                            AnonLocErr::BptConfInvalidLine(
                                i + 1,
                                "line before any [section] header",
                                text,
                            ),
                        );
                    },
                    Section::Build => conf.build.update(key.as_str(), value.as_str()),
                    Section::General => conf.general.update(key.as_str(), value.as_str(), host),
                    Section::MakeRepo => conf.make_repo.update(key.as_str(), value.as_str(), host),
                    Section::Networking => networking.update(key.as_str(), value.as_str()),
                    Section::Cache => conf.cache.update(key.as_str(), value.as_str()),
                };
                match res {
                    Ok(()) => {},
                    Err(what) => {
                        return Err(AnonLocErr::BptConfInvalidLine(i + 1, what, text));
                    },
                }
            }
            i = i + 1;
        }
        // If the config specified any utils, use those instead of the defaults.
        if networking.utils.len() > 0 {
            conf.networking.utils = networking.utils;
        }
        conf.networking.print_stderr = networking.print_stderr;
        Ok(conf)
    }
}


/// The result of looking up a name in the system's user or group database.
pub enum Lookup<T> {
    Found(T),
    NotFound,
    /// The lookup itself failed, as described.
    Failed(String),
}

/// What is known of the build user: its id and its home directory (or, when the directory is
/// not valid UTF-8, how it displays).
pub struct UserEntry {
    pub uid: u32,
    pub home_dir: Result<String, String>,
}

/// The unprivileged account that builds run as.
#[derive(Debug, PartialEq)]
pub struct BuildCredentials {
    pub user_name: String,
    pub uid: u32,
    pub gid: u32,
    pub home_dir: String,
}

impl BptConf {
    /// The configuration of a root directory, from the `bpt.conf` file's contents (`None` when
    /// the file does not exist: the built-in defaults apply).  A malformed line is reported at
    /// `path`.
    pub fn from_optional_contents(path: &str, contents: Option<&str>, host: Arch) -> (r: Result<
        Self,
        Error,
    >)
        ensures
            contents is None ==> (r matches Ok(c) && c@ == default_conf(host)),
            contents matches Some(t) ==> match parse_conf(t@, host) {
                Ok(c) => r matches Ok(conf) && conf@ == c,
                Err(e) => r matches Err(Error::BptConfInvalidLine(p, n, what, line)) && p@ == path@
                    && n as int == e.0 && what@ == e.1 && line@ == e.2,
            },
    {
        match contents {
            None => Ok(Self::default_for_host(host)),
            Some(t) => match Self::from_file_contents(t, host) {
                Ok(c) => Ok(c),
                Err(e) => Err(e.loc(path.to_owned())),
            },
        }
    }

    /// The credentials builds drop to.  Only root (effective uid 0) drops privileges; it needs
    /// the configured unprivileged user and group to exist, and the user's home directory to be
    /// valid UTF-8.  Each failure is an invalid `build unprivileged-user` or
    /// `build unprivileged-group` setting.
    pub fn build_credentials_for_euid(
        &self,
        euid: u32,
        user: Lookup<UserEntry>,
        group: Lookup<u32>,
    ) -> (r: Result<Option<BuildCredentials>, Error>)
        ensures
            euid != 0 ==> r matches Ok(None),
            euid == 0 ==> match (user, group) {
                (Lookup::Failed(m), _) => r matches Err(Error::InputFieldInvalid(f, msg)) && f@
                    == "build unprivileged-user"@ && msg == m,
                (Lookup::NotFound, _) => r matches Err(Error::InputFieldInvalid(f, msg)) && f@
                    == "build unprivileged-user"@ && msg@ == "user `"@ + self.build@.0
                    + "` was not found"@,
                (Lookup::Found(_), Lookup::Failed(m)) => r matches Err(
                    Error::InputFieldInvalid(f, msg),
                ) && f@ == "build unprivileged-group"@ && msg == m,
                (Lookup::Found(_), Lookup::NotFound) => r matches Err(
                    Error::InputFieldInvalid(f, msg),
                ) && f@ == "build unprivileged-group"@ && msg@ == "group `"@ + self.build@.1
                    + "` was not found"@,
                (Lookup::Found(u), Lookup::Found(gid)) => match u.home_dir {
                    Ok(home) => r matches Ok(Some(c)) && c.user_name@ == self.build@.0 && c.uid
                        == u.uid && c.gid == gid && c.home_dir == home,
                    Err(shown) => r matches Err(Error::InputFieldInvalid(f, msg)) && f@
                        == "build unprivileged-user"@ && msg@ == "user `"@ + self.build@.0
                        + "` has a non-UTF-8 home directory `"@ + shown@ + "`"@,
                },
            },
    {
        if euid != 0 {
            return Ok(None);
        }
        let user_name = self.build.unprivileged_user.as_str();
        let group_name = self.build.unprivileged_group.as_str();
        let u = match user {
            Lookup::Found(u) => u,
            Lookup::NotFound => {
                let msg = concat3("user `", user_name, "` was not found");
                return Err(Error::InputFieldInvalid("build unprivileged-user", msg));
            },
            Lookup::Failed(m) => {
                return Err(Error::InputFieldInvalid("build unprivileged-user", m));
            },
        };
        let gid = match group {
            Lookup::Found(g) => g,
            Lookup::NotFound => {
                let msg = concat3("group `", group_name, "` was not found");
                return Err(Error::InputFieldInvalid("build unprivileged-group", msg));
            },
            Lookup::Failed(m) => {
                return Err(Error::InputFieldInvalid("build unprivileged-group", m));
            },
        };
        let home_dir = match u.home_dir {
            Ok(h) => h,
            Err(shown) => {
                let head = concat3("user `", user_name, "` has a non-UTF-8 home directory `");
                let msg = concat3(head.as_str(), shown.as_str(), "`");
                return Err(Error::InputFieldInvalid("build unprivileged-user", msg));
            },
        };
        Ok(
            Some(
                BuildCredentials {
                    user_name: self.build.unprivileged_user.clone(),
                    uid: u.uid,
                    gid,
                    home_dir,
                },
            ),
        )
    }
}

/// Lines without settings leave the parser's state as it is.
proof fn lemma_blank_lines_keep_state(lines: Seq<Seq<char>>, i: int, st: ParseState, host: Arch)
    requires
        0 <= i <= lines.len(),
        forall|j: int| 0 <= j < lines.len() ==> strip_comment(#[trigger] lines[j]).len() == 0,
    ensures
        run_lines(lines, i, st, host) == Ok::<ParseState, (int, Seq<char>, Seq<char>)>(st),
    decreases lines.len() - i,
{
    if i < lines.len() {
        assert(strip_comment(lines[i]).len() == 0);
        lemma_blank_lines_keep_state(lines, i + 1, st, host);
    }
}

/// A configuration file holding nothing but comments and blank lines sets nothing: it parses to
/// the built-in configuration.
pub proof fn lemma_blank_conf_is_default(text: Seq<char>, host: Arch)
    requires
        forall|j: int|
            0 <= j < text_lines(text).len() ==> strip_comment(#[trigger] text_lines(text)[j]).len()
                == 0,
    ensures
        parse_conf(text, host) == Ok::<ConfView, (int, Seq<char>, Seq<char>)>(default_conf(host)),
{
    let d = default_conf(host);
    lemma_blank_lines_keep_state(text_lines(text), 0, (d, Section::Preamble, (Seq::empty(), d.3.1)), host);
}

/// `[general]`: `pin-direct-pkgver` takes `true` or `false` and sets the setting to it, whatever
/// it was; `default-archs` takes an architecture list and sets the default architectures to it.
/// Each leaves the other setting as it was; any other key or value is refused.
pub proof fn lemma_general_update_sets_its_key(g: GeneralView, key: Seq<char>, value: Seq<char>, host: Arch)
    ensures
        general_update(g, key, value, host) is Ok <==> ((key == "pin-direct-pkgver"@ && (value
            == "true"@ || value == "false"@)) || (key == "default-archs"@ && parse_arch_list(
            value,
            host,
        ) is Some)),
        key == "pin-direct-pkgver"@ && (value == "true"@ || value == "false"@) ==> general_update(
            g,
            key,
            value,
            host,
        ) == Ok::<GeneralView, Seq<char>>((g.0, value == "true"@)),
        key == "default-archs"@ && general_update(g, key, value, host) is Ok ==> general_update(
            g,
            key,
            value,
            host,
        ) == Ok::<GeneralView, Seq<char>>((parse_arch_list(value, host).unwrap(), g.1)),
{
    reveal_strlit("pin-direct-pkgver");
    reveal_strlit("default-archs");
    reveal_strlit("true");
    reveal_strlit("false");
    assert("pin-direct-pkgver"@.len() != "default-archs"@.len());
    assert("true"@.len() != "false"@.len());
}

/// `[build]`: `unprivileged-user`, `unprivileged-group` and `tmp` each set their own setting to
/// the value as written and leave the others as they were; any other key is refused.
pub proof fn lemma_build_update_sets_its_key(b: BuildView, key: Seq<char>, value: Seq<char>)
    ensures
        build_update(b, key, value) is Ok <==> (key == "unprivileged-user"@ || key
            == "unprivileged-group"@ || key == "tmp"@),
        key == "unprivileged-user"@ ==> build_update(b, key, value) == Ok::<BuildView, Seq<char>>(
            (value, b.1, b.2),
        ),
        key == "unprivileged-group"@ ==> build_update(b, key, value) == Ok::<BuildView, Seq<char>>(
            (b.0, value, b.2),
        ),
        key == "tmp"@ ==> build_update(b, key, value) == Ok::<BuildView, Seq<char>>(
            (b.0, b.1, value),
        ),
{
    reveal_strlit("unprivileged-user");
    reveal_strlit("unprivileged-group");
    reveal_strlit("tmp");
    assert("unprivileged-user"@.len() != "unprivileged-group"@.len());
    assert("unprivileged-user"@.len() != "tmp"@.len());
    assert("unprivileged-group"@.len() != "tmp"@.len());
}

/// `[make-repo]`: `archs` takes an architecture list and sets the repository architectures to
/// it; any other key is refused.
pub proof fn lemma_make_repo_update_sets_its_key(m: Seq<Arch>, key: Seq<char>, value: Seq<char>, host: Arch)
    ensures
        make_repo_update(m, key, value, host) is Ok <==> (key == "archs"@ && parse_arch_list(
            value,
            host,
        ) is Some),
        make_repo_update(m, key, value, host) matches Ok(a) ==> Some(a) == parse_arch_list(
            value,
            host,
        ),
{
}

/// `[networking]`: `util` adds the value's words as one more download command (after those
/// already given) when one of them is `{}`; `print-stderr` takes `true` or `false` and sets the
/// setting to it.  Each leaves the other setting as it was; anything else is refused.
pub proof fn lemma_networking_update_sets_its_key(n: NetworkingView, key: Seq<char>, value: Seq<char>)
    ensures
        networking_update(n, key, value) is Ok <==> ((key == "util"@ && ascii_words(value).contains(
            seq!['{', '}'],
        )) || (key == "print-stderr"@ && (value == "true"@ || value == "false"@))),
        key == "util"@ && ascii_words(value).contains(seq!['{', '}']) ==> networking_update(
            n,
            key,
            value,
        ) == Ok::<NetworkingView, Seq<char>>((n.0.push(ascii_words(value)), n.1)),
        key == "print-stderr"@ && (value == "true"@ || value == "false"@) ==> networking_update(
            n,
            key,
            value,
        ) == Ok::<NetworkingView, Seq<char>>((n.0, value == "true"@)),
{
    reveal_strlit("util");
    reveal_strlit("print-stderr");
    reveal_strlit("true");
    reveal_strlit("false");
    assert("util"@.len() != "print-stderr"@.len());
    assert("true"@.len() != "false"@.len());
}

/// `[cache]`: `pkg-max-days` and `src-max-days` each set their own limit, `forever` meaning no
/// limit and a number that many days, and leave the other as it was; anything else is refused.
pub proof fn lemma_cache_update_sets_its_key(c: CacheView, key: Seq<char>, value: Seq<char>)
    ensures
        cache_update(c, key, value) is Ok <==> ((key == "pkg-max-days"@ || key == "src-max-days"@)
            && (value == "forever"@ || parse_u32(value) is Some)),
        key == "pkg-max-days"@ && value == "forever"@ ==> cache_update(c, key, value) == Ok::<
            CacheView,
            Seq<char>,
        >((None, c.1)),
        key == "src-max-days"@ && value == "forever"@ ==> cache_update(c, key, value) == Ok::<
            CacheView,
            Seq<char>,
        >((c.0, None)),
        key == "pkg-max-days"@ && value != "forever"@ && parse_u32(value) is Some ==> cache_update(
            c,
            key,
            value,
        ) == Ok::<CacheView, Seq<char>>((Some(parse_u32(value).unwrap()), c.1)),
        key == "src-max-days"@ && value != "forever"@ && parse_u32(value) is Some ==> cache_update(
            c,
            key,
            value,
        ) == Ok::<CacheView, Seq<char>>((c.0, Some(parse_u32(value).unwrap()))),
{
    reveal_strlit("pkg-max-days");
    reveal_strlit("src-max-days");
    assert("pkg-max-days"@[0] != "src-max-days"@[0]);
}

} // verus!
