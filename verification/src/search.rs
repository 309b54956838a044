//! Searching packages and their files by regular expression, and the rows printed for matches.
//!
//! Matching is done by `regex_lite`; a pattern without ASCII upper case letters matches case
//! insensitively.  Matched text is highlighted by wrapping each match in a pair of color codes.
use crate::error::Error;
use vstd::prelude::*;
use vstd::string::StringSliceAdditionalSpecFns;

verus! {

/// An ASCII upper case letter.
pub open spec fn is_ascii_upper(c: char) -> bool {
    'A' <= c && c <= 'Z'
}

/// A pattern matches case insensitively unless it has an ASCII upper case letter ("smart
/// case").
pub open spec fn smart_case_insensitive(pattern: Seq<char>) -> bool {
    forall|i: int| 0 <= i < pattern.len() ==> !is_ascii_upper(#[trigger] pattern[i])
}

/// Whether a pattern matches case insensitively.
pub fn regex_case_insensitive(pattern: &str) -> (r: bool)
    ensures
        r == smart_case_insensitive(pattern@),
{
    let chars = crate::text::str_to_chars(pattern);
    let mut i: usize = 0;
    while i < chars.len()
        invariant
            i <= chars@.len(),
            chars@ == pattern@,
            forall|k: int| 0 <= k < i ==> !is_ascii_upper(#[trigger] chars@[k]),
        decreases chars@.len() - i,
    {
        if 'A' <= chars[i] && chars[i] <= 'Z' {
            assert(is_ascii_upper(pattern@[i as int]));
            return false;
        }
        i = i + 1;
    }
    true
}

/// What to search: with neither of a pair of filters given, both apply.
pub open spec fn both_if_neither(a: bool, b: bool) -> (bool, bool) {
    if !a && !b {
        (true, true)
    } else {
        (a, b)
    }
}

/// The filters in force: with neither given, both apply.
pub fn filters_in_force(a: bool, b: bool) -> (r: (bool, bool))
    ensures
        r == both_if_neither(a, b),
{
    if !a && !b {
        (true, true)
    } else {
        (a, b)
    }
}

// ---------------------------------------------------------------------------------------------
// Regular expressions
// ---------------------------------------------------------------------------------------------

/// A compiled `regex_lite` regular expression.
#[verifier::external_type_specification]
#[verifier::external_body]
pub struct ExRegex(regex_lite::Regex);

/// Whether `regex_lite` compiles the pattern (with the given case sensitivity).
pub uninterp spec fn regex_compiles(pattern: Seq<char>, case_insensitive: bool) -> bool;

/// Whether the compiled pattern matches somewhere in the text.
pub uninterp spec fn regex_matches(pattern: Seq<char>, case_insensitive: bool, text: Seq<char>) -> bool;

/// The byte spans of the successive non-overlapping matches of the compiled pattern in the text.
pub uninterp spec fn regex_match_spans(
    pattern: Seq<char>,
    case_insensitive: bool,
    text: Seq<char>,
) -> Seq<(usize, usize)>;

/// Spans within a text of `len` bytes, each non-empty or empty but ordered, left to right and not
/// overlapping.
pub open spec fn ordered_spans(spans: Seq<(usize, usize)>, len: int) -> bool {
    &&& forall|k: int| 0 <= k < spans.len() ==> (#[trigger] spans[k]).0 <= spans[k].1 <= len
    &&& forall|k: int| 0 <= k < spans.len() - 1 ==> (#[trigger] spans[k]).1 <= spans[k + 1].0
}

/// Whether a package is listed by a search, and where it matched (see
/// [SearchRegex::package_matches]).
pub open spec fn package_match(
    pattern: Seq<char>,
    case_insensitive: bool,
    name: bool,
    description: bool,
    pkgname: Seq<char>,
    pkgdesc: Seq<char>,
) -> Option<(bool, bool)> {
    let n = name && regex_matches(pattern, case_insensitive, pkgname);
    let d = description && regex_matches(pattern, case_insensitive, pkgdesc);
    if !n && !d {
        None
    } else {
        Some((n, d))
    }
}

/// A regular expression compiled for searching, with its pattern.
///
/// `compiled` is always the expression `regex_lite` built from `pattern` with
/// `case_insensitive`: the fields are private and only [SearchRegex::new] makes a value, from
/// one compilation.  The trusted [regex_is_match] and [regex_find_spans] rely on that
/// correspondence when they speak of `pattern` and `case_insensitive`.
pub struct SearchRegex {
    pattern: String,
    case_insensitive: bool,
    compiled: regex_lite::Regex,
}

impl SearchRegex {
    /// The pattern.
    pub closed spec fn pattern(&self) -> Seq<char> {
        self.pattern@
    }

    /// Whether it matches case insensitively.
    pub closed spec fn insensitive(&self) -> bool {
        self.case_insensitive
    }
}

/// Compiles a pattern with `regex_lite::RegexBuilder`.
///
/// Trusted: the result is `Ok` exactly when the named compilation succeeds; an error carries the
/// crate's description of the problem.
#[verifier::external_body]
fn compile_regex(pattern: &str, case_insensitive: bool) -> (r: Result<regex_lite::Regex, String>)
    ensures
        r is Ok <==> regex_compiles(pattern@, case_insensitive),
{
    regex_lite::RegexBuilder::new(pattern).case_insensitive(case_insensitive).build().map_err(
        |e| e.to_string(),
    )
}

/// Whether a compiled regular expression matches the text (`regex_lite::Regex::is_match`).
///
/// Trusted: the compiled expression is the one [SearchRegex::new] built from the pattern it
/// holds, so the result is the named match of that pattern.
#[verifier::external_body]
fn regex_is_match(re: &SearchRegex, text: &str) -> (r: bool)
    ensures
        r == regex_matches(re.pattern(), re.insensitive(), text@),
{
    re.compiled.is_match(text)
}

/// The byte spans of the matches (`regex_lite::Regex::find_iter`).
///
/// Trusted: the spans are the named ones for the pattern the expression was built from; as the
/// crate documents, they are the successive non-overlapping matches, left to right, each within
/// the text and with its start no later than its end.
#[verifier::external_body]
fn regex_find_spans(re: &SearchRegex, text: &str) -> (r: Vec<(usize, usize)>)
    ensures
        r@ == regex_match_spans(re.pattern(), re.insensitive(), text@),
        ordered_spans(r@, text.spec_bytes().len() as int),
{
    re.compiled.find_iter(text).map(|m| (m.start(), m.end())).collect()
}

impl SearchRegex {
    /// Compiles a search pattern, case insensitively unless it has an ASCII upper case letter.
    /// A pattern `regex_lite` rejects is an `InvalidRegex` error with the pattern and the
    /// crate's description.
    pub fn new(pattern: String) -> (r: Result<Self, Error>)
        ensures
            r is Ok <==> regex_compiles(pattern@, smart_case_insensitive(pattern@)),
            r matches Ok(re) ==> re.pattern() == pattern@ && re.insensitive()
                == smart_case_insensitive(pattern@),
            r matches Err(e) ==> (e matches Error::InvalidRegex(p, _) && p@ == pattern@),
    {
        let ci = regex_case_insensitive(pattern.as_str());
        match compile_regex(pattern.as_str(), ci) {
            Ok(compiled) => Ok(SearchRegex { pattern, case_insensitive: ci, compiled }),
            Err(msg) => Err(Error::InvalidRegex(pattern, msg)),
        }
    }

    /// Whether the expression matches somewhere in the text.
    pub fn is_match(&self, text: &str) -> (r: bool)
        ensures
            r == regex_matches(self.pattern(), self.insensitive(), text@),
    {
        regex_is_match(self, text)
    }

    /// Whether a package is listed, and where it matched: `None` when it is not listed,
    /// otherwise whether its name and whether its description matched.  Names are searched only
    /// when `name` is set and descriptions only when `description` is (see [filters_in_force]);
    /// a package is listed when either search matched.
    pub fn package_matches(
        &self,
        name: bool,
        description: bool,
        pkgname: &str,
        pkgdesc: &str,
    ) -> (r: Option<(bool, bool)>)
        ensures
            r == package_match(self.pattern(), self.insensitive(), name, description, pkgname@, pkgdesc@),
    {
        let name_match = name && self.is_match(pkgname);
        let desc_match = description && self.is_match(pkgdesc);
        if !name_match && !desc_match {
            None
        } else {
            Some((name_match, desc_match))
        }
    }

    /// The text with every match wrapped in `on` and `off`, as bytes.
    pub fn highlight(&self, text: &str, on: &str, off: &str) -> (r: Vec<u8>)
        ensures
            r@ == highlighted(
                text.spec_bytes(),
                regex_match_spans(self.pattern(), self.insensitive(), text@),
                on.spec_bytes(),
                off.spec_bytes(),
                0,
            ),
    {
        let spans = regex_find_spans(self, text);
        highlight_spans(text.as_bytes(), spans.as_slice(), on.as_bytes(), off.as_bytes())
    }
}

// ---------------------------------------------------------------------------------------------
// Highlighting and rows
// ---------------------------------------------------------------------------------------------

/// The text from byte `cur` on, with each span wrapped in `on` and `off`.
pub open spec fn highlighted(
    text: Seq<u8>,
    spans: Seq<(usize, usize)>,
    on: Seq<u8>,
    off: Seq<u8>,
    cur: int,
) -> Seq<u8>
    decreases spans.len(),
{
    if spans.len() == 0 {
        text.subrange(cur, text.len() as int)
    } else {
        let (s, e) = spans[0];
        text.subrange(cur, s as int) + on + text.subrange(s as int, e as int) + off + highlighted(
            text,
            spans.drop_first(),
            on,
            off,
            e as int,
        )
    }
}

fn push_bytes(out: &mut Vec<u8>, bytes: &[u8], from: usize, to: usize)
    requires
        from <= to <= bytes@.len(),
    ensures
        final(out)@ == old(out)@ + bytes@.subrange(from as int, to as int),
{
    let mut i = from;
    while i < to
        invariant
            from <= i <= to,
            to <= bytes@.len(),
            out@ == old(out)@ + bytes@.subrange(from as int, i as int),
        decreases to - i,
    {
        out.push(bytes[i]);
        i = i + 1;
        assert(out@ =~= old(out)@ + bytes@.subrange(from as int, i as int));
    }
}

/// The text with each of the ordered spans wrapped in `on` and `off`.
pub fn highlight_spans(text: &[u8], spans: &[(usize, usize)], on: &[u8], off: &[u8]) -> (r: Vec<u8>)
    requires
        ordered_spans(spans@, text@.len() as int),
    ensures
        r@ == highlighted(text@, spans@, on@, off@, 0),
{
    let mut out: Vec<u8> = Vec::new();
    let mut cur: usize = 0;
    let mut k: usize = 0;
    assert(spans@.skip(0) =~= spans@);
    while k < spans.len()
        invariant
            k <= spans@.len(),
            ordered_spans(spans@, text@.len() as int),
            k == 0 ==> cur == 0,
            k > 0 ==> cur == spans@[k - 1].1,
            cur <= text@.len(),
            out@ + highlighted(text@, spans@.skip(k as int), on@, off@, cur as int) == highlighted(
                text@,
                spans@,
                on@,
                off@,
                0,
            ),
        decreases spans@.len() - k,
    {
        let (s, e) = spans[k];
        let ghost rest = spans@.skip(k as int);
        assert(rest[0] == spans@[k as int]);
        assert(rest.drop_first() =~= spans@.skip(k as int + 1));
        let ghost before = out@;
        assert(cur <= s) by {
            if k > 0 {
                assert(spans@[k - 1].1 <= spans@[k as int].0);
            }
        }
        push_bytes(&mut out, text, cur, s);
        push_bytes(&mut out, on, 0, on.len());
        push_bytes(&mut out, text, s, e);
        push_bytes(&mut out, off, 0, off.len());
        assert(on@.subrange(0, on@.len() as int) =~= on@);
        assert(off@.subrange(0, off@.len() as int) =~= off@);
        assert(out@ + highlighted(text@, spans@.skip(k as int + 1), on@, off@, e as int) =~= before
            + highlighted(text@, rest, on@, off@, cur as int));
        cur = e;
        k = k + 1;
    }
    push_bytes(&mut out, text, cur, text.len());
    out
}

/// The column width for package identifiers: one more than the longest.
pub open spec fn column_width(lens: Seq<usize>) -> int
    decreases lens.len(),
{
    if lens.len() == 0 {
        0
    } else {
        let w = column_width(lens.drop_last());
        if lens.last() + 1 > w {
            lens.last() + 1
        } else {
            w
        }
    }
}

/// The column width for package identifiers of the given lengths: one more than the longest,
/// or zero when there are none.
pub fn search_width(lens: &[usize]) -> (r: usize)
    requires
        forall|k: int| 0 <= k < lens@.len() ==> (#[trigger] lens@[k]) < usize::MAX,
    ensures
        r == column_width(lens@),
        forall|k: int| 0 <= k < lens@.len() ==> (#[trigger] lens@[k]) < r,
{
    let mut w: usize = 0;
    let mut i: usize = 0;
    while i < lens.len()
        invariant
            i <= lens@.len(),
            forall|k: int| 0 <= k < lens@.len() ==> (#[trigger] lens@[k]) < usize::MAX,
            w == column_width(lens@.take(i as int)),
            forall|k: int| 0 <= k < i ==> (#[trigger] lens@[k]) < w,
        decreases lens@.len() - i,
    {
        assert(lens@.take(i as int + 1).drop_last() =~= lens@.take(i as int));
        assert(lens@.take(i as int + 1).last() == lens@[i as int]);
        if lens[i] + 1 > w {
            w = lens[i] + 1;
        }
        i = i + 1;
    }
    assert(lens@.take(i as int) =~= lens@);
    w
}

/// A search result row: the package identifier (highlighted where the name matched), spaces up
/// to the column width, then the description (highlighted where it matched).  Padding counts
/// the identifier's plain length, so rows line up whatever the highlighting adds.
pub fn search_row(id: &[u8], id_shown: Vec<u8>, width: usize, desc_shown: Vec<u8>) -> (r: Vec<u8>)
    requires
        id@.len() < width,
    ensures
        r@ == id_shown@ + Seq::new((width - id@.len()) as nat, |i: int| 32u8) + desc_shown@,
{
    let mut out = id_shown;
    let ghost head = out@;
    let pad = width - id.len();
    let mut i: usize = 0;
    while i < pad
        invariant
            i <= pad,
            out@ == head + Seq::new(i as nat, |j: int| 32u8),
        decreases pad - i,
    {
        out.push(32u8);
        i = i + 1;
        assert(out@ =~= head + Seq::new(i as nat, |j: int| 32u8));
    }
    let mut tail = desc_shown;
    out.append(&mut tail);
    out
}

/// A file search result row: the package identifier left-aligned in a column of `width`
/// characters (`{:width$}` formatting: no padding once the identifier is that wide), then the
/// path as shown (highlighted where it matched).
pub fn provides_row(id: &str, width: usize, path_shown: Vec<u8>) -> (r: Vec<u8>)
    ensures
        r@ == id.spec_bytes() + Seq::new(
            (if id@.len() < width {
                width - id@.len()
            } else {
                0
            }) as nat,
            |i: int| 32u8,
        ) + path_shown@,
{
    let chars = crate::text::str_to_chars(id);
    let pad: usize = if chars.len() < width {
        width - chars.len()
    } else {
        0
    };
    let bytes = id.as_bytes();
    let mut out: Vec<u8> = Vec::new();
    push_bytes(&mut out, bytes, 0, bytes.len());
    assert(bytes@.subrange(0, bytes@.len() as int) =~= bytes@);
    let ghost head = out@;
    let mut i: usize = 0;
    while i < pad
        invariant
            i <= pad,
            out@ == head + Seq::new(i as nat, |j: int| 32u8),
        decreases pad - i,
    {
        out.push(32u8);
        i = i + 1;
        assert(out@ =~= head + Seq::new(i as nat, |j: int| 32u8));
    }
    let mut tail = path_shown;
    out.append(&mut tail);
    out
}

/// Highlighting from `cur` on with empty markers leaves the text from `cur` as it is.
proof fn lemma_unmarked_highlight(text: Seq<u8>, spans: Seq<(usize, usize)>, cur: int)
    requires
        ordered_spans(spans, text.len() as int),
        0 <= cur <= text.len(),
        spans.len() > 0 ==> cur <= spans[0].0,
    ensures
        highlighted(text, spans, Seq::empty(), Seq::empty(), cur) == text.subrange(
            cur,
            text.len() as int,
        ),
    decreases spans.len(),
{
    if spans.len() > 0 {
        let (s, e) = spans[0];
        let rest = spans.drop_first();
        assert(ordered_spans(rest, text.len() as int)) by {
            assert forall|k: int| 0 <= k < rest.len() implies (#[trigger] rest[k]).0 <= rest[k].1
                <= text.len() by {
                assert(rest[k] == spans[k + 1]);
            }
            assert forall|k: int| 0 <= k < rest.len() - 1 implies (#[trigger] rest[k]).1 <= rest[k
                + 1].0 by {
                assert(rest[k] == spans[k + 1]);
                assert(rest[k + 1] == spans[k + 2]);
            }
        }
        if rest.len() > 0 {
            assert(rest[0] == spans[1]);
            assert(spans[0].1 <= spans[1].0);
        }
        lemma_unmarked_highlight(text, rest, e as int);
        assert(text.subrange(cur, s as int) + Seq::<u8>::empty() + text.subrange(s as int, e as int)
            + Seq::<u8>::empty() + text.subrange(e as int, text.len() as int) =~= text.subrange(
            cur,
            text.len() as int,
        ));
    }
}

/// With colors off the markers are empty, and highlighting gives back the text unchanged.
pub proof fn lemma_highlight_without_color_is_text(text: Seq<u8>, spans: Seq<(usize, usize)>)
    requires
        ordered_spans(spans, text.len() as int),
    ensures
        highlighted(text, spans, Seq::empty(), Seq::empty(), 0) == text,
{
    lemma_unmarked_highlight(text, spans, 0);
    assert(text.subrange(0, text.len() as int) =~= text);
}

/// Highlighting wraps every match, and only the matches: the text comes out whole, with one
/// `on` and one `off` added for each span.
pub proof fn lemma_highlight_wraps_every_span(
    text: Seq<u8>,
    spans: Seq<(usize, usize)>,
    on: Seq<u8>,
    off: Seq<u8>,
    cur: int,
)
    requires
        ordered_spans(spans, text.len() as int),
        0 <= cur <= text.len(),
        spans.len() > 0 ==> cur <= spans[0].0,
    ensures
        highlighted(text, spans, on, off, cur).len() == (text.len() - cur) + spans.len() * (on.len()
            + off.len()),
        on.len() == 0 && off.len() == 0 ==> highlighted(text, spans, on, off, cur) == text.subrange(
            cur,
            text.len() as int,
        ),
    decreases spans.len(),
{
    if spans.len() > 0 {
        let rest = spans.drop_first();
        let e = spans[0].1 as int;
        assert(ordered_spans(rest, text.len() as int)) by {
            assert forall|k: int| 0 <= k < rest.len() implies (#[trigger] rest[k]).0 <= rest[k].1
                <= text.len() by {
                assert(rest[k] == spans[k + 1]);
            }
            assert forall|k: int| 0 <= k < rest.len() - 1 implies (#[trigger] rest[k]).1
                <= rest[k + 1].0 by {
                assert(rest[k] == spans[k + 1]);
                assert(rest[k + 1] == spans[k + 2]);
            }
        }
        if rest.len() > 0 {
            assert(spans[0].1 <= spans[1].0);
        }
        lemma_highlight_wraps_every_span(text, rest, on, off, e);
        let n = rest.len() as int;
        let w = (on.len() + off.len()) as int;
        assert((n + 1) * w == n * w + w) by (nonlinear_arith);
        if on.len() == 0 && off.len() == 0 {
            assert(text.subrange(cur, spans[0].0 as int) + on + text.subrange(spans[0].0 as int, e)
                + off + text.subrange(e, text.len() as int) =~= text.subrange(cur, text.len() as int));
        }
    }
}

} // verus!
