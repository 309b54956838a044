//! Character-level string helpers shared by the parsers.
use vstd::prelude::*;
use vstd::std_specs::iter::IteratorSpec;

verus! {

/// Appends one character to a `String` (std `String::push`).
///
/// Trusted: the new contents are the old contents followed by `c`, as std documents.
#[verifier::external_body]
pub fn string_push(s: &mut String, c: char)
    ensures
        final(s)@ == old(s)@.push(c),
{
    s.push(c);
}

/// The characters of a string slice, in order.
pub fn str_to_chars(s: &str) -> (out: Vec<char>)
    ensures
        out@ == s@,
{
    let mut out: Vec<char> = Vec::new();
    let chars = s.chars();
    for c in it: chars
        invariant
            out@ == it.seq().take(it.index() as int),
            it.seq() == s@,
    {
        out.push(c);
    }
    out
}

/// The characters of `a`, then those of `b`, as a `String`.
pub fn concat2(a: &str, b: &str) -> (r: String)
    ensures
        r@ == a@ + b@,
{
    let mut all = str_to_chars(a);
    let mut end = str_to_chars(b);
    all.append(&mut end);
    chars_to_string(all.as_slice())
}

/// The characters of `a`, then those of `b`, then those of `c`, as a `String`.
pub fn concat3(a: &str, b: &str, c: &str) -> (r: String)
    ensures
        r@ == a@ + b@ + c@,
{
    let mut all = str_to_chars(a);
    let mut mid = str_to_chars(b);
    let mut end = str_to_chars(c);
    all.append(&mut mid);
    all.append(&mut end);
    chars_to_string(all.as_slice())
}

/// Builds a `String` holding exactly the given characters.
pub fn chars_to_string(cs: &[char]) -> (out: String)
    ensures
        out@ == cs@,
{
    let mut out = String::new();
    let mut i: usize = 0;
    while i < cs.len()
        invariant
            i <= cs.len(),
            out@ == cs@.take(i as int),
        decreases cs.len() - i,
    {
        string_push(&mut out, cs[i]);
        i = i + 1;
        assert(out@ =~= cs@.take(i as int));
    }
    assert(cs@.take(cs.len() as int) =~= cs@);
    out
}

} // verus!

verus! {

/// The pieces of `s` between characters satisfying `is_sep`, in order.  There is always at
/// least one piece.
pub open spec fn split_by(s: Seq<char>, is_sep: spec_fn(char) -> bool) -> Seq<Seq<char>>
    decreases s.len(),
{
    if s.len() == 0 {
        seq![Seq::<char>::empty()]
    } else {
        let rest = split_by(s.drop_first(), is_sep);
        if is_sep(s[0]) {
            seq![Seq::<char>::empty()] + rest
        } else {
            rest.update(0, seq![s[0]] + rest[0])
        }
    }
}

/// The pieces of `s` between occurrences of `sep`, in order (as `str::split` with a single
/// character).  There is always at least one piece.
pub open spec fn split_on(s: Seq<char>, sep: char) -> Seq<Seq<char>> {
    split_by(s, is_char(sep))
}

/// The predicate "is the character `sep`".
pub open spec fn is_char(sep: char) -> spec_fn(char) -> bool {
    |c: char| c == sep
}

/// Joins pieces with `sep` between consecutive pieces.
pub open spec fn join_with(parts: Seq<Seq<char>>, sep: char) -> Seq<char>
    decreases parts.len(),
{
    if parts.len() <= 1 {
        if parts.len() == 0 { Seq::empty() } else { parts[0] }
    } else {
        parts[0] + seq![sep] + join_with(parts.drop_first(), sep)
    }
}

/// A split always has at least one piece.
pub proof fn lemma_split_by_nonempty(s: Seq<char>, is_sep: spec_fn(char) -> bool)
    ensures
        split_by(s, is_sep).len() >= 1,
    decreases s.len(),
{
    if s.len() > 0 {
        lemma_split_by_nonempty(s.drop_first(), is_sep);
    }
}

/// A split at a character always has at least one piece.
pub proof fn lemma_split_nonempty(s: Seq<char>, sep: char)
    ensures
        split_on(s, sep).len() >= 1,
{
    lemma_split_by_nonempty(s, is_char(sep));
}

/// Splitting and joining again gives back the text that was split.
pub proof fn lemma_join_split(s: Seq<char>, sep: char)
    ensures
        join_with(split_on(s, sep), sep) == s,
    decreases s.len(),
{
    if s.len() > 0 {
        let rest = split_on(s.drop_first(), sep);
        lemma_split_nonempty(s.drop_first(), sep);
        lemma_join_split(s.drop_first(), sep);
        if s[0] == sep {
            let parts = seq![Seq::<char>::empty()] + rest;
            assert(split_on(s, sep) == parts);
            assert(parts.drop_first() =~= rest);
            assert(s =~= Seq::<char>::empty() + seq![sep] + s.drop_first());
        } else {
            let parts = rest.update(0, seq![s[0]] + rest[0]);
            assert(split_on(s, sep) == parts);
            if rest.len() == 1 {
                assert(s =~= seq![s[0]] + s.drop_first());
            } else {
                assert(parts.drop_first() =~= rest.drop_first());
                assert(join_with(rest, sep) == rest[0] + seq![sep] + join_with(rest.drop_first(), sep));
                assert(s =~= seq![s[0]] + s.drop_first());
                assert(s =~= seq![s[0]] + rest[0] + seq![sep] + join_with(rest.drop_first(), sep));
            }
        }
    }
}

/// Two texts with the same pieces are the same text.
pub proof fn lemma_split_injective(s: Seq<char>, t: Seq<char>, sep: char)
    requires
        split_on(s, sep) == split_on(t, sep),
    ensures
        s == t,
{
    lemma_join_split(s, sep);
    lemma_join_split(t, sep);
}

/// A text without separators is a single piece.
pub proof fn lemma_split_by_no_sep(s: Seq<char>, is_sep: spec_fn(char) -> bool)
    requires
        forall|i: int| 0 <= i < s.len() ==> !is_sep(#[trigger] s[i]),
    ensures
        split_by(s, is_sep) == seq![s],
    decreases s.len(),
{
    if s.len() > 0 {
        assert(!is_sep(s[0]));
        lemma_split_by_no_sep(s.drop_first(), is_sep);
        assert(seq![s[0]] + s.drop_first() =~= s);
    } else {
        assert(s =~= Seq::<char>::empty());
    }
}

/// A text without the separator is a single piece.
pub proof fn lemma_split_no_sep(s: Seq<char>, sep: char)
    requires
        !s.contains(sep),
    ensures
        split_on(s, sep) == seq![s],
{
    assert forall|i: int| 0 <= i < s.len() implies !is_char(sep)(#[trigger] s[i]) by {
        if s[i] == sep {
            assert(s.contains(sep));
        }
    }
    lemma_split_by_no_sep(s, is_char(sep));
}

/// Splitting a text glued around one separator splits each side.
pub proof fn lemma_split_by_concat(p: Seq<char>, x: char, q: Seq<char>, is_sep: spec_fn(char) -> bool)
    requires
        is_sep(x),
    ensures
        split_by(p + seq![x] + q, is_sep) == split_by(p, is_sep) + split_by(q, is_sep),
    decreases p.len(),
{
    let s = p + seq![x] + q;
    if p.len() == 0 {
        assert(s.drop_first() =~= q);
        assert(s[0] == x);
    } else {
        assert(s.drop_first() =~= p.drop_first() + seq![x] + q);
        assert(s[0] == p[0]);
        lemma_split_by_concat(p.drop_first(), x, q, is_sep);
        lemma_split_by_nonempty(p.drop_first(), is_sep);
        assert(split_by(s, is_sep) =~= split_by(p, is_sep) + split_by(q, is_sep));
    }
}

/// Splitting a text glued around one separator splits each side.
pub proof fn lemma_split_concat(p: Seq<char>, q: Seq<char>, sep: char)
    ensures
        split_on(p + seq![sep] + q, sep) == split_on(p, sep) + split_on(q, sep),
{
    lemma_split_by_concat(p, sep, q, is_char(sep));
}

} // verus!

verus! {

/// The character sequences held by a vector of character vectors.
pub open spec fn nested_view(v: Seq<Vec<char>>) -> Seq<Seq<char>> {
    v.map_values(|x: Vec<char>| x@)
}

/// Splits a character sequence at every occurrence of `sep`.
pub fn split_chars(s: &[char], sep: char) -> (parts: Vec<Vec<char>>)
    ensures
        nested_view(parts@) == split_on(s@, sep),
{
    let mut parts: Vec<Vec<char>> = Vec::new();
    let mut cur: Vec<char> = Vec::new();
    let mut i: usize = 0;
    assert(cur@ + s@.skip(0) =~= s@);
    while i < s.len()
        invariant
            i <= s.len(),
            !cur@.contains(sep),
            split_on(s@, sep) == nested_view(parts@) + split_on(cur@ + s@.skip(i as int), sep),
        decreases s.len() - i,
    {
        let c = s[i];
        if c == sep {
            assert(cur@ + s@.skip(i as int) =~= cur@ + seq![sep] + s@.skip(i as int + 1));
            proof {
                lemma_split_concat(cur@, s@.skip(i as int + 1), sep);
                lemma_split_no_sep(cur@, sep);
            }
            let ghost old_parts = nested_view(parts@);
            parts.push(cur);
            assert(nested_view(parts@) =~= old_parts.push(cur@));
            cur = Vec::new();
            assert(cur@ + s@.skip(i as int + 1) =~= s@.skip(i as int + 1));
            assert(split_on(s@, sep) =~= nested_view(parts@) + split_on(cur@ + s@.skip(i as int + 1), sep));
        } else {
            let ghost old_cur = cur@;
            cur.push(c);
            assert(cur@ + s@.skip(i as int + 1) =~= old_cur + s@.skip(i as int));
            assert(!cur@.contains(sep)) by {
                if cur@.contains(sep) {
                    let k = choose|k: int| 0 <= k < cur@.len() && cur@[k] == sep;
                    if k < old_cur.len() {
                        assert(old_cur[k] == sep);
                    }
                }
            }
        }
        i = i + 1;
    }
    assert(cur@ + s@.skip(i as int) =~= cur@);
    proof {
        lemma_split_no_sep(cur@, sep);
    }
    let ghost old_parts = nested_view(parts@);
    parts.push(cur);
    assert(nested_view(parts@) =~= old_parts.push(cur@));
    assert(split_on(s@, sep) =~= nested_view(parts@));
    parts
}

} // verus!

verus! {

/// Whether two string slices hold the same characters.
pub fn str_eq(a: &str, b: &str) -> (r: bool)
    ensures
        r == (a@ == b@),
{
    a.to_owned() == b.to_owned()
}

/// Unicode `White_Space`, the set `char::is_whitespace` tests.
pub open spec fn is_whitespace(c: char) -> bool {
    let u = c as u32;
    ||| 0x09 <= u <= 0x0D
    ||| u == 0x20
    ||| u == 0x85
    ||| u == 0xA0
    ||| u == 0x1680
    ||| 0x2000 <= u <= 0x200A
    ||| u == 0x2028
    ||| u == 0x2029
    ||| u == 0x202F
    ||| u == 0x205F
    ||| u == 0x3000
}

/// ASCII whitespace as `split_ascii_whitespace` uses it: space, tab, line feed, form feed and
/// carriage return.
pub open spec fn is_ascii_whitespace(c: char) -> bool {
    c == ' ' || c == '\t' || c == '\n' || c == '\x0C' || c == '\r'
}

pub fn is_whitespace_exec(c: char) -> (r: bool)
    ensures
        r == is_whitespace(c),
{
    let u = c as u32;
    (0x09 <= u && u <= 0x0D) || u == 0x20 || u == 0x85 || u == 0xA0 || u == 0x1680 || (0x2000 <= u
        && u <= 0x200A) || u == 0x2028 || u == 0x2029 || u == 0x202F || u == 0x205F || u == 0x3000
}

/// `s` without its leading whitespace.
pub open spec fn trim_start(s: Seq<char>) -> Seq<char>
    decreases s.len(),
{
    if s.len() > 0 && is_whitespace(s[0]) {
        trim_start(s.drop_first())
    } else {
        s
    }
}

/// `s` without its trailing whitespace.
pub open spec fn trim_end(s: Seq<char>) -> Seq<char>
    decreases s.len(),
{
    if s.len() > 0 && is_whitespace(s[s.len() - 1]) {
        trim_end(s.drop_last())
    } else {
        s
    }
}

/// `s` without leading and trailing whitespace (`str::trim`).
pub open spec fn trim(s: Seq<char>) -> Seq<char> {
    trim_end(trim_start(s))
}

/// Index of the first occurrence of `c` in `s`, if any.
pub open spec fn first_index_of(s: Seq<char>, c: char) -> Option<int>
    decreases s.len(),
{
    if s.len() == 0 {
        None
    } else if s[0] == c {
        Some(0)
    } else {
        match first_index_of(s.drop_first(), c) {
            Some(i) => Some(i + 1),
            None => None,
        }
    }
}

/// The text before the first `#`, trimmed: a configuration line without its comment.
pub open spec fn strip_comment(s: Seq<char>) -> Seq<char> {
    match first_index_of(s, '#') {
        Some(i) => trim(s.take(i)),
        None => trim(s),
    }
}

/// The lines of a text as `str::lines` yields them: split at `\n`, a final empty piece dropped,
/// and one trailing `\r` removed from each line.
pub open spec fn text_lines(s: Seq<char>) -> Seq<Seq<char>> {
    let parts = split_on(s, '\n');
    let kept = if parts[parts.len() - 1].len() == 0 { parts.drop_last() } else { parts };
    kept.map_values(|l: Seq<char>| strip_cr(l))
}

/// A line without one trailing carriage return.
pub open spec fn strip_cr(l: Seq<char>) -> Seq<char> {
    if l.len() > 0 && l[l.len() - 1] == '\r' {
        l.drop_last()
    } else {
        l
    }
}

/// The predicate "is ASCII whitespace".
pub open spec fn ascii_ws() -> spec_fn(char) -> bool {
    |c: char| is_ascii_whitespace(c)
}

/// The predicate "is not empty".
pub open spec fn non_empty() -> spec_fn(Seq<char>) -> bool {
    |w: Seq<char>| w.len() > 0
}

/// The non-empty pieces between ASCII whitespace (`str::split_ascii_whitespace`).
pub open spec fn ascii_words(s: Seq<char>) -> Seq<Seq<char>> {
    split_by(s, ascii_ws()).filter(non_empty())
}

proof fn lemma_trim_start_skip(s: Seq<char>, i: int)
    requires
        0 <= i <= s.len(),
        forall|j: int| 0 <= j < i ==> is_whitespace(#[trigger] s[j]),
    ensures
        trim_start(s) == trim_start(s.skip(i)),
    decreases i,
{
    if i > 0 {
        assert(s.skip(0) =~= s);
        lemma_trim_start_skip(s.drop_first(), i - 1);
        assert(s.drop_first().skip(i - 1) =~= s.skip(i));
    } else {
        assert(s.skip(0) =~= s);
    }
}

proof fn lemma_trim_end_take(s: Seq<char>, j: int)
    requires
        0 <= j <= s.len(),
        forall|k: int| j <= k < s.len() ==> is_whitespace(#[trigger] s[k]),
    ensures
        trim_end(s) == trim_end(s.take(j)),
    decreases s.len() - j,
{
    if j < s.len() {
        assert(s.drop_last().take(j) =~= s.take(j));
        lemma_trim_end_take(s.drop_last(), j);
    } else {
        assert(s.take(j) =~= s);
    }
}

/// `s[from..to]` as a new vector.
pub fn chars_range(s: &[char], from: usize, to: usize) -> (r: Vec<char>)
    requires
        from <= to <= s@.len(),
    ensures
        r@ == s@.subrange(from as int, to as int),
{
    let mut r: Vec<char> = Vec::new();
    let mut i = from;
    while i < to
        invariant
            from <= i <= to,
            to <= s@.len(),
            r@ == s@.subrange(from as int, i as int),
        decreases to - i,
    {
        r.push(s[i]);
        i = i + 1;
        assert(r@ =~= s@.subrange(from as int, i as int));
    }
    r
}

/// `s` without trailing whitespace.
pub fn trim_chars_end(s: &[char]) -> (r: Vec<char>)
    ensures
        r@ == trim_end(s@),
{
    let mut j: usize = s.len();
    while j > 0 && is_whitespace_exec(s[j - 1])
        invariant
            j <= s@.len(),
            forall|k: int| j <= k < s@.len() ==> is_whitespace(#[trigger] s@[k]),
        decreases j,
    {
        j = j - 1;
    }
    proof {
        lemma_trim_end_take(s@, j as int);
        let u = s@.take(j as int);
        if j > 0 {
            assert(u[j - 1] == s@[j - 1]);
        }
        assert(trim_end(u) == u);
        assert(u =~= s@.subrange(0, j as int));
    }
    chars_range(s, 0, j)
}

/// `s` without leading and trailing whitespace.
pub fn trim_chars(s: &[char]) -> (r: Vec<char>)
    ensures
        r@ == trim(s@),
{
    let mut i: usize = 0;
    while i < s.len() && is_whitespace_exec(s[i])
        invariant
            i <= s@.len(),
            forall|j: int| 0 <= j < i ==> is_whitespace(#[trigger] s@[j]),
        decreases s.len() - i,
    {
        i = i + 1;
    }
    proof {
        lemma_trim_start_skip(s@, i as int);
    }
    let mut j: usize = s.len();
    while j > i && is_whitespace_exec(s[j - 1])
        invariant
            i <= j <= s@.len(),
            forall|k: int| j <= k < s@.len() ==> is_whitespace(#[trigger] s@[k]),
        decreases j,
    {
        j = j - 1;
    }
    let ghost t = s@.skip(i as int);
    if i == s.len() {
        assert(t.len() == 0);
    } else {
        assert(!is_whitespace(t[0]));
    }
    assert(trim_start(s@) == t);
    proof {
        let jt = j - i;
        assert forall|k: int| jt <= k < t.len() implies is_whitespace(#[trigger] t[k]) by {
            assert(t[k] == s@[k + i]);
        }
        lemma_trim_end_take(t, jt);
        let u = t.take(jt);
        if jt > 0 {
            assert(u[jt - 1] == s@[j - 1]);
        }
        assert(trim_end(u) == u);
        assert(u =~= s@.subrange(i as int, j as int));
    }
    chars_range(s, i, j)
}

} // verus!

verus! {

/// The words of `s`: its non-empty pieces between ASCII whitespace.
pub fn ascii_words_exec(s: &[char]) -> (words: Vec<Vec<char>>)
    ensures
        nested_view(words@) == ascii_words(s@),
{
    let mut words: Vec<Vec<char>> = Vec::new();
    let mut cur: Vec<char> = Vec::new();
    let mut i: usize = 0;
    assert(cur@ + s@.skip(0) =~= s@);
    while i < s.len()
        invariant
            i <= s.len(),
            forall|k: int| 0 <= k < cur@.len() ==> !is_ascii_whitespace(#[trigger] cur@[k]),
            ascii_words(s@) == nested_view(words@) + split_by(cur@ + s@.skip(i as int), ascii_ws()).filter(non_empty()),
        decreases s.len() - i,
    {
        let c = s[i];
        if c == ' ' || c == '\t' || c == '\n' || c == '\x0C' || c == '\r' {
            proof {
                assert(cur@ + s@.skip(i as int) =~= cur@ + seq![c] + s@.skip(i as int + 1));
                lemma_split_by_concat(cur@, c, s@.skip(i as int + 1), ascii_ws());
                lemma_split_by_no_sep(cur@, ascii_ws());
                Seq::filter_distributes_over_add(
                    seq![cur@],
                    split_by(s@.skip(i as int + 1), ascii_ws()),
                    non_empty(),
                );
                reveal_with_fuel(Seq::filter, 2);
                assert(seq![cur@].drop_last() =~= Seq::<Seq<char>>::empty());
                assert(seq![cur@].last() == cur@);
                assert(Seq::<Seq<char>>::empty().filter(non_empty()) =~= Seq::<Seq<char>>::empty());
                assert(Seq::<Seq<char>>::empty().push(cur@) =~= seq![cur@]);
            }
            if cur.len() > 0 {
                let ghost old_words = nested_view(words@);
                words.push(cur);
                assert(nested_view(words@) =~= old_words.push(cur@));
                assert(seq![cur@].filter(non_empty()) == seq![cur@]);
                assert(ascii_words(s@) =~= nested_view(words@) + split_by(s@.skip(i as int + 1), ascii_ws()).filter(non_empty()));
            } else {
                assert(seq![cur@].filter(non_empty()) =~= Seq::<Seq<char>>::empty());
                assert(ascii_words(s@) =~= nested_view(words@) + split_by(s@.skip(i as int + 1), ascii_ws()).filter(non_empty()));
            }
            cur = Vec::new();
            assert(cur@ + s@.skip(i as int + 1) =~= s@.skip(i as int + 1));
        } else {
            let ghost old_cur = cur@;
            cur.push(c);
            assert(cur@ + s@.skip(i as int + 1) =~= old_cur + s@.skip(i as int));
        }
        i = i + 1;
    }
    assert(cur@ + s@.skip(i as int) =~= cur@);
    proof {
        lemma_split_by_no_sep(cur@, ascii_ws());
        reveal_with_fuel(Seq::filter, 2);
        assert(seq![cur@].drop_last() =~= Seq::<Seq<char>>::empty());
        assert(Seq::<Seq<char>>::empty().filter(non_empty()) =~= Seq::<Seq<char>>::empty());
        assert(Seq::<Seq<char>>::empty().push(cur@) =~= seq![cur@]);
    }
    if cur.len() > 0 {
        let ghost old_words = nested_view(words@);
        words.push(cur);
        assert(nested_view(words@) =~= old_words.push(cur@));
        assert(seq![cur@].filter(non_empty()) == seq![cur@]);
        assert(ascii_words(s@) =~= nested_view(words@));
    } else {
        assert(seq![cur@].filter(non_empty()) =~= Seq::<Seq<char>>::empty());
        assert(ascii_words(s@) =~= nested_view(words@));
    }
    words
}

} // verus!

verus! {

proof fn lemma_first_index_of(s: Seq<char>, c: char, i: int)
    requires
        0 <= i <= s.len(),
        forall|j: int| 0 <= j < i ==> s[j] != c,
    ensures
        i < s.len() && s[i] == c ==> first_index_of(s, c) == Some(i),
        i == s.len() ==> first_index_of(s, c) is None,
    decreases i,
{
    if i > 0 {
        lemma_first_index_of(s.drop_first(), c, i - 1);
    }
}

/// Index of the first occurrence of `c` in `s`, if any.
pub fn find_char(s: &[char], c: char) -> (r: Option<usize>)
    ensures
        r matches Some(i) ==> first_index_of(s@, c) == Some(i as int) && i < s@.len() && s@[i as int] == c,
        r is None ==> first_index_of(s@, c) is None,
{
    let mut i: usize = 0;
    while i < s.len()
        invariant
            i <= s@.len(),
            forall|j: int| 0 <= j < i ==> s@[j] != c,
        decreases s.len() - i,
    {
        if s[i] == c {
            proof {
                lemma_first_index_of(s@, c, i as int);
            }
            return Some(i);
        }
        i = i + 1;
    }
    proof {
        lemma_first_index_of(s@, c, i as int);
    }
    None
}

/// A configuration line without its `#` comment and surrounding whitespace.
pub fn strip_comment_chars(s: &[char]) -> (r: Vec<char>)
    ensures
        r@ == strip_comment(s@),
{
    match find_char(s, '#') {
        Some(i) => {
            let before = chars_range(s, 0, i);
            assert(before@ =~= s@.take(i as int));
            trim_chars(&before)
        },
        None => trim_chars(s),
    }
}

/// The lines of a text, as `str::lines` yields them.
pub fn text_lines_exec(s: &[char]) -> (lines: Vec<Vec<char>>)
    ensures
        nested_view(lines@) == text_lines(s@),
{
    let mut parts = split_chars(s, '\n');
    proof {
        lemma_split_nonempty(s@, '\n');
    }
    let ghost all = nested_view(parts@);
    let n = parts.len();
    if parts[n - 1].len() == 0 {
        parts.pop();
        assert(nested_view(parts@) =~= all.drop_last());
    } else {
        assert(nested_view(parts@) =~= all);
    }
    let ghost kept = nested_view(parts@);
    let mut lines: Vec<Vec<char>> = Vec::new();
    let mut i: usize = 0;
    while i < parts.len()
        invariant
            i <= parts@.len(),
            kept == nested_view(parts@),
            nested_view(lines@) == kept.take(i as int).map_values(|l: Seq<char>| strip_cr(l)),
        decreases parts.len() - i,
    {
        let line = &parts[i];
        let m = line.len();
        let stripped = if m > 0 && line[m - 1] == '\r' {
            chars_range(line.as_slice(), 0, m - 1)
        } else {
            chars_range(line.as_slice(), 0, m)
        };
        assert(kept[i as int] == line@);
        assert(stripped@ =~= strip_cr(line@));
        let ghost old_lines = nested_view(lines@);
        lines.push(stripped);
        assert(nested_view(lines@) =~= old_lines.push(stripped@));
        i = i + 1;
        assert(nested_view(lines@) =~= kept.take(i as int).map_values(|l: Seq<char>| strip_cr(l)));
    }
    assert(kept.take(parts@.len() as int) =~= kept);
    lines
}

} // verus!

verus! {

pub open spec fn is_digit(c: char) -> bool {
    48 <= (c as u32) <= 57
}

/// The value of a string of decimal digits.
pub open spec fn digits_value(s: Seq<char>) -> int
    decreases s.len(),
{
    if s.len() == 0 {
        0
    } else {
        digits_value(s.drop_last()) * 10 + ((s[s.len() - 1] as u32) - 48)
    }
}

/// What `str::parse::<u32>` yields: an optional `+`, then one or more decimal digits whose value
/// fits in a `u32`.
pub open spec fn parse_u32(s: Seq<char>) -> Option<u32> {
    let d = without_plus(s);
    if d.len() > 0 && all_digits(d) && digits_value(d) <= u32::MAX {
        Some(digits_value(d) as u32)
    } else {
        None
    }
}

/// `s` without one leading `+`.
pub open spec fn without_plus(s: Seq<char>) -> Seq<char> {
    if s.len() > 0 && s[0] == '+' { s.drop_first() } else { s }
}

pub open spec fn all_digits(d: Seq<char>) -> bool {
    forall|i: int| 0 <= i < d.len() ==> is_digit(#[trigger] d[i])
}

proof fn lemma_digits_value_monotone(s: Seq<char>, k: int)
    requires
        0 <= k <= s.len(),
        forall|i: int| 0 <= i < s.len() ==> is_digit(#[trigger] s[i]),
    ensures
        0 <= digits_value(s.take(k)) <= digits_value(s),
    decreases s.len(),
{
    if s.len() > 0 {
        if k == s.len() {
            assert(s.take(k) =~= s);
            lemma_digits_value_monotone(s.drop_last(), k - 1);
            assert(s.drop_last().take(k - 1) =~= s.drop_last());
        } else {
            lemma_digits_value_monotone(s.drop_last(), k);
            assert(s.drop_last().take(k) =~= s.take(k));
            lemma_digits_value_monotone(s.drop_last(), s.len() - 1);
            assert(s.drop_last().take(s.len() - 1) =~= s.drop_last());
        }
    } else {
        assert(s.take(k) =~= s);
    }
}

/// Parses a decimal `u32` as `str::parse::<u32>` does.
pub fn parse_u32_exec(s: &[char]) -> (r: Option<u32>)
    ensures
        r == parse_u32(s@),
{
    let start: usize = if s.len() > 0 && s[0] == '+' { 1 } else { 0 };
    let ghost d = without_plus(s@);
    assert(d =~= s@.skip(start as int));
    if start == s.len() {
        return None;
    }
    let mut i: usize = start;
    while i < s.len()
        invariant
            start <= i <= s@.len(),
            d == s@.skip(start as int),
            d == without_plus(s@),
            forall|j: int| 0 <= j < i - start ==> is_digit(#[trigger] d[j]),
        decreases s.len() - i,
    {
        let u = s[i] as u32;
        assert(d[i - start] == s@[i as int]);
        if u < 48 || u > 57 {
            assert(!is_digit(d[i - start]));
            assert(!all_digits(d));
            assert(without_plus(s@) == d);
            assert(!all_digits(without_plus(s@)));
            assert(parse_u32(s@) is None);
            return None;
        }
        i = i + 1;
    }
    let mut acc: u64 = 0;
    let mut k: usize = start;
    assert(d.take(0) =~= Seq::<char>::empty());
    while k < s.len()
        invariant
            start <= k <= s@.len(),
            d == s@.skip(start as int),
            d == without_plus(s@),
            forall|j: int| 0 <= j < d.len() ==> is_digit(#[trigger] d[j]),
            acc == digits_value(d.take(k - start)),
            acc <= u32::MAX,
        decreases s.len() - k,
    {
        assert(d[k - start] == s@[k as int]);
        assert(is_digit(d[k - start]));
        let digit = (s[k] as u32 - 48) as u64;
        assert(d.take(k - start + 1).drop_last() =~= d.take(k - start));
        assert(d.take(k - start + 1)[k - start] == s@[k as int]);
        assert(digits_value(d.take(k - start + 1)) == digits_value(d.take(k - start)) * 10 + digit);
        acc = acc * 10 + digit;
        k = k + 1;
        if acc > 4294967295 {
            proof {
                lemma_digits_value_monotone(d, k - start);
            }
            assert(parse_u32(s@) is None);
            return None;
        }
    }
    assert(d.take(d.len() as int) =~= d);
    Some(acc as u32)
}

} // verus!

verus! {

/// What [trim_start] leaves is a suffix of the text, not starting with whitespace.
proof fn lemma_trim_start_suffix(s: Seq<char>)
    ensures
        exists|k: int| 0 <= k <= s.len() && trim_start(s) == s.skip(k),
        trim_start(s).len() > 0 ==> !is_whitespace(trim_start(s)[0]),
    decreases s.len(),
{
    if s.len() > 0 && is_whitespace(s[0]) {
        lemma_trim_start_suffix(s.drop_first());
        let k = choose|k: int| 0 <= k <= s.drop_first().len() && trim_start(s.drop_first())
            == s.drop_first().skip(k);
        assert(s.drop_first().skip(k) =~= s.skip(k + 1));
    } else {
        assert(s.skip(0) =~= s);
    }
}

/// What [trim_end] leaves is a prefix of the text, not ending with whitespace.
pub proof fn lemma_trim_end_prefix(s: Seq<char>)
    ensures
        exists|k: int| 0 <= k <= s.len() && trim_end(s) == s.take(k),
        trim_end(s).len() > 0 ==> !is_whitespace(trim_end(s)[trim_end(s).len() - 1]),
    decreases s.len(),
{
    if s.len() > 0 && is_whitespace(s[s.len() - 1]) {
        lemma_trim_end_prefix(s.drop_last());
        let k = choose|k: int| 0 <= k <= s.drop_last().len() && trim_end(s.drop_last())
            == s.drop_last().take(k);
        assert(s.drop_last().take(k) =~= s.take(k));
    } else {
        assert(s.take(s.len() as int) =~= s);
    }
}

/// What [trim] leaves is a piece of the text, with no whitespace at either end; trimming it
/// again changes nothing.
proof fn lemma_trim_piece(s: Seq<char>)
    ensures
        exists|i: int, j: int| 0 <= i <= j <= s.len() && trim(s) == s.subrange(i, j),
        trim(trim(s)) == trim(s),
{
    let a = trim_start(s);
    lemma_trim_start_suffix(s);
    lemma_trim_end_prefix(a);
    let i = choose|k: int| 0 <= k <= s.len() && a == s.skip(k);
    let j = choose|k: int| 0 <= k <= a.len() && trim_end(a) == a.take(k);
    assert(trim(s) =~= s.subrange(i, i + j));
    let t = trim(s);
    if t.len() > 0 {
        assert(t[0] == a[0]);
    }
    assert(trim_start(t) == t);
    assert(trim_end(t) == t);
}

/// Whether a character occurs in a text.
proof fn lemma_piece_chars(s: Seq<char>, i: int, j: int, c: char)
    requires
        0 <= i <= j <= s.len(),
        !s.contains(c),
    ensures
        !s.subrange(i, j).contains(c),
{
    if s.subrange(i, j).contains(c) {
        let k = choose|k: int| 0 <= k < s.subrange(i, j).len() && s.subrange(i, j)[k] == c;
        assert(s[i + k] == c);
    }
}

/// The text before the first occurrence of `c` holds no `c`.
proof fn lemma_before_first_index(s: Seq<char>, c: char)
    ensures
        match first_index_of(s, c) {
            Some(i) => 0 <= i < s.len() && s[i] == c && !s.take(i).contains(c),
            None => !s.contains(c),
        },
    decreases s.len(),
{
    if s.len() > 0 {
        lemma_before_first_index(s.drop_first(), c);
        if s[0] != c {
            match first_index_of(s.drop_first(), c) {
                Some(i) => {
                    if s.take(i + 1).contains(c) {
                        let k = choose|k: int| 0 <= k < i + 1 && #[trigger] s.take(i + 1)[k] == c;
                        assert(s.drop_first().take(i)[k - 1] == c);
                    }
                },
                None => {
                    if s.contains(c) {
                        let k = choose|k: int| 0 <= k < s.len() && s[k] == c;
                        assert(s.drop_first()[k - 1] == c);
                    }
                },
            }
        } else {
            assert(s.take(0) =~= Seq::<char>::empty());
        }
    }
}

/// Removing a comment is done once for all: the result has no comment left to remove, and
/// holds no character the line did not hold.
pub proof fn lemma_strip_comment_idempotent(l: Seq<char>, c: char)
    ensures
        strip_comment(strip_comment(l)) == strip_comment(l),
        !l.contains(c) ==> !strip_comment(l).contains(c),
{
    lemma_before_first_index(l, '#');
    let x = match first_index_of(l, '#') {
        Some(i) => l.take(i),
        None => l,
    };
    assert(strip_comment(l) == trim(x));
    lemma_trim_piece(x);
    let (i, j) = choose|i: int, j: int| 0 <= i <= j <= x.len() && trim(x) == x.subrange(i, j);
    assert(!x.contains('#'));
    lemma_piece_chars(x, i, j, '#');
    let y = trim(x);
    lemma_before_first_index(y, '#');
    if let Some(k) = first_index_of(y, '#') {
        assert(y.contains('#'));
    }
    assert(strip_comment(y) == trim(y));
    if !l.contains(c) {
        if x.contains(c) {
            let k = choose|k: int| 0 <= k < x.len() && x[k] == c;
            assert(l[k] == c);
        }
        lemma_piece_chars(x, i, j, c);
    }
}

/// No piece of a split holds a separator.
pub proof fn lemma_split_by_pieces(s: Seq<char>, is_sep: spec_fn(char) -> bool)
    ensures
        forall|i: int, k: int|
            0 <= i < split_by(s, is_sep).len() && 0 <= k < split_by(s, is_sep)[i].len()
                ==> !is_sep(#[trigger] split_by(s, is_sep)[i][k]),
    decreases s.len(),
{
    if s.len() > 0 {
        lemma_split_by_pieces(s.drop_first(), is_sep);
        lemma_split_by_nonempty(s.drop_first(), is_sep);
        let rest = split_by(s.drop_first(), is_sep);
        if !is_sep(s[0]) {
            let first = seq![s[0]] + rest[0];
            assert forall|k: int| 0 <= k < first.len() implies !is_sep(#[trigger] first[k]) by {
                if k > 0 {
                    assert(first[k] == rest[0][k - 1]);
                }
            }
        }
    }
}

/// No line of a text holds a line break.
pub proof fn lemma_text_lines_unbroken(s: Seq<char>)
    ensures
        forall|i: int| 0 <= i < text_lines(s).len() ==> !(#[trigger] text_lines(s)[i]).contains('\n'),
{
    let parts = split_on(s, '\n');
    lemma_split_by_pieces(s, is_char('\n'));
    lemma_split_by_nonempty(s, is_char('\n'));
    let kept = if parts[parts.len() - 1].len() == 0 { parts.drop_last() } else { parts };
    assert forall|i: int| 0 <= i < text_lines(s).len() implies !(#[trigger] text_lines(s)[i]).contains('\n') by {
        let p = kept[i];
        assert(p == parts[i]);
        if text_lines(s)[i].contains('\n') {
            let k = choose|k: int| 0 <= k < text_lines(s)[i].len() && text_lines(s)[i][k] == '\n';
            assert(p[k] == '\n');
            assert(!is_char('\n')(parts[i][k]));
        }
    }
}

/// Leading whitespace is what [trim_start] removes.
proof fn lemma_trim_start_removes_leading_whitespace(s: Seq<char>)
    ensures
        exists|i: int|
            0 <= i <= s.len() && trim_start(s) == s.skip(i) && (forall|k: int|
                0 <= k < i ==> is_whitespace(#[trigger] s[k])) && (i < s.len() ==> !is_whitespace(
                s[i],
            )),
    decreases s.len(),
{
    if s.len() > 0 && is_whitespace(s[0]) {
        lemma_trim_start_removes_leading_whitespace(s.drop_first());
        let t = s.drop_first();
        let i = choose|i: int|
            0 <= i <= t.len() && trim_start(t) == t.skip(i) && (forall|k: int|
                0 <= k < i ==> is_whitespace(#[trigger] t[k])) && (i < t.len() ==> !is_whitespace(
                t[i],
            ));
        assert(t.skip(i) =~= s.skip(i + 1));
        assert forall|k: int| 0 <= k < i + 1 implies is_whitespace(#[trigger] s[k]) by {
            if k > 0 {
                assert(s[k] == t[k - 1]);
            }
        }
        if i + 1 < s.len() {
            assert(s[i + 1] == t[i]);
        }
    } else {
        assert(s.skip(0) =~= s);
    }
}

/// Trailing whitespace is what [trim_end] removes.
proof fn lemma_trim_end_removes_trailing_whitespace(s: Seq<char>)
    ensures
        exists|j: int|
            0 <= j <= s.len() && trim_end(s) == s.take(j) && (forall|k: int|
                j <= k < s.len() ==> is_whitespace(#[trigger] s[k])) && (j > 0 ==> !is_whitespace(
                s[j - 1],
            )),
    decreases s.len(),
{
    if s.len() > 0 && is_whitespace(s[s.len() - 1]) {
        lemma_trim_end_removes_trailing_whitespace(s.drop_last());
        let t = s.drop_last();
        let j = choose|j: int|
            0 <= j <= t.len() && trim_end(t) == t.take(j) && (forall|k: int|
                j <= k < t.len() ==> is_whitespace(#[trigger] t[k])) && (j > 0 ==> !is_whitespace(
                t[j - 1],
            ));
        assert(t.take(j) =~= s.take(j));
        assert forall|k: int| j <= k < s.len() implies is_whitespace(#[trigger] s[k]) by {
            if k < s.len() - 1 {
                assert(s[k] == t[k]);
            }
        }
        if j > 0 {
            assert(s[j - 1] == t[j - 1]);
        }
    } else {
        assert(s.take(s.len() as int) =~= s);
    }
}

/// Trimming keeps the piece of the text between its leading and its trailing whitespace: what
/// is cut off at either end is whitespace, and what is kept neither starts nor ends with it.
pub proof fn lemma_trim_keeps_the_inner_piece(s: Seq<char>)
    ensures
        exists|i: int, j: int|
            0 <= i <= j <= s.len() && trim(s) == s.subrange(i, j) && (forall|k: int|
                0 <= k < i ==> is_whitespace(#[trigger] s[k])) && (forall|k: int|
                j <= k < s.len() ==> is_whitespace(#[trigger] s[k])) && (i < j ==> !is_whitespace(
                s[i]) && !is_whitespace(s[j - 1])),
{
    lemma_trim_start_removes_leading_whitespace(s);
    let i = choose|i: int|
        0 <= i <= s.len() && trim_start(s) == s.skip(i) && (forall|k: int|
            0 <= k < i ==> is_whitespace(#[trigger] s[k])) && (i < s.len() ==> !is_whitespace(s[i]));
    let a = s.skip(i);
    lemma_trim_end_removes_trailing_whitespace(a);
    let m = choose|j: int|
        0 <= j <= a.len() && trim_end(a) == a.take(j) && (forall|k: int|
            j <= k < a.len() ==> is_whitespace(#[trigger] a[k])) && (j > 0 ==> !is_whitespace(
            a[j - 1],
        ));
    let j = i + m;
    assert(trim(s) =~= s.subrange(i, j));
    assert forall|k: int| j <= k < s.len() implies is_whitespace(#[trigger] s[k]) by {
        assert(s[k] == a[k - i]);
    }
    if i < j {
        assert(s[i] == a[0]);
        assert(s[j - 1] == a[m - 1]);
    }
}

/// A configuration line without its comment is the text before its first `#` (the whole line
/// when it has none), trimmed.
pub proof fn lemma_strip_comment_cuts_at_first_hash(s: Seq<char>)
    ensures
        exists|k: int|
            #![trigger s.take(k)]
            0 <= k <= s.len() && strip_comment(s) == trim(s.take(k)) && !s.take(k).contains('#')
                && (k < s.len() ==> s[k] == '#'),
{
    lemma_before_first_index(s, '#');
    match first_index_of(s, '#') {
        Some(i) => {
            assert(strip_comment(s) == trim(s.take(i)));
            assert(0 <= i <= s.len() && strip_comment(s) == trim(s.take(i)) && !s.take(i).contains('#')
                && (i < s.len() ==> s[i] == '#'));
        },
        None => {
            let n = s.len() as int;
            assert(s.take(n) =~= s);
            assert(0 <= n <= s.len() && strip_comment(s) == trim(s.take(n)) && !s.take(n).contains('#')
                && (n < s.len() ==> s[n] == '#'));
        },
    }
}

} // verus!
