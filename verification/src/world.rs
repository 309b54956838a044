//! The world file: the packages the user asked for explicitly, one per line.
//!
//! The file's lines are kept, each with the entry it names (if any), so that saving the file
//! back keeps its comments and blank lines: lines of removed entries are dropped, lines of kept
//! entries stay as written, and new entries are appended.
use crate::text::{
    chars_to_string, first_index_of, is_whitespace, lemma_split_concat, lemma_split_no_sep,
    nested_view, split_on, str_eq, str_to_chars, strip_comment, strip_comment_chars, strip_cr,
    text_lines, text_lines_exec, trim_end, trim_start, lemma_trim_end_prefix,
    lemma_strip_comment_idempotent, lemma_text_lines_unbroken,
};
use vstd::prelude::*;

verus! {

/// A line of the world file, with the entry it names: the text before its `#` comment,
/// trimmed, unless that is empty.
pub open spec fn world_line(line: Seq<char>) -> (Seq<char>, Option<Seq<char>>) {
    let pre = strip_comment(line);
    (line, if pre.len() == 0 {
        None
    } else {
        Some(pre)
    })
}

/// The lines of a world file's text with their entries.
pub open spec fn world_contents(text: Seq<char>) -> Seq<(Seq<char>, Option<Seq<char>>)> {
    text_lines(text).map_values(|l: Seq<char>| world_line(l))
}

/// The entries named by lines, each once, in order of first appearance.
pub open spec fn line_entries(cs: Seq<(Seq<char>, Option<Seq<char>>)>) -> Seq<Seq<char>>
    decreases cs.len(),
{
    if cs.len() == 0 {
        Seq::empty()
    } else {
        let rest = line_entries(cs.drop_last());
        match cs.last().1 {
            Some(e) => if rest.contains(e) {
                rest
            } else {
                rest.push(e)
            },
            None => rest,
        }
    }
}

/// The lines kept when saving: those naming no entry and those naming a current entry.
pub open spec fn retained_lines(
    cs: Seq<(Seq<char>, Option<Seq<char>>)>,
    es: Seq<Seq<char>>,
) -> Seq<(Seq<char>, Option<Seq<char>>)>
    decreases cs.len(),
{
    if cs.len() == 0 {
        Seq::empty()
    } else {
        let rest = retained_lines(cs.drop_last(), es);
        match cs.last().1 {
            Some(e) => if es.contains(e) {
                rest.push(cs.last())
            } else {
                rest
            },
            None => rest.push(cs.last()),
        }
    }
}

/// Whether some line names the entry.
pub open spec fn names_entry(cs: Seq<(Seq<char>, Option<Seq<char>>)>, e: Seq<char>) -> bool {
    exists|i: int| 0 <= i < cs.len() && cs[i].1 == Some(e)
}

/// The lines appended when saving: one for each current entry no kept line names, in order.
pub open spec fn appended_lines(
    cs: Seq<(Seq<char>, Option<Seq<char>>)>,
    es: Seq<Seq<char>>,
) -> Seq<(Seq<char>, Option<Seq<char>>)>
    decreases es.len(),
{
    if es.len() == 0 {
        Seq::empty()
    } else {
        let rest = appended_lines(cs, es.drop_last());
        if names_entry(cs, es.last()) {
            rest
        } else {
            rest.push((es.last(), Some(es.last())))
        }
    }
}

/// The lines after saving.
pub open spec fn saved_lines(
    cs: Seq<(Seq<char>, Option<Seq<char>>)>,
    es: Seq<Seq<char>>,
) -> Seq<(Seq<char>, Option<Seq<char>>)> {
    let kept = retained_lines(cs, es);
    kept + appended_lines(kept, es)
}

/// The text of lines, each followed by a newline.
pub open spec fn lines_text(cs: Seq<(Seq<char>, Option<Seq<char>>)>) -> Seq<char>
    decreases cs.len(),
{
    if cs.len() == 0 {
        Seq::empty()
    } else {
        lines_text(cs.drop_last()) + cs.last().0 + seq!['\n']
    }
}

/// The explicitly requested packages, with the file's lines.
pub struct World {
    contents: Vec<(String, Option<String>)>,
    entries: Vec<String>,
}

/// The character view of lines with their entries.
pub open spec fn lines_view(v: Seq<(String, Option<String>)>) -> Seq<(Seq<char>, Option<Seq<char>>)> {
    v.map_values(
        |p: (String, Option<String>)|
            (p.0@, match p.1 {
                Some(e) => Some(e@),
                None => None,
            }),
    )
}

/// The character view of strings.
pub open spec fn strings_view(v: Seq<String>) -> Seq<Seq<char>> {
    v.map_values(|s: String| s@)
}

impl World {
    /// The file's lines with their entries.
    pub closed spec fn line_list(&self) -> Seq<(Seq<char>, Option<Seq<char>>)> {
        lines_view(self.contents@)
    }

    /// The entries, each once.
    pub closed spec fn entry_list(&self) -> Seq<Seq<char>> {
        strings_view(self.entries@)
    }

    /// A world without a file: no lines, no entries.
    pub fn new() -> (w: Self)
        ensures
            w.line_list() == Seq::<(Seq<char>, Option<Seq<char>>)>::empty(),
            w.entry_list() == Seq::<Seq<char>>::empty(),
    {
        let w = World { contents: Vec::new(), entries: Vec::new() };
        assert(w.line_list() =~= Seq::<(Seq<char>, Option<Seq<char>>)>::empty());
        assert(w.entry_list() =~= Seq::<Seq<char>>::empty());
        w
    }

    /// The world recorded in a world file's text: its lines, each with the entry it names, and
    /// the entries, each once.
    pub fn from_contents(text: &str) -> (w: Self)
        ensures
            w.line_list() == world_contents(text@),
            w.entry_list() == line_entries(world_contents(text@)),
    {
        let chars = str_to_chars(text);
        let lines = text_lines_exec(chars.as_slice());
        let ghost all = world_contents(text@);
        let mut w = World::new();
        let mut i: usize = 0;
        while i < lines.len()
            invariant
                i <= lines@.len(),
                nested_view(lines@) == text_lines(text@),
                all == world_contents(text@),
                w.line_list() == all.take(i as int),
                w.entry_list() == line_entries(all.take(i as int)),
            decreases lines@.len() - i,
        {
            let line = chars_to_string(lines[i].as_slice());
            let pre = strip_comment_chars(lines[i].as_slice());
            let ghost before_lines = w.line_list();
            proof {
                assert(all[i as int] == world_line(lines@[i as int]@));
                assert(all.take(i as int + 1).drop_last() =~= all.take(i as int));
                assert(all.take(i as int + 1).last() == all[i as int]);
            }
            if pre.len() == 0 {
                w.contents.push((line, None));
            } else {
                let e = chars_to_string(pre.as_slice());
                w.contents.push((line, Some(e.clone())));
                w.add_entry(e);
            }
            assert(w.line_list() =~= before_lines.push(all[i as int]));
            i = i + 1;
        }
        assert(all.take(i as int) =~= all);
        w
    }

    /// Whether the entry is recorded.
    pub fn contains_entry(&self, e: &str) -> (r: bool)
        ensures
            r == self.entry_list().contains(e@),
    {
        let mut i: usize = 0;
        while i < self.entries.len()
            invariant
                i <= self.entries@.len(),
                forall|k: int| 0 <= k < i ==> strings_view(self.entries@)[k] != e@,
            decreases self.entries@.len() - i,
        {
            if str_eq(self.entries[i].as_str(), e) {
                assert(strings_view(self.entries@)[i as int] == e@);
                return true;
            }
            i = i + 1;
        }
        false
    }

    /// Records an entry, unless it is already recorded.
    pub fn add_entry(&mut self, e: String)
        ensures
            final(self).line_list() == old(self).line_list(),
            final(self).entry_list() == if old(self).entry_list().contains(e@) {
                old(self).entry_list()
            } else {
                old(self).entry_list().push(e@)
            },
    {
        if !self.contains_entry(e.as_str()) {
            let ghost before = self.entry_list();
            self.entries.push(e);
            assert(self.entry_list() =~= before.push(e@));
        }
    }

    /// Forgets an entry; its lines are dropped when the world is saved.
    pub fn remove_entry(&mut self, e: &str)
        ensures
            final(self).line_list() == old(self).line_list(),
            final(self).entry_list() == old(self).entry_list().filter(|x: Seq<char>| x != e@),
    {
        let ghost before = self.entry_list();
        let mut kept: Vec<String> = Vec::new();
        let mut i: usize = 0;
        assert(before.take(0).filter(|x: Seq<char>| x != e@) =~= Seq::<Seq<char>>::empty());
        while i < self.entries.len()
            invariant
                i <= self.entries@.len(),
                before == strings_view(self.entries@),
                strings_view(kept@) == before.take(i as int).filter(|x: Seq<char>| x != e@),
            decreases self.entries@.len() - i,
        {
            let ghost kv = strings_view(kept@);
            assert(before.take(i as int + 1).drop_last() =~= before.take(i as int));
            assert(before.take(i as int + 1).last() == before[i as int]);
            proof {
                reveal_with_fuel(Seq::filter, 2);
            }
            if !str_eq(self.entries[i].as_str(), e) {
                kept.push(self.entries[i].clone());
                assert(strings_view(kept@) =~= kv.push(before[i as int]));
            }
            i = i + 1;
        }
        assert(before.take(i as int) =~= before);
        self.entries = kept;
    }

    /// The file's lines with the entries they name.
    pub fn contents(&self) -> (r: &Vec<(String, Option<String>)>)
        ensures
            lines_view(r@) == self.line_list(),
    {
        &self.contents
    }

    /// The recorded entries.
    pub fn entries(&self) -> (r: &Vec<String>)
        ensures
            strings_view(r@) == self.entry_list(),
    {
        &self.entries
    }

    /// Saves the world: drops the lines of entries no longer recorded, keeps every other line as
    /// written, appends a line for each recorded entry no line names, and returns the file's new
    /// text, each line followed by a newline.
    pub fn save(&mut self) -> (text: String)
        ensures
            final(self).entry_list() == old(self).entry_list(),
            final(self).line_list() == saved_lines(old(self).line_list(), old(self).entry_list()),
            text@ == lines_text(final(self).line_list()),
    {
        let ghost cs = self.line_list();
        let ghost es = self.entry_list();
        let mut kept: Vec<(String, Option<String>)> = Vec::new();
        let mut i: usize = 0;
        assert(cs.take(0) =~= Seq::<(Seq<char>, Option<Seq<char>>)>::empty());
        assert(lines_view(kept@) =~= Seq::<(Seq<char>, Option<Seq<char>>)>::empty());
        while i < self.contents.len()
            invariant
                i <= self.contents@.len(),
                cs == lines_view(self.contents@),
                es == strings_view(self.entries@),
                lines_view(kept@) == retained_lines(cs.take(i as int), es),
            decreases self.contents@.len() - i,
        {
            let ghost kv = lines_view(kept@);
            assert(cs.take(i as int + 1).drop_last() =~= cs.take(i as int));
            assert(cs.take(i as int + 1).last() == cs[i as int]);
            let keep = match &self.contents[i].1 {
                Some(e) => self.contains_entry(e.as_str()),
                None => true,
            };
            if keep {
                let line = self.contents[i].0.clone();
                let entry = match &self.contents[i].1 {
                    Some(e) => Some(e.clone()),
                    None => None,
                };
                kept.push((line, entry));
                assert(lines_view(kept@) =~= kv.push(cs[i as int]));
            }
            i = i + 1;
        }
        assert(cs.take(i as int) =~= cs);
        let ghost kept_view = lines_view(kept@);
        let mut appended: Vec<(String, Option<String>)> = Vec::new();
        let mut j: usize = 0;
        assert(es.take(0) =~= Seq::<Seq<char>>::empty());
        assert(lines_view(appended@) =~= Seq::<(Seq<char>, Option<Seq<char>>)>::empty());
        while j < self.entries.len()
            invariant
                j <= self.entries@.len(),
                es == strings_view(self.entries@),
                kept_view == lines_view(kept@),
                lines_view(appended@) == appended_lines(kept_view, es.take(j as int)),
            decreases self.entries@.len() - j,
        {
            let ghost av = lines_view(appended@);
            assert(es.take(j as int + 1).drop_last() =~= es.take(j as int));
            assert(es.take(j as int + 1).last() == es[j as int]);
            let named = names_entry_exec(&kept, self.entries[j].as_str());
            if !named {
                let e = self.entries[j].clone();
                appended.push((e.clone(), Some(e)));
                assert(lines_view(appended@) =~= av.push((es[j as int], Some(es[j as int]))));
            }
            j = j + 1;
        }
        assert(es.take(j as int) =~= es);
        let ghost av = lines_view(appended@);
        kept.append(&mut appended);
        assert(lines_view(kept@) =~= kept_view + av);
        self.contents = kept;
        lines_text_exec(&self.contents)
    }
}

/// Whether some line names the entry.
fn names_entry_exec(cs: &Vec<(String, Option<String>)>, e: &str) -> (r: bool)
    ensures
        r == names_entry(lines_view(cs@), e@),
{
    let mut i: usize = 0;
    while i < cs.len()
        invariant
            i <= cs@.len(),
            forall|k: int| 0 <= k < i ==> lines_view(cs@)[k].1 != Some(e@),
        decreases cs@.len() - i,
    {
        match &cs[i].1 {
            Some(x) => {
                if str_eq(x.as_str(), e) {
                    assert(lines_view(cs@)[i as int].1 == Some(e@));
                    return true;
                }
            },
            None => {},
        }
        i = i + 1;
    }
    false
}

/// The text of the lines, each followed by a newline.
fn lines_text_exec(cs: &Vec<(String, Option<String>)>) -> (r: String)
    ensures
        r@ == lines_text(lines_view(cs@)),
{
    let mut out: Vec<char> = Vec::new();
    let mut i: usize = 0;
    assert(lines_view(cs@).take(0) =~= Seq::<(Seq<char>, Option<Seq<char>>)>::empty());
    while i < cs.len()
        invariant
            i <= cs@.len(),
            out@ == lines_text(lines_view(cs@).take(i as int)),
        decreases cs@.len() - i,
    {
        let ghost lv = lines_view(cs@).take(i as int + 1);
        assert(lv.drop_last() =~= lines_view(cs@).take(i as int));
        assert(lv.last() == lines_view(cs@)[i as int]);
        let mut line = str_to_chars(cs[i].0.as_str());
        out.append(&mut line);
        out.push('\n');
        i = i + 1;
    }
    assert(lines_view(cs@).take(i as int) =~= lines_view(cs@));
    chars_to_string(out.as_slice())
}

/// The lines naming no entry (comments and blank lines), in order.
pub open spec fn unnamed_lines(cs: Seq<(Seq<char>, Option<Seq<char>>)>) -> Seq<Seq<char>>
    decreases cs.len(),
{
    if cs.len() == 0 {
        Seq::empty()
    } else {
        let rest = unnamed_lines(cs.drop_last());
        if cs.last().1 is None {
            rest.push(cs.last().0)
        } else {
            rest
        }
    }
}

proof fn lemma_names_entry_concat(
    a: Seq<(Seq<char>, Option<Seq<char>>)>,
    b: Seq<(Seq<char>, Option<Seq<char>>)>,
    e: Seq<char>,
)
    ensures
        names_entry(a + b, e) <==> (names_entry(a, e) || names_entry(b, e)),
{
    if names_entry(a + b, e) {
        let i = choose|i: int| 0 <= i < (a + b).len() && (a + b)[i].1 == Some(e);
        if i < a.len() {
            assert(a[i] == (a + b)[i]);
        } else {
            assert(b[i - a.len()] == (a + b)[i]);
        }
    }
    if names_entry(a, e) {
        let i = choose|i: int| 0 <= i < a.len() && a[i].1 == Some(e);
        assert((a + b)[i] == a[i]);
    }
    if names_entry(b, e) {
        let i = choose|i: int| 0 <= i < b.len() && b[i].1 == Some(e);
        assert((a + b)[a.len() + i] == b[i]);
    }
}

proof fn lemma_names_entry_push(
    a: Seq<(Seq<char>, Option<Seq<char>>)>,
    x: (Seq<char>, Option<Seq<char>>),
    e: Seq<char>,
)
    ensures
        names_entry(a.push(x), e) <==> (names_entry(a, e) || x.1 == Some(e)),
{
    lemma_names_entry_concat(a, seq![x], e);
    assert(a + seq![x] =~= a.push(x));
    if names_entry(seq![x], e) {
        let i = choose|i: int| 0 <= i < 1 && seq![x][i].1 == Some(e);
        assert(i == 0);
    }
    if x.1 == Some(e) {
        assert(seq![x][0].1 == Some(e));
    }
}

proof fn lemma_retained_named(
    cs: Seq<(Seq<char>, Option<Seq<char>>)>,
    es: Seq<Seq<char>>,
    e: Seq<char>,
)
    ensures
        names_entry(retained_lines(cs, es), e) <==> (names_entry(cs, e) && es.contains(e)),
    decreases cs.len(),
{
    if cs.len() == 0 {
    } else {
        lemma_retained_named(cs.drop_last(), es, e);
        lemma_names_entry_push(cs.drop_last(), cs.last(), e);
        assert(cs.drop_last().push(cs.last()) =~= cs);
        let rest = retained_lines(cs.drop_last(), es);
        lemma_names_entry_push(rest, cs.last(), e);
    }
}

proof fn lemma_appended_named(
    kept: Seq<(Seq<char>, Option<Seq<char>>)>,
    es: Seq<Seq<char>>,
    e: Seq<char>,
)
    ensures
        names_entry(appended_lines(kept, es), e) <==> (es.contains(e) && !names_entry(kept, e)),
    decreases es.len(),
{
    if es.len() == 0 {
    } else {
        lemma_appended_named(kept, es.drop_last(), e);
        let rest = appended_lines(kept, es.drop_last());
        lemma_names_entry_push(rest, (es.last(), Some(es.last())), e);
        assert(es.drop_last().push(es.last()) =~= es);
        if es.contains(e) && !es.drop_last().contains(e) {
            let i = choose|i: int| 0 <= i < es.len() && es[i] == e;
            if i < es.len() - 1 {
                assert(es.drop_last()[i] == e);
            }
        }
        if es.drop_last().contains(e) {
            let i = choose|i: int| 0 <= i < es.drop_last().len() && es.drop_last()[i] == e;
            assert(es[i] == e);
        }
    }
}

/// After saving, the lines name exactly the recorded entries: the lines of forgotten entries
/// are gone, and every recorded entry has a line.
pub proof fn lemma_saved_lines_name_exactly_the_entries(
    cs: Seq<(Seq<char>, Option<Seq<char>>)>,
    es: Seq<Seq<char>>,
    e: Seq<char>,
)
    ensures
        names_entry(saved_lines(cs, es), e) <==> es.contains(e),
{
    let kept = retained_lines(cs, es);
    lemma_names_entry_concat(kept, appended_lines(kept, es), e);
    lemma_retained_named(cs, es, e);
    lemma_appended_named(kept, es, e);
}

proof fn lemma_unnamed_concat(
    a: Seq<(Seq<char>, Option<Seq<char>>)>,
    b: Seq<(Seq<char>, Option<Seq<char>>)>,
)
    ensures
        unnamed_lines(a + b) == unnamed_lines(a) + unnamed_lines(b),
    decreases b.len(),
{
    if b.len() == 0 {
        assert(a + b =~= a);
        assert(unnamed_lines(a) + unnamed_lines(b) =~= unnamed_lines(a));
    } else {
        assert((a + b).drop_last() =~= a + b.drop_last());
        assert((a + b).last() == b.last());
        lemma_unnamed_concat(a, b.drop_last());
        if b.last().1 is None {
            assert(unnamed_lines(a) + unnamed_lines(b.drop_last()).push(b.last().0) =~= (
            unnamed_lines(a) + unnamed_lines(b.drop_last())).push(b.last().0));
        }
    }
}

proof fn lemma_retained_unnamed(cs: Seq<(Seq<char>, Option<Seq<char>>)>, es: Seq<Seq<char>>)
    ensures
        unnamed_lines(retained_lines(cs, es)) == unnamed_lines(cs),
    decreases cs.len(),
{
    if cs.len() > 0 {
        lemma_retained_unnamed(cs.drop_last(), es);
        let rest = retained_lines(cs.drop_last(), es);
        assert(rest.push(cs.last()).drop_last() =~= rest);
    }
}

proof fn lemma_appended_unnamed(kept: Seq<(Seq<char>, Option<Seq<char>>)>, es: Seq<Seq<char>>)
    ensures
        unnamed_lines(appended_lines(kept, es)) == Seq::<Seq<char>>::empty(),
    decreases es.len(),
{
    if es.len() > 0 {
        lemma_appended_unnamed(kept, es.drop_last());
        let rest = appended_lines(kept, es.drop_last());
        assert(rest.push((es.last(), Some(es.last()))).drop_last() =~= rest);
    }
}

/// Saving keeps every comment and blank line, as written and in order.
pub proof fn lemma_save_keeps_unnamed_lines(
    cs: Seq<(Seq<char>, Option<Seq<char>>)>,
    es: Seq<Seq<char>>,
)
    ensures
        unnamed_lines(saved_lines(cs, es)) == unnamed_lines(cs),
{
    let kept = retained_lines(cs, es);
    lemma_unnamed_concat(kept, appended_lines(kept, es));
    lemma_retained_unnamed(cs, es);
    lemma_appended_unnamed(kept, es);
    assert(unnamed_lines(cs) + Seq::<Seq<char>>::empty() =~= unnamed_lines(cs));
}

/// A line as the world file holds it: with the entry it names, without a line break, and not
/// ending in a carriage return (which reading would drop).
pub open spec fn sound_line(p: (Seq<char>, Option<Seq<char>>)) -> bool {
    &&& p == world_line(p.0)
    &&& !p.0.contains('\n')
    &&& !(p.0.len() > 0 && p.0[p.0.len() - 1] == '\r')
}

/// An entry as a line of its own names it: non-empty, without a line break, and unchanged by
/// removing comments and surrounding whitespace.
pub open spec fn world_entry(e: Seq<char>) -> bool {
    &&& e.len() > 0
    &&& !e.contains('\n')
    &&& strip_comment(e) == e
}

/// The texts of lines.
pub open spec fn line_texts(cs: Seq<(Seq<char>, Option<Seq<char>>)>) -> Seq<Seq<char>> {
    cs.map_values(|p: (Seq<char>, Option<Seq<char>>)| p.0)
}

/// Splitting the text of lines followed by a last piece `t` at line breaks gives the lines'
/// texts and then `t`.
proof fn lemma_split_lines_text(cs: Seq<(Seq<char>, Option<Seq<char>>)>, t: Seq<char>)
    requires
        forall|i: int| 0 <= i < cs.len() ==> !(#[trigger] cs[i]).0.contains('\n'),
        !t.contains('\n'),
    ensures
        split_on(lines_text(cs) + t, '\n') == line_texts(cs).push(t),
    decreases cs.len(),
{
    if cs.len() == 0 {
        assert(lines_text(cs) + t =~= t);
        lemma_split_no_sep(t, '\n');
        assert(line_texts(cs).push(t) =~= seq![t]);
    } else {
        let rest = cs.drop_last();
        let l = cs.last().0;
        assert(!cs[cs.len() - 1].0.contains('\n'));
        assert forall|i: int| 0 <= i < rest.len() implies !(#[trigger] rest[i]).0.contains('\n') by {
            assert(rest[i] == cs[i]);
        }
        lemma_split_lines_text(rest, l);
        assert(lines_text(cs) + t =~= (lines_text(rest) + l) + seq!['\n'] + t);
        lemma_split_concat(lines_text(rest) + l, t, '\n');
        lemma_split_no_sep(t, '\n');
        assert(line_texts(cs) =~= line_texts(rest).push(l));
        assert(line_texts(rest).push(l) + seq![t] =~= line_texts(cs).push(t));
    }
}

/// Reading the lines back from their text gives their texts, when no line holds a line break
/// or ends in a carriage return.
proof fn lemma_text_lines_of_lines_text(cs: Seq<(Seq<char>, Option<Seq<char>>)>)
    requires
        forall|i: int| 0 <= i < cs.len() ==> sound_line(#[trigger] cs[i]),
    ensures
        text_lines(lines_text(cs)) == line_texts(cs),
{
    assert forall|i: int| 0 <= i < cs.len() implies !(#[trigger] cs[i]).0.contains('\n') by {
        assert(sound_line(cs[i]));
    }
    assert(!Seq::<char>::empty().contains('\n'));
    lemma_split_lines_text(cs, Seq::empty());
    assert(lines_text(cs) + Seq::<char>::empty() =~= lines_text(cs));
    let parts = split_on(lines_text(cs), '\n');
    assert(parts == line_texts(cs).push(Seq::empty()));
    assert(parts.drop_last() =~= line_texts(cs));
    assert forall|i: int| 0 <= i < cs.len() implies strip_cr(#[trigger] line_texts(cs)[i])
        == line_texts(cs)[i] by {
        assert(sound_line(cs[i]));
    }
    assert(line_texts(cs).map_values(|l: Seq<char>| strip_cr(l)) =~= line_texts(cs));
}

/// Reading back the text of sound lines gives the same lines, with the same entries.
proof fn lemma_world_contents_of_lines_text(cs: Seq<(Seq<char>, Option<Seq<char>>)>)
    requires
        forall|i: int| 0 <= i < cs.len() ==> sound_line(#[trigger] cs[i]),
    ensures
        world_contents(lines_text(cs)) == cs,
{
    lemma_text_lines_of_lines_text(cs);
    assert forall|i: int| 0 <= i < cs.len() implies world_line(#[trigger] line_texts(cs)[i])
        == cs[i] by {
        assert(sound_line(cs[i]));
    }
    assert(world_contents(lines_text(cs)) =~= cs);
}

/// The line saved for a new entry names that entry and is sound.
proof fn lemma_entry_line_sound(e: Seq<char>)
    requires
        world_entry(e),
    ensures
        sound_line((e, Some(e))),
{
    let x = match first_index_of(e, '#') {
        Some(i) => e.take(i),
        None => e,
    };
    assert(strip_comment(e) == trim_end(trim_start(x)));
    lemma_trim_end_prefix(trim_start(x));
    assert(is_whitespace('\r')) by {
        assert(('\r' as u32) == 0x0D);
    }
}

/// Every kept line is one of the lines, so kept lines are sound when the lines are.
proof fn lemma_retained_sound(cs: Seq<(Seq<char>, Option<Seq<char>>)>, es: Seq<Seq<char>>)
    requires
        forall|i: int| 0 <= i < cs.len() ==> sound_line(#[trigger] cs[i]),
    ensures
        forall|i: int|
            0 <= i < retained_lines(cs, es).len() ==> sound_line(#[trigger] retained_lines(cs, es)[i]),
    decreases cs.len(),
{
    if cs.len() > 0 {
        let rest = cs.drop_last();
        assert forall|i: int| 0 <= i < rest.len() implies sound_line(#[trigger] rest[i]) by {
            assert(rest[i] == cs[i]);
        }
        lemma_retained_sound(rest, es);
        assert(sound_line(cs[cs.len() - 1]));
        let r = retained_lines(rest, es);
        assert forall|i: int| 0 <= i < r.push(cs.last()).len() implies sound_line(
            #[trigger] r.push(cs.last())[i],
        ) by {
            if i < r.len() {
                assert(r.push(cs.last())[i] == r[i]);
            }
        }
    }
}

/// Appended lines are the lines of entries, so they are sound when the entries are world
/// entries.
proof fn lemma_appended_sound(kept: Seq<(Seq<char>, Option<Seq<char>>)>, es: Seq<Seq<char>>)
    requires
        forall|k: int| 0 <= k < es.len() ==> world_entry(#[trigger] es[k]),
    ensures
        forall|i: int|
            0 <= i < appended_lines(kept, es).len() ==> sound_line(#[trigger] appended_lines(kept, es)[i]),
    decreases es.len(),
{
    if es.len() > 0 {
        let rest = es.drop_last();
        assert forall|k: int| 0 <= k < rest.len() implies world_entry(#[trigger] rest[k]) by {
            assert(rest[k] == es[k]);
        }
        lemma_appended_sound(kept, rest);
        assert(world_entry(es[es.len() - 1]));
        lemma_entry_line_sound(es.last());
        let a = appended_lines(kept, rest);
        let x = (es.last(), Some(es.last()));
        assert forall|i: int| 0 <= i < a.push(x).len() implies sound_line(#[trigger] a.push(x)[i]) by {
            if i < a.len() {
                assert(a.push(x)[i] == a[i]);
            }
        }
    }
}

/// An entry is among those the lines record exactly when a line names it.
proof fn lemma_line_entries_named(cs: Seq<(Seq<char>, Option<Seq<char>>)>, e: Seq<char>)
    ensures
        line_entries(cs).contains(e) <==> names_entry(cs, e),
    decreases cs.len(),
{
    if cs.len() > 0 {
        let rest = cs.drop_last();
        lemma_line_entries_named(rest, e);
        lemma_names_entry_push(rest, cs.last(), e);
        assert(rest.push(cs.last()) =~= cs);
        let le = line_entries(rest);
        match cs.last().1 {
            Some(x) => {
                if !le.contains(x) {
                    assert(le.push(x).contains(e) <==> (le.contains(e) || x == e)) by {
                        if le.push(x).contains(e) {
                            let k = choose|k: int| 0 <= k < le.push(x).len() && le.push(x)[k] == e;
                            if k < le.len() {
                                assert(le[k] == e);
                            }
                        }
                        if le.contains(e) {
                            let k = choose|k: int| 0 <= k < le.len() && le[k] == e;
                            assert(le.push(x)[k] == e);
                        }
                        if x == e {
                            assert(le.push(x)[le.len() as int] == e);
                        }
                    }
                } else {
                    if x == e {
                        assert(le.contains(e));
                    }
                }
            },
            None => {},
        }
    }
}

/// Reading back what a save writes: when the file's lines are sound and the entries are world
/// entries, the saved text reads back as exactly the saved lines, and the entries it records are
/// exactly the entries that were saved.
pub proof fn lemma_saved_world_reads_back(
    cs: Seq<(Seq<char>, Option<Seq<char>>)>,
    es: Seq<Seq<char>>,
    e: Seq<char>,
)
    requires
        forall|i: int| 0 <= i < cs.len() ==> sound_line(#[trigger] cs[i]),
        forall|k: int| 0 <= k < es.len() ==> world_entry(#[trigger] es[k]),
    ensures
        world_contents(lines_text(saved_lines(cs, es))) == saved_lines(cs, es),
        line_entries(world_contents(lines_text(saved_lines(cs, es)))).contains(e) <==> es.contains(e),
{
    let kept = retained_lines(cs, es);
    let added = appended_lines(kept, es);
    lemma_retained_sound(cs, es);
    lemma_appended_sound(kept, es);
    let saved = saved_lines(cs, es);
    assert forall|i: int| 0 <= i < saved.len() implies sound_line(#[trigger] saved[i]) by {
        if i < kept.len() {
            assert(saved[i] == kept[i]);
        } else {
            assert(saved[i] == added[i - kept.len()]);
        }
    }
    lemma_world_contents_of_lines_text(saved);
    lemma_line_entries_named(saved, e);
    lemma_saved_lines_name_exactly_the_entries(cs, es, e);
}

/// The lines of any world file are sound, except one ending in a carriage return (which a
/// `\r\r\n` line ending leaves), and the entries it records are world entries.
pub proof fn lemma_read_world_sound(text: Seq<char>)
    requires
        forall|i: int|
            0 <= i < text_lines(text).len() ==> !((#[trigger] text_lines(text)[i]).len() > 0
                && text_lines(text)[i][text_lines(text)[i].len() - 1] == '\r'),
    ensures
        forall|i: int|
            0 <= i < world_contents(text).len() ==> sound_line(#[trigger] world_contents(text)[i]),
        forall|k: int|
            0 <= k < line_entries(world_contents(text)).len() ==> world_entry(
                #[trigger] line_entries(world_contents(text))[k],
            ),
{
    let ls = text_lines(text);
    let cs = world_contents(text);
    lemma_text_lines_unbroken(text);
    assert forall|i: int| 0 <= i < cs.len() implies sound_line(#[trigger] cs[i]) by {
        assert(cs[i] == world_line(ls[i]));
        assert(!ls[i].contains('\n'));
    }
    assert forall|k: int| 0 <= k < line_entries(cs).len() implies world_entry(
        #[trigger] line_entries(cs)[k],
    ) by {
        let e = line_entries(cs)[k];
        assert(line_entries(cs).contains(e));
        lemma_line_entries_named(cs, e);
        let i = choose|i: int| 0 <= i < cs.len() && cs[i].1 == Some(e);
        assert(cs[i] == world_line(ls[i]));
        assert(!ls[i].contains('\n'));
        lemma_strip_comment_idempotent(ls[i], '\n');
    }
}

/// Saving keeps, in their order, exactly the lines naming no entry or a current entry; it then
/// adds a line for each current entry no kept line names, in the order of the entries.  The
/// lines naming no entry are the comment and blank lines, in order.
pub proof fn lemma_save_line_order(cs: Seq<(Seq<char>, Option<Seq<char>>)>, es: Seq<Seq<char>>)
    ensures
        retained_lines(cs, es) == cs.filter(
            |l: (Seq<char>, Option<Seq<char>>)| l.1 is None || es.contains(l.1->0),
        ),
        appended_lines(cs, es) == es.filter(|e: Seq<char>| !names_entry(cs, e)).map_values(
            |e: Seq<char>| (e, Some(e)),
        ),
        unnamed_lines(cs) == cs.filter(|l: (Seq<char>, Option<Seq<char>>)| l.1 is None).map_values(
            |l: (Seq<char>, Option<Seq<char>>)| l.0,
        ),
{
    lemma_save_line_order_retained(cs, es);
    lemma_save_line_order_appended(cs, es);
    lemma_unnamed_line_order(cs);
}

proof fn lemma_unnamed_line_order(cs: Seq<(Seq<char>, Option<Seq<char>>)>)
    ensures
        unnamed_lines(cs) == cs.filter(|l: (Seq<char>, Option<Seq<char>>)| l.1 is None).map_values(
            |l: (Seq<char>, Option<Seq<char>>)| l.0,
        ),
    decreases cs.len(),
{
    reveal(Seq::filter);
    let none = |l: (Seq<char>, Option<Seq<char>>)| l.1 is None;
    let first = |l: (Seq<char>, Option<Seq<char>>)| l.0;
    if cs.len() > 0 {
        lemma_unnamed_line_order(cs.drop_last());
        let f = cs.drop_last().filter(none);
        if none(cs.last()) {
            assert(f.push(cs.last()).map_values(first) =~= f.map_values(first).push(cs.last().0));
        }
    } else {
        assert(cs.filter(none).map_values(first) =~= Seq::<Seq<char>>::empty());
    }
}

proof fn lemma_save_line_order_retained(cs: Seq<(Seq<char>, Option<Seq<char>>)>, es: Seq<Seq<char>>)
    ensures
        retained_lines(cs, es) == cs.filter(
            |l: (Seq<char>, Option<Seq<char>>)| l.1 is None || es.contains(l.1->0),
        ),
    decreases cs.len(),
{
    reveal(Seq::filter);
    if cs.len() > 0 {
        lemma_save_line_order_retained(cs.drop_last(), es);
    }
}

proof fn lemma_save_line_order_appended(cs: Seq<(Seq<char>, Option<Seq<char>>)>, es: Seq<Seq<char>>)
    ensures
        appended_lines(cs, es) == es.filter(|e: Seq<char>| !names_entry(cs, e)).map_values(
            |e: Seq<char>| (e, Some(e)),
        ),
    decreases es.len(),
{
    reveal(Seq::filter);
    let line_of = |e: Seq<char>| (e, Some(e));
    let unnamed_entry = |e: Seq<char>| !names_entry(cs, e);
    if es.len() > 0 {
        lemma_save_line_order_appended(cs, es.drop_last());
        let f = es.drop_last().filter(unnamed_entry);
        if unnamed_entry(es.last()) {
            assert(f.push(es.last()).map_values(line_of) =~= f.map_values(line_of).push(
                (es.last(), Some(es.last())),
            ));
        }
    } else {
        assert(es.filter(unnamed_entry).map_values(line_of) =~= Seq::<(Seq<char>, Option<Seq<char>>)>::empty());
    }
}

/// The entries of a world file are the entries its lines name, each once, and nothing else.
pub proof fn lemma_line_entries_are_the_named_entries(cs: Seq<(Seq<char>, Option<Seq<char>>)>)
    ensures
        forall|e: Seq<char>| #[trigger] line_entries(cs).contains(e) <==> names_entry(cs, e),
        line_entries(cs).no_duplicates(),
    decreases cs.len(),
{
    if cs.len() > 0 {
        let a = cs.drop_last();
        lemma_line_entries_are_the_named_entries(a);
        assert(cs =~= a.push(cs.last()));
        assert forall|e: Seq<char>| #[trigger] line_entries(cs).contains(e) <==> names_entry(cs, e) by {
            lemma_names_entry_push(a, cs.last(), e);
            let rest = line_entries(a);
            if let Some(x) = cs.last().1 {
                if !rest.contains(x) {
                    if rest.push(x).contains(e) && e != x {
                        let k = choose|k: int| 0 <= k < rest.push(x).len() && rest.push(x)[k] == e;
                        assert(rest[k] == e);
                    }
                    if rest.contains(e) {
                        let k = choose|k: int| 0 <= k < rest.len() && rest[k] == e;
                        assert(rest.push(x)[k] == e);
                    }
                    assert(rest.push(x)[rest.len() as int] == x);
                }
            }
        }
    } else {
        assert forall|e: Seq<char>| #[trigger] line_entries(cs).contains(e) <==> names_entry(cs, e) by {}
    }
}

/// The text of lines is each line followed by a newline, in order.
pub proof fn lemma_lines_text_is_each_line(cs: Seq<(Seq<char>, Option<Seq<char>>)>)
    ensures
        lines_text(cs) == cs.map_values(|l: (Seq<char>, Option<Seq<char>>)| l.0 + seq!['\n']).flatten(),
    decreases cs.len(),
{
    let f = |l: (Seq<char>, Option<Seq<char>>)| l.0 + seq!['\n'];
    if cs.len() == 0 {
        assert(cs.map_values(f) =~= Seq::<Seq<char>>::empty());
    } else {
        lemma_lines_text_is_each_line(cs.drop_last());
        assert(cs.map_values(f) =~= cs.drop_last().map_values(f).push(f(cs.last())));
        cs.drop_last().map_values(f).lemma_flatten_push(f(cs.last()));
        assert(lines_text(cs) =~= cs.drop_last().map_values(f).flatten() + f(cs.last()));
    }
}

} // verus!
