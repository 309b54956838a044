//! Repository configuration: the files under `etc/bpt/repos` list repository index locations,
//! one per line, with `#` comments and blank lines ignored.
use crate::text::{chars_to_string, nested_view, str_to_chars, strip_comment, strip_comment_chars, text_lines, text_lines_exec};
use vstd::prelude::*;

verus! {

/// The entries of the lines: each line without its comment and surrounding whitespace, empty
/// ones dropped.
pub open spec fn kept_lines(lines: Seq<Seq<char>>) -> Seq<Seq<char>>
    decreases lines.len(),
{
    if lines.len() == 0 {
        Seq::empty()
    } else {
        let rest = kept_lines(lines.drop_last());
        let c = strip_comment(lines.last());
        if c.len() > 0 {
            rest.push(c)
        } else {
            rest
        }
    }
}

/// The entries of several files' contents, file after file.
pub open spec fn repo_entries(files: Seq<Seq<char>>) -> Seq<Seq<char>>
    decreases files.len(),
{
    if files.len() == 0 {
        Seq::empty()
    } else {
        repo_entries(files.drop_last()) + kept_lines(text_lines(files.last()))
    }
}

/// Repository configuration: the configured repository index locations, in order.
pub struct Repos(Vec<String>);

impl View for Repos {
    type V = Seq<Seq<char>>;

    closed spec fn view(&self) -> Seq<Seq<char>> {
        self.0@.map_values(|s: String| s@)
    }
}

impl Repos {
    /// The repositories listed in the given files' contents (in the order the files are read):
    /// one per line, without `#` comments and surrounding whitespace, blank lines skipped.
    pub fn from_file_contents(files: &[String]) -> (r: Self)
        ensures
            r@ == repo_entries(files@.map_values(|s: String| s@)),
    {
        let ghost fv = files@.map_values(|s: String| s@);
        let mut out: Vec<String> = Vec::new();
        let mut f: usize = 0;
        assert(fv.take(0) =~= Seq::<Seq<char>>::empty());
        assert(out@.map_values(|s: String| s@) =~= Seq::<Seq<char>>::empty());
        while f < files.len()
            invariant
                f <= files@.len(),
                fv == files@.map_values(|s: String| s@),
                out@.map_values(|s: String| s@) == repo_entries(fv.take(f as int)),
            decreases files@.len() - f,
        {
            let chars = str_to_chars(files[f].as_str());
            let lines = text_lines_exec(chars.as_slice());
            let ghost base = out@.map_values(|s: String| s@);
            let mut i: usize = 0;
            assert(nested_view(lines@).take(0) =~= Seq::<Seq<char>>::empty());
            assert(base + kept_lines(Seq::empty()) =~= base);
            while i < lines.len()
                invariant
                    i <= lines@.len(),
                    out@.map_values(|s: String| s@) == base + kept_lines(
                        nested_view(lines@).take(i as int),
                    ),
                decreases lines@.len() - i,
            {
                let c = strip_comment_chars(lines[i].as_slice());
                let ghost before = out@.map_values(|s: String| s@);
                let ghost ls = nested_view(lines@).take(i as int + 1);
                assert(ls.drop_last() =~= nested_view(lines@).take(i as int));
                assert(ls.last() == lines@[i as int]@);
                if c.len() > 0 {
                    let s = chars_to_string(c.as_slice());
                    out.push(s);
                    assert(out@.map_values(|s: String| s@) =~= before.push(c@));
                }
                i = i + 1;
            }
            assert(nested_view(lines@).take(i as int) =~= nested_view(lines@));
            assert(fv.take(f as int + 1).drop_last() =~= fv.take(f as int));
            assert(fv.take(f as int + 1).last() == files@[f as int]@);
            f = f + 1;
        }
        assert(fv.take(f as int) =~= fv);
        Repos(out)
    }

    /// The configured repository index locations.
    pub fn into_vec(self) -> (r: Vec<String>)
        ensures
            r@.map_values(|s: String| s@) == self@,
    {
        self.0
    }
}

/// The entries a list of lines gives are exactly its lines with comments and surrounding
/// whitespace stripped, in order, with the empty ones left out: every non-empty stripped line is
/// an entry, each entry is one, and there are as many entries as such lines.
pub proof fn lemma_kept_lines_are_nonempty_stripped_lines(lines: Seq<Seq<char>>)
    ensures
        kept_lines(lines) == lines.map_values(|l: Seq<char>| strip_comment(l)).filter(
            |c: Seq<char>| c.len() > 0,
        ),
        forall|i: int|
            0 <= i < lines.len() && strip_comment(lines[i]).len() > 0 ==> kept_lines(
                lines,
            ).contains(#[trigger] strip_comment(lines[i])),
        forall|k: int|
            0 <= k < kept_lines(lines).len() ==> (#[trigger] kept_lines(lines)[k]).len() > 0,
    decreases lines.len(),
{
    let stripped = lines.map_values(|l: Seq<char>| strip_comment(l));
    let nonempty = |c: Seq<char>| c.len() > 0;
    reveal(Seq::filter);
    if lines.len() > 0 {
        lemma_kept_lines_are_nonempty_stripped_lines(lines.drop_last());
        assert(stripped.drop_last() =~= lines.drop_last().map_values(
            |l: Seq<char>| strip_comment(l),
        ));
        assert(stripped.last() == strip_comment(lines.last()));
    }
    assert(kept_lines(lines) == stripped.filter(nonempty));
    assert forall|i: int|
        0 <= i < lines.len() && strip_comment(lines[i]).len() > 0 implies kept_lines(
            lines,
        ).contains(#[trigger] strip_comment(lines[i])) by {
        assert(stripped[i] == strip_comment(lines[i]));
        stripped.lemma_filter_contains(nonempty, i);
    }
    assert forall|k: int| 0 <= k < kept_lines(lines).len() implies (
    #[trigger] kept_lines(lines)[k]).len() > 0 by {
        stripped.lemma_filter_pred(nonempty, k);
    }
}

/// The repositories of one file are its non-empty stripped lines (see
/// [lemma_kept_lines_are_nonempty_stripped_lines]); several files list the repositories of each
/// file, file after file, whatever other files come before or after.
pub proof fn lemma_repo_entries_per_file(files: Seq<Seq<char>>, more: Seq<Seq<char>>)
    ensures
        forall|f: Seq<char>|
            #[trigger] repo_entries(seq![f]) == text_lines(f).map_values(
                |l: Seq<char>| strip_comment(l),
            ).filter(|c: Seq<char>| c.len() > 0),
        repo_entries(files + more) == repo_entries(files) + repo_entries(more),
    decreases more.len(),
{
    assert forall|f: Seq<char>|
        #[trigger] repo_entries(seq![f]) == text_lines(f).map_values(
            |l: Seq<char>| strip_comment(l),
        ).filter(|c: Seq<char>| c.len() > 0) by {
        assert(seq![f].drop_last() =~= Seq::<Seq<char>>::empty());
        assert(seq![f].last() == f);
        assert(repo_entries(seq![f].drop_last()) =~= Seq::<Seq<char>>::empty());
        lemma_kept_lines_are_nonempty_stripped_lines(text_lines(f));
        assert(repo_entries(seq![f]) =~= kept_lines(text_lines(f)));
    }
    if more.len() == 0 {
        assert(files + more =~= files);
        assert(repo_entries(files) + repo_entries(more) =~= repo_entries(files));
    } else {
        lemma_repo_entries_per_file(files, more.drop_last());
        assert((files + more).drop_last() =~= files + more.drop_last());
        assert((files + more).last() == more.last());
    }
}

} // verus!
