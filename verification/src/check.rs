//! Checking installed packages against the files on disk: how issues are classified and how
//! they are reported.
use crate::error::Error;
use crate::outcome::{check_summary, check_summary_text};
use crate::text::{chars_to_string, join_with, str_to_chars};
use vstd::prelude::*;

verus! {

/// An issue found while checking an installed package.
pub enum InstPkgCheckIssue {
    /// The installed files differ from the package's record.
    Error(String),
    /// A backup (user-editable) file's content differs from what the package installed.
    BackupDiff(String),
}

/// How differences in backup files are treated.
#[derive(Clone, Copy, Debug, PartialEq, Eq, Structural)]
pub enum BackupCheckMode {
    /// Reported as warnings.
    Warn,
    /// Reported as errors.
    Strict,
    /// Not reported.
    Ignore,
}

/// The backup mode chosen by the `--strict` and `--ignore-backup` options, which exclude each
/// other.
pub open spec fn backup_mode_for(strict: bool, ignore_backup: bool) -> Option<BackupCheckMode> {
    if strict && ignore_backup {
        None
    } else if strict {
        Some(BackupCheckMode::Strict)
    } else if ignore_backup {
        Some(BackupCheckMode::Ignore)
    } else {
        Some(BackupCheckMode::Warn)
    }
}

/// The backup mode for the given options; both together are an input error.
pub fn backup_check_mode(strict: bool, ignore_backup: bool) -> (r: Result<BackupCheckMode, Error>)
    ensures
        r is Ok <==> backup_mode_for(strict, ignore_backup) is Some,
        r matches Ok(m) ==> backup_mode_for(strict, ignore_backup) == Some(m),
        r matches Err(e) ==> (e matches Error::InputFieldInvalid(f, msg) && f@ == "check options"@
            && msg@ == "--strict and --ignore-backup cannot be used together"@),
{
    if strict && ignore_backup {
        let msg = "--strict and --ignore-backup cannot be used together".to_owned();
        Err(Error::InputFieldInvalid("check options", msg))
    } else if strict {
        Ok(BackupCheckMode::Strict)
    } else if ignore_backup {
        Ok(BackupCheckMode::Ignore)
    } else {
        Ok(BackupCheckMode::Warn)
    }
}

/// How an installed file's issue is reported: a content difference in a backup file is a
/// backup difference, anything else an error.
pub fn classify_file_issue(is_backup: bool, is_content_difference: bool, message: String) -> (r:
    InstPkgCheckIssue)
    ensures
        r matches InstPkgCheckIssue::BackupDiff(m) ==> m == message,
        r matches InstPkgCheckIssue::Error(m) ==> m == message,
        r is BackupDiff <==> is_backup && is_content_difference,
{
    if is_backup && is_content_difference {
        InstPkgCheckIssue::BackupDiff(message)
    } else {
        InstPkgCheckIssue::Error(message)
    }
}

/// Whether an issue is reported as an error under the mode.
pub open spec fn reported_as_error(issue: InstPkgCheckIssue, mode: BackupCheckMode) -> bool {
    match issue {
        InstPkgCheckIssue::Error(_) => true,
        InstPkgCheckIssue::BackupDiff(_) => mode == BackupCheckMode::Strict,
    }
}

/// Whether an issue is reported as a warning under the mode.
pub open spec fn reported_as_warning(issue: InstPkgCheckIssue, mode: BackupCheckMode) -> bool {
    issue is BackupDiff && mode == BackupCheckMode::Warn
}

/// The message of an issue.
pub open spec fn issue_message(issue: InstPkgCheckIssue) -> String {
    match issue {
        InstPkgCheckIssue::Error(m) => m,
        InstPkgCheckIssue::BackupDiff(m) => m,
    }
}

/// The messages of the issues selected by `keep`, in order.
pub open spec fn selected_messages(
    issues: Seq<InstPkgCheckIssue>,
    keep: spec_fn(InstPkgCheckIssue) -> bool,
) -> Seq<String>
    decreases issues.len(),
{
    if issues.len() == 0 {
        Seq::empty()
    } else {
        let rest = selected_messages(issues.drop_last(), keep);
        if keep(issues.last()) {
            rest.push(issue_message(issues.last()))
        } else {
            rest
        }
    }
}

/// The predicate selecting the issues reported as errors under a mode.
pub open spec fn error_selector(mode: BackupCheckMode) -> spec_fn(InstPkgCheckIssue) -> bool {
    |i: InstPkgCheckIssue| reported_as_error(i, mode)
}

/// The predicate selecting the issues reported as warnings under a mode.
pub open spec fn warning_selector(mode: BackupCheckMode) -> spec_fn(InstPkgCheckIssue) -> bool {
    |i: InstPkgCheckIssue| reported_as_warning(i, mode)
}

/// Splits one package's issues into the messages reported as errors and those reported as
/// warnings, each in the order the issues came in; under [BackupCheckMode::Ignore] backup differences
/// are dropped.
pub fn partition_issues(issues: Vec<InstPkgCheckIssue>, mode: BackupCheckMode) -> (r: (
    Vec<String>,
    Vec<String>,
))
    ensures
        r.0@ == selected_messages(issues@, error_selector(mode)),
        r.1@ == selected_messages(issues@, warning_selector(mode)),
{
    let mut errors: Vec<String> = Vec::new();
    let mut warnings: Vec<String> = Vec::new();
    let ghost all = issues@;
    proof {
        broadcast use vstd::std_specs::vec::axiom_spec_into_iter;
    }
    for issue in it: issues.into_iter()
        invariant
            it.seq() == all,
            errors@ == selected_messages(all.take(it.index() as int), error_selector(mode)),
            warnings@ == selected_messages(all.take(it.index() as int), warning_selector(mode)),
    {
        let ghost i = it.index() as int;
        assert(all.take(i + 1).drop_last() =~= all.take(i));
        assert(all.take(i + 1).last() == all[i]);
        match issue {
            InstPkgCheckIssue::Error(m) => {
                errors.push(m);
            },
            InstPkgCheckIssue::BackupDiff(m) => {
                match mode {
                    BackupCheckMode::Warn => warnings.push(m),
                    BackupCheckMode::Strict => errors.push(m),
                    BackupCheckMode::Ignore => {},
                }
            },
        }
    }
    assert(all.take(all.len() as int) =~= all);
    (errors, warnings)
}

/// The report lines of one package's issues: each issue indented by two spaces, then a newline.
pub open spec fn issue_lines(issues: Seq<Seq<char>>) -> Seq<char>
    decreases issues.len(),
{
    if issues.len() == 0 {
        Seq::empty()
    } else {
        issue_lines(issues.drop_last()) + "  "@ + issues.last() + "\n"@
    }
}

/// One package's part of the report: its identifier on a line, then its issue lines.
pub open spec fn group_text(pkgid: Seq<char>, issues: Seq<Seq<char>>) -> Seq<char> {
    pkgid + "\n"@ + issue_lines(issues)
}

/// The packages' parts of the report, separated by blank lines.
pub open spec fn report_body(groups: Seq<(Seq<char>, Seq<Seq<char>>)>) -> Seq<char>
    decreases groups.len(),
{
    if groups.len() == 0 {
        Seq::empty()
    } else {
        let sep = if groups.len() > 1 {
            "\n"@
        } else {
            Seq::empty()
        };
        report_body(groups.drop_last()) + sep + group_text(groups.last().0, groups.last().1)
    }
}

/// The check report: the report body without its final newline.
pub open spec fn check_report(groups: Seq<(Seq<char>, Seq<Seq<char>>)>) -> Seq<char> {
    let body = report_body(groups);
    if body.len() > 0 && body.last() == '\n' {
        body.drop_last()
    } else {
        body
    }
}

/// The character view of the strings in a vector.
pub open spec fn strings_view(v: Seq<String>) -> Seq<Seq<char>> {
    v.map_values(|s: String| s@)
}

/// The character view of (package, issues) pairs.
pub open spec fn groups_view(g: Seq<(String, Vec<String>)>) -> Seq<(Seq<char>, Seq<Seq<char>>)> {
    g.map_values(|p: (String, Vec<String>)| (p.0@, strings_view(p.1@)))
}

/// The characters of each string, appended to `out`.
fn append_issue_lines(out: &mut Vec<char>, issues: &Vec<String>)
    ensures
        final(out)@ == old(out)@ + issue_lines(strings_view(issues@)),
{
    let mut i: usize = 0;
    while i < issues.len()
        invariant
            i <= issues.len(),
            out@ == old(out)@ + issue_lines(strings_view(issues@.take(i as int))),
        decreases issues.len() - i,
    {
        let ghost before = out@;
        out.push(' ');
        out.push(' ');
        let mut line = str_to_chars(issues[i].as_str());
        out.append(&mut line);
        out.push('\n');
        proof {
            reveal_strlit("  ");
            reveal_strlit("\n");
            let v = strings_view(issues@.take(i as int + 1));
            assert(v.drop_last() =~= strings_view(issues@.take(i as int)));
            assert(v.last() == issues@[i as int]@);
            assert(out@ =~= before + "  "@ + issues@[i as int]@ + "\n"@);
        }
        i = i + 1;
    }
    assert(issues@.take(i as int) =~= issues@);
}

/// Formats issues grouped by package: each package identifier on its own line, followed by its
/// issues indented by two spaces, with a blank line between packages and no trailing newline.
pub fn format_check_report(issues_by_pkg: &[(String, Vec<String>)]) -> (r: String)
    ensures
        r@ == check_report(groups_view(issues_by_pkg@)),
{
    let mut out: Vec<char> = Vec::new();
    let mut idx: usize = 0;
    while idx < issues_by_pkg.len()
        invariant
            idx <= issues_by_pkg.len(),
            out@ == report_body(groups_view(issues_by_pkg@.take(idx as int))),
        decreases issues_by_pkg.len() - idx,
    {
        let ghost before = out@;
        if idx != 0 {
            out.push('\n');
        }
        let mut id = str_to_chars(issues_by_pkg[idx].0.as_str());
        out.append(&mut id);
        out.push('\n');
        append_issue_lines(&mut out, &issues_by_pkg[idx].1);
        proof {
            reveal_strlit("\n");
            let g = groups_view(issues_by_pkg@.take(idx as int + 1));
            assert(g.drop_last() =~= groups_view(issues_by_pkg@.take(idx as int)));
            assert(g.last() == (issues_by_pkg@[idx as int].0@, strings_view(
                issues_by_pkg@[idx as int].1@,
            )));
            let sep = if g.len() > 1 {
                "\n"@
            } else {
                Seq::<char>::empty()
            };
            assert(out@ =~= before + sep + group_text(g.last().0, g.last().1));
        }
        idx = idx + 1;
    }
    assert(issues_by_pkg@.take(idx as int) =~= issues_by_pkg@);
    if out.len() > 0 && out[out.len() - 1] == '\n' {
        out.pop();
    }
    chars_to_string(out.as_slice())
}

/// The result of a `check` run, from the error issues of the packages that have any and the
/// packages checked: a `CheckFailed` error with the report of those issues when there are any,
/// otherwise the run's summary.
pub fn check_outcome(error_issues_by_pkg: &[(String, Vec<String>)], targets: &[String]) -> (r:
    Result<String, Error>)
    ensures
        error_issues_by_pkg@.len() > 0 ==> (r matches Err(Error::CheckFailed(m)) && m@
            == check_report(groups_view(error_issues_by_pkg@))),
        error_issues_by_pkg@.len() == 0 ==> (r matches Ok(s) && s@ == check_summary_text(
            targets@.map_values(|t: String| t@),
        )),
{
    if error_issues_by_pkg.len() > 0 {
        Err(Error::CheckFailed(format_check_report(error_issues_by_pkg)))
    } else {
        Ok(check_summary(targets))
    }
}

/// The texts of the packages' parts of the report.
pub open spec fn group_texts(groups: Seq<(Seq<char>, Seq<Seq<char>>)>) -> Seq<Seq<char>> {
    groups.map_values(|g: (Seq<char>, Seq<Seq<char>>)| group_text(g.0, g.1))
}

/// Joining one more piece adds the separator and the piece.
proof fn lemma_join_push(parts: Seq<Seq<char>>, x: Seq<char>, sep: char)
    requires
        parts.len() > 0,
    ensures
        join_with(parts.push(x), sep) == join_with(parts, sep) + seq![sep] + x,
    decreases parts.len(),
{
    assert(parts.push(x)[0] == parts[0]);
    if parts.len() == 1 {
        assert(parts.push(x).drop_first() =~= seq![x]);
        assert(join_with(seq![x], sep) == x);
        assert(join_with(parts.push(x), sep) =~= parts[0] + seq![sep] + x);
    } else {
        lemma_join_push(parts.drop_first(), x, sep);
        assert(parts.push(x).drop_first() =~= parts.drop_first().push(x));
        assert(join_with(parts.push(x), sep) =~= parts[0] + seq![sep] + (join_with(
            parts.drop_first(),
            sep,
        ) + seq![sep] + x));
        assert(join_with(parts, sep) == parts[0] + seq![sep] + join_with(parts.drop_first(), sep));
    }
}

/// A package's issue lines are its issues in order, each on a line of its own indented by two
/// spaces.
pub proof fn lemma_issue_lines_each_indented(issues: Seq<Seq<char>>)
    ensures
        issue_lines(issues) == issues.map_values(|i: Seq<char>| seq![' ', ' '] + i + seq!['\n']).flatten(),
    decreases issues.len(),
{
    reveal_strlit("  ");
    reveal_strlit("\n");
    let f = |i: Seq<char>| seq![' ', ' '] + i + seq!['\n'];
    if issues.len() == 0 {
        assert(issues.map_values(f) =~= Seq::<Seq<char>>::empty());
    } else {
        lemma_issue_lines_each_indented(issues.drop_last());
        assert(issues.map_values(f) =~= issues.drop_last().map_values(f).push(f(issues.last())));
        issues.drop_last().map_values(f).lemma_flatten_push(f(issues.last()));
        assert(issue_lines(issues) =~= issues.drop_last().map_values(f).flatten() + f(issues.last()));
    }
}

/// The report body is the packages' parts joined with a newline: since each part ends with a
/// newline, every two consecutive packages are separated by exactly one blank line, however many
/// packages there are; and the body ends with a newline, which the report drops.
pub proof fn lemma_report_is_blank_line_separated(
    groups: Seq<(Seq<char>, Seq<Seq<char>>)>,
    x: (Seq<char>, Seq<Seq<char>>),
)
    ensures
        report_body(groups) == join_with(group_texts(groups), '\n'),
        groups.len() > 0 ==> report_body(groups.push(x)) == report_body(groups) + seq!['\n']
            + group_text(x.0, x.1),
        group_text(x.0, x.1).last() == '\n',
        groups.len() > 0 ==> report_body(groups).len() > 0 && report_body(groups).last() == '\n'
            && check_report(groups) == report_body(groups).drop_last(),
    decreases groups.len(),
{
    reveal_strlit("\n");
    reveal_strlit("  ");
    let gt = group_text(x.0, x.1);
    assert(gt.last() == '\n') by {
        if x.1.len() > 0 {
            assert(issue_lines(x.1).last() == '\n');
        }
    }
    if groups.len() > 0 {
        let l = groups.last();
        lemma_report_is_blank_line_separated(groups.drop_last(), l);
        assert(group_texts(groups) =~= group_texts(groups.drop_last()).push(group_text(l.0, l.1)));
        if groups.len() > 1 {
            lemma_join_push(group_texts(groups.drop_last()), group_text(l.0, l.1), '\n');
        } else {
            assert(groups.drop_last().len() == 0);
            assert(group_texts(groups) =~= seq![group_text(l.0, l.1)]);
            assert(report_body(groups) =~= group_text(l.0, l.1));
        }
        assert(group_texts(groups.push(x)) =~= group_texts(groups).push(gt));
        assert(groups.push(x).drop_last() =~= groups);
        assert(report_body(groups.push(x)) =~= report_body(groups) + seq!['\n'] + gt);
    } else {
        assert(group_texts(groups) =~= Seq::<Seq<char>>::empty());
    }
}

/// The messages an issue selector keeps are the messages of exactly the issues it selects, in
/// their order; under each mode errors and warnings are the issues reported as such.
pub proof fn lemma_selected_messages_are_the_selected_issues(
    issues: Seq<InstPkgCheckIssue>,
    keep: spec_fn(InstPkgCheckIssue) -> bool,
)
    ensures
        selected_messages(issues, keep) == issues.filter(keep).map_values(
            |i: InstPkgCheckIssue| issue_message(i),
        ),
    decreases issues.len(),
{
    let msg = |i: InstPkgCheckIssue| issue_message(i);
    reveal(Seq::filter);
    if issues.len() > 0 {
        lemma_selected_messages_are_the_selected_issues(issues.drop_last(), keep);
        let f = issues.drop_last().filter(keep);
        if keep(issues.last()) {
            assert(f.push(issues.last()).map_values(msg) =~= f.map_values(msg).push(issue_message(issues.last())));
        }
    }
}

/// How the modes split issues: strictly, every issue is an error and none a warning; warning,
/// every issue is either an error or a warning (plain issues errors, backup differences
/// warnings); ignoring, plain issues are errors and backup differences are not reported.
pub proof fn lemma_modes_split_issues(issues: Seq<InstPkgCheckIssue>)
    ensures
        selected_messages(issues, error_selector(BackupCheckMode::Strict)) == issues.map_values(
            |i: InstPkgCheckIssue| issue_message(i),
        ),
        selected_messages(issues, warning_selector(BackupCheckMode::Strict)).len() == 0,
        selected_messages(issues, error_selector(BackupCheckMode::Warn)).len() + selected_messages(
            issues,
            warning_selector(BackupCheckMode::Warn),
        ).len() == issues.len(),
        selected_messages(issues, error_selector(BackupCheckMode::Warn)) == selected_messages(
            issues,
            error_selector(BackupCheckMode::Ignore),
        ),
        selected_messages(issues, warning_selector(BackupCheckMode::Ignore)).len() == 0,
        selected_messages(issues, warning_selector(BackupCheckMode::Warn)) == issues.filter(
            |i: InstPkgCheckIssue| i is BackupDiff,
        ).map_values(|i: InstPkgCheckIssue| issue_message(i)),
    decreases issues.len(),
{
    let msg = |i: InstPkgCheckIssue| issue_message(i);
    let backup = |i: InstPkgCheckIssue| i is BackupDiff;
    reveal(Seq::filter);
    if issues.len() > 0 {
        lemma_modes_split_issues(issues.drop_last());
        assert(issues.map_values(msg) =~= issues.drop_last().map_values(msg).push(
            issue_message(issues.last()),
        ));
        let f = issues.drop_last().filter(backup);
        if backup(issues.last()) {
            assert(f.push(issues.last()).map_values(msg) =~= f.map_values(msg).push(
                issue_message(issues.last()),
            ));
        }
    } else {
        assert(issues.map_values(msg) =~= Seq::<String>::empty());
    }
}

} // verus!
