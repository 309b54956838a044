//! What commands decide from their results: whether a file needs signing, whether the user
//! confirmed, and the summaries commands report.
use crate::error::{AnonLocErr, Error};
use crate::shell::{decimal, decimal_digits};
use crate::text::{chars_to_string, concat2, concat3, str_eq, str_to_chars, trim_chars_end, trim_end};
use vstd::prelude::*;

verus! {

/// The verification failures that mean a file should be (re)signed: a corrupt, invalid or
/// missing signature, or no key to check it with.
pub open spec fn calls_for_signing(e: AnonLocErr) -> bool {
    e is SigCorrupt || e is SigInvalid || e is NoPublicKeys || e is SigMissing
}

/// Whether a file needs signing, from the result of verifying it: not when it verifies; yes on
/// a signature problem; any other failure is passed on.
pub fn signing_needed(verified: Result<(), AnonLocErr>) -> (r: Result<bool, AnonLocErr>)
    ensures
        verified is Ok ==> r == Ok::<bool, AnonLocErr>(false),
        verified matches Err(e) ==> if calls_for_signing(e) {
            r == Ok::<bool, AnonLocErr>(true)
        } else {
            r == Err::<bool, AnonLocErr>(e)
        },
{
    match verified {
        Ok(()) => Ok(false),
        Err(AnonLocErr::SigCorrupt) => Ok(true),
        Err(AnonLocErr::SigInvalid) => Ok(true),
        Err(AnonLocErr::NoPublicKeys) => Ok(true),
        Err(AnonLocErr::SigMissing) => Ok(true),
        Err(e) => Err(e),
    }
}

/// The answers that confirm a prompt, once trailing whitespace is removed.
pub open spec fn confirms(answer: Seq<char>) -> bool {
    let a = trim_end(answer);
    a == "y"@ || a == "Y"@ || a == "yes"@ || a == "YES"@
}

/// Whether a line typed at a `Continue? [y/N]` prompt confirms: `y`, `Y`, `yes` or `YES`, with
/// trailing whitespace (such as the newline) ignored.  Anything else declines.
pub fn is_confirmation(line: &str) -> (r: bool)
    ensures
        r == confirms(line@),
{
    let chars = str_to_chars(line);
    let trimmed = trim_chars_end(chars.as_slice());
    let t = chars_to_string(trimmed.as_slice());
    str_eq(t.as_str(), "y") || str_eq(t.as_str(), "Y") || str_eq(t.as_str(), "yes") || str_eq(
        t.as_str(),
        "YES",
    )
}

/// The decimal text of a count.
fn count_text(n: usize) -> (r: String)
    ensures
        r@ == decimal(n as nat),
{
    let digits = decimal_digits(n as u64);
    chars_to_string(digits.as_slice())
}

/// The summary of a `sign` run: with nothing to sign, that all files had valid signatures;
/// otherwise which file was signed (when one of one), how many of how many (with `--needed`),
/// or that all were signed.
pub open spec fn sign_summary_text(
    needed: bool,
    total: nat,
    signed: nat,
    first_signed: Seq<char>,
    first_path: Seq<char>,
) -> Seq<char> {
    if signed == 0 {
        "All "@ + decimal(total) + " files already had valid signatures"@
    } else if signed == 1 && total == 1 {
        "Signed "@ + first_signed
    } else if needed {
        "Signed "@ + decimal(signed) + " of "@ + decimal(total) + " files"@
    } else if total == 1 {
        "Signed "@ + first_path
    } else {
        "Signed all "@ + decimal(total) + " files"@
    }
}

/// The summary of a `sign` run over `paths`, of which `signed` were signed (`--needed` signs
/// only those that did not verify).
pub fn sign_summary(needed: bool, paths: &[String], signed: &[String]) -> (r: String)
    requires
        signed@.len() <= paths@.len(),
    ensures
        r@ == sign_summary_text(
            needed,
            paths@.len(),
            signed@.len(),
            if signed@.len() > 0 {
                signed@[0]@
            } else {
                Seq::empty()
            },
            if paths@.len() > 0 {
                paths@[0]@
            } else {
                Seq::empty()
            },
        ),
{
    let total = count_text(paths.len());
    if signed.len() == 0 {
        concat3("All ", total.as_str(), " files already had valid signatures")
    } else if signed.len() == 1 && paths.len() == 1 {
        concat2("Signed ", signed[0].as_str())
    } else if needed {
        let n = count_text(signed.len());
        let head = concat3("Signed ", n.as_str(), " of ");
        concat3(head.as_str(), total.as_str(), " files")
    } else if paths.len() == 1 {
        concat2("Signed ", paths[0].as_str())
    } else {
        concat3("Signed all ", total.as_str(), " files")
    }
}

/// The summary of a `check` run over the checked packages' identifiers.
pub open spec fn check_summary_text(targets: Seq<Seq<char>>) -> Seq<char> {
    if targets.len() == 0 {
        "No installed packages to check"@
    } else if targets.len() == 1 {
        "Checked installed package "@ + targets[0]
    } else {
        "Checked all "@ + decimal(targets.len()) + " installed packages"@
    }
}

/// The summary of a `check` run that found no errors.
pub fn check_summary(targets: &[String]) -> (r: String)
    ensures
        r@ == check_summary_text(targets@.map_values(|s: String| s@)),
{
    if targets.len() == 0 {
        "No installed packages to check".to_owned()
    } else if targets.len() == 1 {
        concat2("Checked installed package ", targets[0].as_str())
    } else {
        let n = count_text(targets.len());
        concat3("Checked all ", n.as_str(), " installed packages")
    }
}

/// Whether a file name is that of a package build definition: it ends in the `.bbuild`
/// extension after a non-empty stem.
pub open spec fn is_bbuild_name(name: Seq<char>) -> bool {
    name.len() > 7 && name.skip(name.len() - 7) == ".bbuild"@
}

/// The build definitions among file names, in order.
pub open spec fn bbuild_names(names: Seq<Seq<char>>) -> Seq<Seq<char>>
    decreases names.len(),
{
    if names.len() == 0 {
        Seq::empty()
    } else {
        let rest = bbuild_names(names.drop_last());
        if is_bbuild_name(names.last()) {
            rest.push(names.last())
        } else {
            rest
        }
    }
}

/// Whether a file name names a build definition (see [is_bbuild_name]).
pub fn is_bbuild_file(name: &str) -> (r: bool)
    ensures
        r == is_bbuild_name(name@),
{
    let chars = str_to_chars(name);
    let ext = str_to_chars(".bbuild");
    proof {
        reveal_strlit(".bbuild");
    }
    if chars.len() <= 7 {
        return false;
    }
    let off = chars.len() - 7;
    let mut j: usize = off;
    while j < chars.len()
        invariant
            off <= j <= chars@.len(),
            chars@ == name@,
            ext@ == ".bbuild"@,
            ext@.len() == 7,
            chars@.len() > 7,
            off == chars@.len() - 7,
            forall|m: int| off <= m < j ==> chars@[m] == ext@[m - off],
        decreases chars@.len() - j,
    {
        if chars[j] != ext[j - off] {
            assert(name@.skip(off as int)[j - off] != ".bbuild"@[j - off]);
            return false;
        }
        j = j + 1;
    }
    assert(name@.skip(off as int) =~= ".bbuild"@);
    true
}

/// The build definitions a repository is made from: the `.bbuild` files among the output
/// directory's file names, in order; a directory without any cannot make a repository.
pub fn make_repo_bbuilds(out_dir: &str, names: &[String]) -> (r: Result<Vec<String>, Error>)
    ensures
        bbuild_names(names@.map_values(|n: String| n@)).len() == 0 ==> (r matches Err(
            Error::MakeRepoNoBbuilds(d),
        ) && d@ == out_dir@),
        bbuild_names(names@.map_values(|n: String| n@)).len() > 0 ==> (r matches Ok(v)
            && v@.map_values(|n: String| n@) == bbuild_names(names@.map_values(|n: String| n@))),
{
    let ghost all = names@.map_values(|n: String| n@);
    let mut out: Vec<String> = Vec::new();
    let mut i: usize = 0;
    assert(all.take(0) =~= Seq::<Seq<char>>::empty());
    assert(out@.map_values(|n: String| n@) =~= Seq::<Seq<char>>::empty());
    while i < names.len()
        invariant
            i <= names@.len(),
            all == names@.map_values(|n: String| n@),
            out@.map_values(|n: String| n@) == bbuild_names(all.take(i as int)),
        decreases names@.len() - i,
    {
        assert(all.take(i as int + 1).drop_last() =~= all.take(i as int));
        assert(all.take(i as int + 1).last() == names@[i as int]@);
        let ghost before = out@.map_values(|n: String| n@);
        if is_bbuild_file(names[i].as_str()) {
            let n = names[i].clone();
            out.push(n);
            assert(out@.map_values(|n: String| n@) =~= before.push(names@[i as int]@));
        }
        i = i + 1;
    }
    assert(all.take(i as int) =~= all);
    if out.len() == 0 {
        return Err(Error::MakeRepoNoBbuilds(out_dir.to_owned()));
    }
    Ok(out)
}

/// The build definitions among file names are exactly the names with a `.bbuild` extension after
/// a non-empty stem, in their order.
pub proof fn lemma_bbuild_names_are_the_bbuild_files(names: Seq<Seq<char>>)
    ensures
        bbuild_names(names) == names.filter(
            |n: Seq<char>| n.len() > 7 && n.skip(n.len() - 7) == ".bbuild"@,
        ),
    decreases names.len(),
{
    reveal(Seq::filter);
    if names.len() > 0 {
        lemma_bbuild_names_are_the_bbuild_files(names.drop_last());
    }
}

} // verus!
