//! The networking utility used to download files.
//!
//! The configuration lists download command lines in order of preference; the first whose
//! program is an executable in `PATH` is used.  Each command line has a `{}` term that stands for
//! the URL, and the utility writes what it downloads to its standard output.
use crate::bpt_conf::{BptConfNetworking, NetworkingUtil};
use crate::error::Error;
use vstd::prelude::*;

verus! {

/// The index of the first usable utility: one whose command line is non-empty and whose
/// program was found as an executable (`found[i]`).
pub open spec fn first_usable(utils: Seq<Seq<Seq<char>>>, found: Seq<bool>) -> Option<int> {
    if exists|i: int| 0 <= i < utils.len() && i < found.len() && utils[i].len() > 0 && found[i] {
        Some(
            choose|i: int|
                0 <= i < utils.len() && i < found.len() && utils[i].len() > 0 && found[i] && forall|
                    j: int,
                |
                    0 <= j < i ==> !(j < found.len() && utils[j].len() > 0 && found[j]),
        )
    } else {
        None
    }
}

/// The command line of a download: the program, then the terms with each `{}` replaced by the
/// URL (the program itself is never replaced).
pub open spec fn download_terms(terms: Seq<Seq<char>>, url: Seq<char>) -> Seq<Seq<char>> {
    Seq::new(
        terms.len(),
        |i: int|
            if i > 0 && terms[i] == "{}"@ {
                url
            } else {
                terms[i]
            },
    )
}

/// A networking utility chosen from the configuration, with whether its diagnostics are shown.
pub struct NetUtil<'a> {
    print_stderr: bool,
    /// The chosen command line, if any utility was found.  Finding none is only an error when
    /// a download is attempted.
    util: Option<&'a NetworkingUtil>,
}

impl<'a> NetUtil<'a> {
    /// The chosen command line, if any.
    pub closed spec fn chosen(&self) -> Option<Seq<Seq<char>>> {
        match self.util {
            Some(u) => Some(u@),
            None => None,
        }
    }

    /// Whether the utility's diagnostics are shown.
    pub closed spec fn shows_stderr(&self) -> bool {
        self.print_stderr
    }

    /// Chooses the first configured utility whose program was found (`found[i]` says whether the
    /// program of the `i`-th command line is an executable in `PATH`).  Diagnostics are shown when
    /// asked for here or in the configuration.
    pub fn new(networking: &'a BptConfNetworking, print_stderr: bool, found: &[bool]) -> (r: Self)
        ensures
            r.shows_stderr() == (print_stderr || networking.print_stderr),
            match first_usable(networking@.0, found@) {
                Some(i) => r.chosen() == Some(networking@.0[i]),
                None => r.chosen() is None,
            },
    {
        let utils = &networking.utils;
        let mut i: usize = 0;
        while i < utils.len()
            invariant
                i <= utils@.len(),
                networking@.0.len() == utils@.len(),
                forall|k: int| 0 <= k < utils@.len() ==> networking@.0[k] == (#[trigger] utils@[k])@,
                forall|j: int|
                    0 <= j < i ==> !(j < found@.len() && networking@.0[j].len() > 0 && found@[j]),
            decreases utils@.len() - i,
        {
            let usable = utils[i].as_slice().len() > 0 && i < found.len() && found[i];
            if usable {
                proof {
                    let gi = i as int;
                    let us = networking@.0;
                    assert(0 <= gi < us.len() && gi < found@.len() && us[gi].len() > 0 && found@[gi]);
                    let c = choose|c: int|
                        0 <= c < us.len() && c < found@.len() && us[c].len() > 0 && found@[c]
                            && forall|j: int|
                            0 <= j < c ==> !(j < found@.len() && us[j].len() > 0 && found@[j]);
                    assert(c == gi) by {
                        if c > gi {
                            assert(!(gi < found@.len() && us[gi].len() > 0 && found@[gi]));
                        }
                    }
                }
                return NetUtil {
                    print_stderr: print_stderr || networking.print_stderr,
                    util: Some(&utils[i]),
                };
            }
            i = i + 1;
        }
        NetUtil { print_stderr: print_stderr || networking.print_stderr, util: None }
    }

    /// Whether the utility's diagnostics are shown.
    pub fn print_stderr(&self) -> (r: bool)
        ensures
            r == self.shows_stderr(),
    {
        self.print_stderr
    }

    /// The command line that downloads `url`: the program, then its arguments with `{}`
    /// replaced by the URL.  Without a usable utility this is `NoNetUtilInPath`.
    pub fn download_command(&self, url: &str) -> (r: Result<Vec<String>, Error>)
        ensures
            match self.chosen() {
                Some(terms) if terms.len() > 0 => r matches Ok(v) && v@.map_values(
                    |s: String| s@,
                ) == download_terms(terms, url@),
                _ => r matches Err(Error::NoNetUtilInPath),
            },
    {
        let util = match self.util {
            Some(u) => u,
            None => {
                return Err(Error::NoNetUtilInPath);
            },
        };
        let terms = util.as_slice();
        if terms.len() == 0 {
            return Err(Error::NoNetUtilInPath);
        }
        let ghost tv = terms@.map_values(|s: String| s@);
        let mut out: Vec<String> = Vec::new();
        let mut i: usize = 0;
        while i < terms.len()
            invariant
                i <= terms@.len(),
                tv == terms@.map_values(|s: String| s@),
                out@.len() == i,
                forall|k: int|
                    0 <= k < i ==> (#[trigger] out@[k])@ == download_terms(tv, url@)[k],
            decreases terms@.len() - i,
        {
            let term = terms[i].as_str();
            let is_placeholder = i > 0 && crate::text::str_eq(term, "{}");
            if is_placeholder {
                out.push(url.to_owned());
            } else {
                out.push(terms[i].clone());
            }
            i = i + 1;
        }
        assert(out@.map_values(|s: String| s@) =~= download_terms(tv, url@));
        Ok(out)
    }
}

/// The outcome of running a download command: success, or the program's exit code (1 when it
/// has none, as when killed by a signal).
pub fn download_result(program: &str, success: bool, code: Option<i32>) -> (r: Result<(), Error>)
    ensures
        success ==> r is Ok,
        !success ==> (r matches Err(Error::NetUtilNonZero(p, c)) && p@ == program@ && c == match code {
            Some(c) => c,
            None => 1,
        }),
{
    if success {
        Ok(())
    } else {
        let c = match code {
            Some(c) => c,
            None => 1,
        };
        Err(Error::NetUtilNonZero(program.to_owned(), c))
    }
}

} // verus!
