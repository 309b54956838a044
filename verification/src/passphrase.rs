//! Secret-key passphrases read from a file or a terminal.
//!
//! The passphrase is kept in a buffer that is wiped when dropped, so these functions compute how
//! much of the bytes read forms the passphrase, and the caller shortens its buffer in place.
use crate::error::{Error, IoError, IoErrorKind};
use vstd::prelude::*;

verus! {

/// `\n` or `\r`.
pub open spec fn is_newline_byte(b: u8) -> bool {
    b == 10 || b == 13
}

/// The length of the bytes without their trailing `\n` and `\r` bytes.
pub open spec fn trimmed_len(bytes: Seq<u8>) -> nat
    decreases bytes.len(),
{
    if bytes.len() > 0 && is_newline_byte(bytes.last()) {
        trimmed_len(bytes.drop_last())
    } else {
        bytes.len()
    }
}

/// The message of an empty passphrase file.
pub open spec fn empty_passphrase_message() -> Seq<char> {
    "Passphrase file is empty"@
}

/// The message of a terminal line without its newline.
pub open spec fn no_newline_message() -> Seq<char> {
    "No trailing newline"@
}

/// The length of the passphrase held in a passphrase file's contents: everything before the
/// trailing `\n` and `\r` bytes (so both `\n` and `\r\n` line ends are removed).  An empty
/// passphrase is an invalid-input read error on the file.
pub fn passphrase_len(path: &str, contents: &[u8]) -> (r: Result<usize, Error>)
    ensures
        trimmed_len(contents@) > 0 ==> r == Ok::<usize, Error>(trimmed_len(contents@) as usize),
        trimmed_len(contents@) == 0 ==> (r matches Err(Error::Read(p, e)) && p@ == path@
            && e.kind == IoErrorKind::InvalidInput && e.raw_os_error is None && e.message@
            == empty_passphrase_message()),
{
    let mut n = contents.len();
    assert(contents@.take(n as int) =~= contents@);
    while n > 0 && (contents[n - 1] == 10 || contents[n - 1] == 13)
        invariant
            n <= contents@.len(),
            trimmed_len(contents@.take(n as int)) == trimmed_len(contents@),
        decreases n,
    {
        assert(contents@.take(n as int).drop_last() =~= contents@.take(n as int - 1));
        n = n - 1;
    }
    assert(contents@.take(n as int).len() == n);
    if n == 0 {
        return Err(
            Error::Read(
                path.to_owned(),
                IoError {
                    kind: IoErrorKind::InvalidInput,
                    raw_os_error: None,
                    message: "Passphrase file is empty".to_owned(),
                },
            ),
        );
    }
    Ok(n)
}

/// The length of the passphrase in a line read from the terminal: the line without its final
/// `\n`.  A line without one (input ended early) is an invalid-input read error on the terminal.
pub fn tty_passphrase_len(tty_path: &str, line: &[u8]) -> (r: Result<usize, Error>)
    ensures
        line@.len() > 0 && line@.last() == 10 ==> r == Ok::<usize, Error>(
            (line@.len() - 1) as usize,
        ),
        !(line@.len() > 0 && line@.last() == 10) ==> (r matches Err(Error::Read(p, e)) && p@
            == tty_path@ && e.kind == IoErrorKind::InvalidInput && e.raw_os_error is None
            && e.message@ == no_newline_message()),
{
    let n = line.len();
    if n > 0 && line[n - 1] == 10 {
        Ok(n - 1)
    } else {
        Err(
            Error::Read(
                tty_path.to_owned(),
                IoError {
                    kind: IoErrorKind::InvalidInput,
                    raw_os_error: None,
                    message: "No trailing newline".to_owned(),
                },
            ),
        )
    }
}

/// Trimming a passphrase removes exactly its trailing newline bytes: what is cut off is all
/// `\n` and `\r` bytes, and what is kept does not end with one.
pub proof fn lemma_trimmed_len_cuts_trailing_newlines(bytes: Seq<u8>)
    ensures
        trimmed_len(bytes) <= bytes.len(),
        forall|i: int| trimmed_len(bytes) <= i < bytes.len() ==> is_newline_byte(#[trigger] bytes[i]),
        trimmed_len(bytes) > 0 ==> !is_newline_byte(bytes[trimmed_len(bytes) - 1]),
    decreases bytes.len(),
{
    if bytes.len() > 0 && is_newline_byte(bytes.last()) {
        lemma_trimmed_len_cuts_trailing_newlines(bytes.drop_last());
        assert forall|i: int| trimmed_len(bytes) <= i < bytes.len() implies is_newline_byte(
            #[trigger] bytes[i],
        ) by {
            if i < bytes.len() - 1 {
                assert(bytes[i] == bytes.drop_last()[i]);
            }
        }
        if trimmed_len(bytes) > 0 {
            assert(bytes[trimmed_len(bytes) - 1] == bytes.drop_last()[trimmed_len(bytes) - 1]);
        }
    }
}

} // verus!
