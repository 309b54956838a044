//! Shell command construction and the protocol by which sourced scripts report variables.
//!
//! Scripts are sourced by `sh -c` with a command assembled here.  To query variables, the command
//! ends by printing `VAR=value` records, each terminated by a NUL byte, to an inherited pipe;
//! [parse_shell_output] reads them back.
use crate::constant::SMALL_FILE_MAX_SIZE;
use crate::error::AnonLocErr;
use crate::text::{all_digits, chars_to_string, digits_value, is_digit, parse_u32, str_to_chars, without_plus};
use vstd::prelude::*;
use vstd::utf8::{
    decode_utf8, encode_scalar, encode_utf8, encode_utf8_decode_utf8, encode_utf8_valid_utf8,
    char_u32_cast, has_width_1_encoding, valid_utf8,
};

verus! {

// ---------------------------------------------------------------------------------------------
// Command text
// ---------------------------------------------------------------------------------------------

/// The decimal digits of `n`, most significant first, without leading zeros.
pub open spec fn decimal(n: nat) -> Seq<char>
    decreases n,
{
    if n < 10 {
        seq![digit_char(n)]
    } else {
        decimal(n / 10).push(digit_char(n % 10))
    }
}

/// The character of a decimal digit.
pub open spec fn digit_char(d: nat) -> char {
    if d == 0 { '0' }
    else if d == 1 { '1' }
    else if d == 2 { '2' }
    else if d == 3 { '3' }
    else if d == 4 { '4' }
    else if d == 5 { '5' }
    else if d == 6 { '6' }
    else if d == 7 { '7' }
    else if d == 8 { '8' }
    else { '9' }
}

fn digit_char_exec(d: u64) -> (c: char)
    requires
        d < 10,
    ensures
        c == digit_char(d as nat),
{
    if d == 0 { '0' }
    else if d == 1 { '1' }
    else if d == 2 { '2' }
    else if d == 3 { '3' }
    else if d == 4 { '4' }
    else if d == 5 { '5' }
    else if d == 6 { '6' }
    else if d == 7 { '7' }
    else if d == 8 { '8' }
    else { '9' }
}

/// The decimal digits of `n`.
pub fn decimal_digits(n: u64) -> (r: Vec<char>)
    ensures
        r@ == decimal(n as nat),
    decreases n,
{
    if n < 10 {
        vec![digit_char_exec(n)]
    } else {
        let mut r = decimal_digits(n / 10);
        r.push(digit_char_exec(n % 10));
        r
    }
}

/// A script's text appended to a command: followed by a newline unless it already ends with
/// one.
pub open spec fn with_script(cmd: Seq<char>, script: Seq<char>) -> Seq<char> {
    if script.len() > 0 && script.last() == '\n' {
        cmd + script
    } else {
        cmd + script + seq!['\n']
    }
}

/// The scripts' texts inlined one after the other (see [with_script]).
pub open spec fn inline_scripts(cmd: Seq<char>, scripts: Seq<Seq<char>>) -> Seq<char>
    decreases scripts.len(),
{
    if scripts.len() == 0 {
        cmd
    } else {
        with_script(inline_scripts(cmd, scripts.drop_last()), scripts.last())
    }
}

/// The character view of a sequence of strings.
pub open spec fn texts(v: Seq<String>) -> Seq<Seq<char>> {
    v.map_values(|s: String| s@)
}

/// Appends the characters of a string.
fn push_text(out: &mut Vec<char>, s: &str)
    ensures
        final(out)@ == old(out)@ + s@,
{
    let mut chars = str_to_chars(s);
    out.append(&mut chars);
}

/// Appends each script's text, each followed by a newline unless it already ends with one.
fn append_inline_scripts(cmd: &mut Vec<char>, scripts: &[String])
    ensures
        final(cmd)@ == inline_scripts(old(cmd)@, texts(scripts@)),
{
    let mut i: usize = 0;
    while i < scripts.len()
        invariant
            i <= scripts.len(),
            cmd@ == inline_scripts(old(cmd)@, texts(scripts@.take(i as int))),
        decreases scripts.len() - i,
    {
        let script = str_to_chars(scripts[i].as_str());
        let ends_with_newline = script.len() > 0 && script[script.len() - 1] == '\n';
        let ghost before = cmd@;
        push_text(cmd, scripts[i].as_str());
        if !ends_with_newline {
            cmd.push('\n');
        }
        proof {
            let t = texts(scripts@.take(i as int + 1));
            assert(t.drop_last() =~= texts(scripts@.take(i as int)));
            assert(t.last() == scripts@[i as int]@);
            assert(cmd@ =~= with_script(before, scripts@[i as int]@));
        }
        i = i + 1;
    }
    assert(scripts@.take(i as int) =~= scripts@);
}

/// The `printf` format that reports the variables: `VAR=%s\00` for each.
pub open spec fn printf_format(vars: Seq<Seq<char>>) -> Seq<char>
    decreases vars.len(),
{
    if vars.len() == 0 {
        Seq::empty()
    } else {
        printf_format(vars.drop_last()) + vars.last() + "=%s\\00"@
    }
}

/// The `printf` arguments: `"${VAR:-}" ` for each variable (unset variables print empty).
pub open spec fn printf_args(vars: Seq<Seq<char>>) -> Seq<char>
    decreases vars.len(),
{
    if vars.len() == 0 {
        Seq::empty()
    } else {
        printf_args(vars.drop_last()) + "\"${"@ + vars.last() + ":-}\" "@
    }
}

/// The command that sources the scripts under `set -eu` and then prints the requested
/// variables as NUL-terminated `VAR=value` records to file descriptor `fd`.  It ends with a NUL
/// byte, as `execvp` needs.
pub open spec fn query_command_text(scripts: Seq<Seq<char>>, vars: Seq<Seq<char>>, fd: nat) -> Seq<
    char,
> {
    inline_scripts("set -eu; "@, scripts) + "printf \""@ + printf_format(vars) + "\" "@
        + printf_args(vars) + ">&"@ + decimal(fd) + seq!['\0']
}

/// Builds the command that sources the scripts and reports the requested variables on file
/// descriptor `fd`.
///
/// Only shell-friendly variable names (ASCII alphanumerics and `_`) may be used, as the names
/// are inlined into the command.
pub fn query_command(scripts: &[String], output_vars: &[String], fd: u32) -> (r: String)
    ensures
        r@ == query_command_text(texts(scripts@), texts(output_vars@), fd as nat),
{
    let mut cmd: Vec<char> = Vec::new();
    push_text(&mut cmd, "set -eu; ");
    append_inline_scripts(&mut cmd, scripts);
    let ghost base = cmd@;
    push_text(&mut cmd, "printf \"");
    let ghost with_printf = cmd@;
    let mut i: usize = 0;
    while i < output_vars.len()
        invariant
            i <= output_vars.len(),
            cmd@ == with_printf + printf_format(texts(output_vars@.take(i as int))),
        decreases output_vars.len() - i,
    {
        let ghost before = cmd@;
        push_text(&mut cmd, output_vars[i].as_str());
        push_text(&mut cmd, "=%s\\00");
        proof {
            let t = texts(output_vars@.take(i as int + 1));
            assert(t.drop_last() =~= texts(output_vars@.take(i as int)));
            assert(t.last() == output_vars@[i as int]@);
            assert(cmd@ =~= with_printf + printf_format(t));
        }
        i = i + 1;
    }
    assert(output_vars@.take(i as int) =~= output_vars@);
    push_text(&mut cmd, "\" ");
    let ghost with_format = cmd@;
    let mut j: usize = 0;
    while j < output_vars.len()
        invariant
            j <= output_vars.len(),
            cmd@ == with_format + printf_args(texts(output_vars@.take(j as int))),
        decreases output_vars.len() - j,
    {
        push_text(&mut cmd, "\"${");
        push_text(&mut cmd, output_vars[j].as_str());
        push_text(&mut cmd, ":-}\" ");
        proof {
            let t = texts(output_vars@.take(j as int + 1));
            assert(t.drop_last() =~= texts(output_vars@.take(j as int)));
            assert(t.last() == output_vars@[j as int]@);
            assert(cmd@ =~= with_format + printf_args(t));
        }
        j = j + 1;
    }
    assert(output_vars@.take(j as int) =~= output_vars@);
    push_text(&mut cmd, ">&");
    let mut digits = decimal_digits(fd as u64);
    cmd.append(&mut digits);
    cmd.push('\0');
    proof {
        assert(cmd@ =~= query_command_text(texts(scripts@), texts(output_vars@), fd as nat));
    }
    chars_to_string(cmd.as_slice())
}

/// The command that sources the scripts under `set -eu`, changes to the directory named by the
/// `BPT_CWD` environment variable (so that the path is never parsed as shell code), and runs
/// `command` under `set -eux`.  It ends with a NUL byte.
pub open spec fn run_command_text(scripts: Seq<Seq<char>>, command: Seq<char>) -> Seq<char> {
    inline_scripts("set -eu; "@, scripts) + "cd \"${BPT_CWD}\" && "@ + "set -eux && "@ + command
        + seq!['\0']
}

/// Builds the command that sources the scripts and runs `command` in the directory named by
/// the `BPT_CWD` environment variable.
pub fn run_command(scripts: &[String], command: &str) -> (r: String)
    ensures
        r@ == run_command_text(texts(scripts@), command@),
{
    let mut cmd: Vec<char> = Vec::new();
    push_text(&mut cmd, "set -eu; ");
    append_inline_scripts(&mut cmd, scripts);
    push_text(&mut cmd, "cd \"${BPT_CWD}\" && ");
    push_text(&mut cmd, "set -eux && ");
    push_text(&mut cmd, command);
    cmd.push('\0');
    chars_to_string(cmd.as_slice())
}

// ---------------------------------------------------------------------------------------------
// Reported variables
// ---------------------------------------------------------------------------------------------

/// Scans the output left to right: the records completed so far and the record in progress.
/// A NUL byte ends the record in progress; empty records are dropped.
pub open spec fn scan_records(buf: Seq<u8>) -> (Seq<Seq<u8>>, Seq<u8>)
    decreases buf.len(),
{
    if buf.len() == 0 {
        (seq![], seq![])
    } else {
        let (done, cur) = scan_records(buf.drop_last());
        if buf.last() == 0 {
            (if cur.len() > 0 {
                done.push(cur)
            } else {
                done
            }, seq![])
        } else {
            (done, cur.push(buf.last()))
        }
    }
}

/// The records of the output: its maximal runs of non-NUL bytes, in order.
pub open spec fn output_records(buf: Seq<u8>) -> Seq<Seq<u8>> {
    let (done, cur) = scan_records(buf);
    if cur.len() > 0 {
        done.push(cur)
    } else {
        done
    }
}

/// The position of the first `=` in a record.
pub open spec fn first_equals(r: Seq<u8>) -> Option<int> {
    if exists|i: int| 0 <= i < r.len() && r[i] == 61 {
        Some(choose|i: int| 0 <= i < r.len() && r[i] == 61 && forall|j: int| 0 <= j < i ==> r[j] != 61)
    } else {
        None
    }
}

/// A record's variable and value: the text before the first `=` and after it, both valid
/// UTF-8.
pub open spec fn parse_record(r: Seq<u8>) -> Result<(Seq<char>, Seq<char>), AnonLocErr> {
    match first_equals(r) {
        None => Err(AnonLocErr::ShellMsgCorrupt("Missing `=`")),
        Some(k) => {
            let var = r.take(k);
            let val = r.skip(k + 1);
            if !valid_utf8(var) || !valid_utf8(val) {
                Err(AnonLocErr::ShellMsgCorrupt("invalid utf-8"))
            } else {
                Ok((decode_utf8(var), decode_utf8(val)))
            }
        },
    }
}

/// The variables of a sequence of records, or the error of the first malformed one.
pub open spec fn parse_records(rs: Seq<Seq<u8>>) -> Result<Seq<(Seq<char>, Seq<char>)>, AnonLocErr>
    decreases rs.len(),
{
    if rs.len() == 0 {
        Ok(seq![])
    } else {
        match parse_records(rs.drop_last()) {
            Err(e) => Err(e),
            Ok(vs) => match parse_record(rs.last()) {
                Err(e) => Err(e),
                Ok(v) => Ok(vs.push(v)),
            },
        }
    }
}

/// The character view of (variable, value) pairs.
pub open spec fn pairs_view(v: Seq<(String, String)>) -> Seq<(Seq<char>, Seq<char>)> {
    v.map_values(|p: (String, String)| (p.0@, p.1@))
}

/// Decodes UTF-8 bytes (`std::str::from_utf8`), as an owned string.
///
/// Trusted: std returns the text exactly when the bytes are valid UTF-8, and the text is then
/// their decoding.
#[verifier::external_body]
pub(crate) fn utf8_string(bytes: &[u8]) -> (r: Option<String>)
    ensures
        r is Some <==> valid_utf8(bytes@),
        r matches Some(s) ==> s@ == decode_utf8(bytes@),
{
    std::str::from_utf8(bytes).ok().map(|s| s.to_owned())
}

/// The position of the first `=` byte, if any.
fn find_equals(r: &[u8]) -> (k: Option<usize>)
    ensures
        match k {
            Some(i) => i < r@.len() && first_equals(r@) == Some(i as int),
            None => first_equals(r@) is None,
        },
{
    let mut i: usize = 0;
    while i < r.len()
        invariant
            i <= r.len(),
            forall|j: int| 0 <= j < i ==> r@[j] != 61,
        decreases r.len() - i,
    {
        if r[i] == 61 {
            let ghost gi = i as int;
            assert(0 <= gi < r@.len() && r@[gi] == 61 && forall|j: int| 0 <= j < gi ==> r@[j]
                != 61);
            let ghost c = choose|c: int|
                0 <= c < r@.len() && r@[c] == 61 && forall|j: int| 0 <= j < c ==> r@[j] != 61;
            assert(c == gi) by {
                if c < gi {
                    assert(r@[c] != 61);
                }
                if c > gi {
                    assert(r@[gi] != 61);
                }
            }
            return Some(i);
        }
        i = i + 1;
    }
    None
}

/// Parses one record into its variable and value.
fn parse_record_exec(r: &[u8]) -> (out: Result<(String, String), AnonLocErr>)
    ensures
        match parse_record(r@) {
            Ok((var, val)) => out matches Ok(p) && p.0@ == var && p.1@ == val,
            Err(e) => out == Err::<(String, String), AnonLocErr>(e),
        },
{
    let k = match find_equals(r) {
        Some(k) => k,
        None => {
            return Err(AnonLocErr::ShellMsgCorrupt("Missing `=`"));
        },
    };
    let n = r.len();
    assert(k < n);
    let var_bytes = vstd::slice::slice_subrange(r, 0, k);
    let val_bytes = vstd::slice::slice_subrange(r, k + 1, n);
    assert(var_bytes@ =~= r@.take(k as int));
    assert(val_bytes@ =~= r@.skip(k as int + 1));
    let var = match utf8_string(var_bytes) {
        Some(v) => v,
        None => {
            return Err(AnonLocErr::ShellMsgCorrupt("invalid utf-8"));
        },
    };
    let val = match utf8_string(val_bytes) {
        Some(v) => v,
        None => {
            return Err(AnonLocErr::ShellMsgCorrupt("invalid utf-8"));
        },
    };
    Ok((var, val))
}

/// Once parsing a prefix of the records fails, parsing all of them fails with the same error.
proof fn lemma_parse_error_persists(rs: Seq<Seq<u8>>, k: int)
    requires
        0 <= k <= rs.len(),
        parse_records(rs.take(k)) is Err,
    ensures
        parse_records(rs) == parse_records(rs.take(k)),
    decreases rs.len() - k,
{
    if k < rs.len() {
        assert(rs.take(k + 1).drop_last() =~= rs.take(k));
        lemma_parse_error_persists(rs, k + 1);
    } else {
        assert(rs.take(k) =~= rs);
    }
}

/// Parses a finished record and appends its variable, or fails.
fn finish_record(
    cur: &Vec<u8>,
    out: &mut Vec<(String, String)>,
    Ghost(done): Ghost<Seq<Seq<u8>>>,
) -> (r: Result<(), AnonLocErr>)
    requires
        parse_records(done) == Ok::<Seq<(Seq<char>, Seq<char>)>, AnonLocErr>(pairs_view(old(out)@)),
    ensures
        match parse_records(done.push(cur@)) {
            Ok(vs) => r is Ok && pairs_view(final(out)@) == vs,
            Err(e) => r == Err::<(), AnonLocErr>(e),
        },
{
    assert(done.push(cur@).drop_last() =~= done);
    match parse_record_exec(cur.as_slice()) {
        Ok(p) => {
            let ghost before = pairs_view(out@);
            out.push(p);
            assert(pairs_view(out@) =~= before.push((p.0@, p.1@)));
            Ok(())
        },
        Err(e) => Err(e),
    }
}

/// Parses the variables reported by a query: each maximal run of non-NUL bytes is a
/// `VAR=value` record, split at its first `=`, with both sides valid UTF-8.  A record without
/// `=` or with invalid UTF-8 makes the whole output corrupt.  Every record is returned, in the
/// order reported, duplicates included; a caller that keeps the variables in a map lets a later
/// report of a variable supersede an earlier one.
pub fn parse_shell_output(buf: &[u8]) -> (r: Result<Vec<(String, String)>, AnonLocErr>)
    ensures
        match parse_records(output_records(buf@)) {
            Ok(vs) => r matches Ok(v) && pairs_view(v@) == vs,
            Err(e) => r == Err::<Vec<(String, String)>, AnonLocErr>(e),
        },
{
    let mut out: Vec<(String, String)> = Vec::new();
    let mut cur: Vec<u8> = Vec::new();
    let mut i: usize = 0;
    assert(buf@.take(0) =~= Seq::<u8>::empty());
    assert(pairs_view(out@) =~= Seq::<(Seq<char>, Seq<char>)>::empty());
    while i < buf.len()
        invariant
            i <= buf.len(),
            scan_records(buf@.take(i as int)).1 == cur@,
            parse_records(scan_records(buf@.take(i as int)).0) == Ok::<
                Seq<(Seq<char>, Seq<char>)>,
                AnonLocErr,
            >(pairs_view(out@)),
        decreases buf.len() - i,
    {
        let ghost done = scan_records(buf@.take(i as int)).0;
        assert(buf@.take(i as int + 1).drop_last() =~= buf@.take(i as int));
        assert(buf@.take(i as int + 1).last() == buf@[i as int]);
        if buf[i] == 0 {
            if cur.len() > 0 {
                match finish_record(&cur, &mut out, Ghost(done)) {
                    Ok(()) => {},
                    Err(e) => {
                        proof {
                            let all = output_records(buf@);
                            lemma_scan_prefix(buf@, i as int + 1);
                            let k = done.len() as int + 1;
                            assert(all.take(k) =~= done.push(cur@));
                            lemma_parse_error_persists(all, k);
                        }
                        return Err(e);
                    },
                }
            }
            cur = Vec::new();
        } else {
            cur.push(buf[i]);
        }
        i = i + 1;
    }
    assert(buf@.take(i as int) =~= buf@);
    if cur.len() > 0 {
        let ghost done = scan_records(buf@).0;
        match finish_record(&cur, &mut out, Ghost(done)) {
            Ok(()) => {},
            Err(e) => {
                return Err(e);
            },
        }
    }
    Ok(out)
}

/// The records completed in a prefix of the output begin the records of the whole output.
proof fn lemma_scan_prefix(buf: Seq<u8>, i: int)
    requires
        0 <= i <= buf.len(),
    ensures
        scan_records(buf.take(i)).0.len() <= output_records(buf).len(),
        output_records(buf).take(scan_records(buf.take(i)).0.len() as int) == scan_records(
            buf.take(i),
        ).0,
    decreases buf.len() - i,
{
    if i < buf.len() {
        lemma_scan_prefix(buf, i + 1);
        assert(buf.take(i + 1).drop_last() =~= buf.take(i));
        let (d0, c0) = scan_records(buf.take(i));
        let (d1, c1) = scan_records(buf.take(i + 1));
        let all = output_records(buf);
        assert(d1.take(d0.len() as int) =~= d0);
        assert(all.take(d1.len() as int).take(d0.len() as int) =~= all.take(d0.len() as int));
    } else {
        assert(buf.take(i) =~= buf);
        let (d, c) = scan_records(buf);
        assert(output_records(buf).take(d.len() as int) =~= d);
    }
}

/// Whether a query's output is small enough to be accepted: the output is read into a buffer
/// that doubles as it fills, and a buffer filled at the small-file bound is rejected, so outputs
/// of that size or more are corrupt.
pub fn check_output_len(len: usize) -> (r: Result<(), AnonLocErr>)
    ensures
        r is Ok <==> len < SMALL_FILE_MAX_SIZE,
        r is Err ==> r == Err::<(), AnonLocErr>(
            AnonLocErr::ShellMsgCorrupt("output exceeded SMALL_FILE_MAX_SIZE"),
        ),
{
    if len >= SMALL_FILE_MAX_SIZE {
        Err(AnonLocErr::ShellMsgCorrupt("output exceeded SMALL_FILE_MAX_SIZE"))
    } else {
        Ok(())
    }
}

/// How a shell process ended.
pub enum ShellStatus {
    /// It exited with this code.
    Exited(i32),
    /// It ended otherwise (for example by a signal), as described.
    Other(String),
}

/// The outcome of a shell process: success on exit code 0; otherwise the exit code or the
/// description of how it ended.
pub fn shell_status_result(status: ShellStatus) -> (r: Result<(), AnonLocErr>)
    ensures
        match status {
            ShellStatus::Exited(0) => r is Ok,
            ShellStatus::Exited(rv) => r == Err::<(), AnonLocErr>(AnonLocErr::ShellNonZero(rv)),
            ShellStatus::Other(d) => r == Err::<(), AnonLocErr>(AnonLocErr::ShellWaitStatus(d)),
        },
{
    match status {
        ShellStatus::Exited(rv) => {
            if rv == 0 {
                Ok(())
            } else {
                Err(AnonLocErr::ShellNonZero(rv))
            }
        },
        ShellStatus::Other(d) => Err(AnonLocErr::ShellWaitStatus(d)),
    }
}

// ---------------------------------------------------------------------------------------------
// What a query reports, read back
// ---------------------------------------------------------------------------------------------

/// The bytes of one reported variable: `VAR=value` in UTF-8.
pub open spec fn record_bytes(p: (Seq<char>, Seq<char>)) -> Seq<u8> {
    encode_utf8(p.0) + seq![61u8] + encode_utf8(p.1)
}

/// The records of variables, in order.
pub open spec fn records_of(vars: Seq<(Seq<char>, Seq<char>)>) -> Seq<Seq<u8>> {
    vars.map_values(|p: (Seq<char>, Seq<char>)| record_bytes(p))
}

/// What the query's `printf` prints for variables and their values (see [printf_format]): each
/// `VAR=value` record followed by a NUL byte.
pub open spec fn reported_output(vars: Seq<(Seq<char>, Seq<char>)>) -> Seq<u8>
    decreases vars.len(),
{
    if vars.len() == 0 {
        Seq::empty()
    } else {
        reported_output(vars.drop_last()) + record_bytes(vars.last()) + seq![0u8]
    }
}

/// Bytes of multi-byte UTF-8 sequences all have their high bit set.
proof fn lemma_high_bit(x: u8)
    ensures
        (0x80u8 | x) >= 0x80,
        (0xC0u8 | x) >= 0x80,
        (0xE0u8 | x) >= 0x80,
        (0xF0u8 | x) >= 0x80,
{
    assert((0x80u8 | x) >= 0x80 && (0xC0u8 | x) >= 0x80 && (0xE0u8 | x) >= 0x80 && (0xF0u8 | x)
        >= 0x80) by (bit_vector);
}

/// The single byte of an ASCII character's encoding is its code.
proof fn lemma_ascii_code(c: u32)
    requires
        c <= 0x7F,
    ensures
        ((c & 0x7F) as u8) as u32 == c,
{
    assert(c <= 0x7F ==> ((c & 0x7F) as u8) as u32 == c) by (bit_vector);
}

/// An ASCII byte occurs in the UTF-8 encoding of a text only where its character occurs in the
/// text.
proof fn lemma_encode_ascii_byte(chars: Seq<char>, b: u8)
    requires
        b < 0x80,
        !chars.contains(b as char),
    ensures
        !encode_utf8(chars).contains(b),
    decreases chars.len(),
{
    if chars.len() > 0 {
        let rest = chars.drop_first();
        assert(!rest.contains(b as char)) by {
            if rest.contains(b as char) {
                let k = choose|k: int| 0 <= k < rest.len() && rest[k] == b as char;
                assert(chars[k + 1] == b as char);
            }
        }
        lemma_encode_ascii_byte(rest, b);
        let c = chars[0] as u32;
        let head = encode_scalar(c);
        assert(!head.contains(b)) by {
            if head.contains(b) {
                let k = choose|k: int| 0 <= k < head.len() && head[k] == b;
                if has_width_1_encoding(c) {
                    lemma_ascii_code(c);
                    assert(head =~= seq![((c & 0x7F) as u8)]);
                    assert(k == 0);
                    assert(c == b as u32);
                    char_u32_cast(chars[0], c);
                    assert(chars[0] == b as char);
                } else {
                    lemma_high_bit((c & 0x3F) as u8);
                    lemma_high_bit(((c >> 6) & 0x1F) as u8);
                    lemma_high_bit(((c >> 6) & 0x3F) as u8);
                    lemma_high_bit(((c >> 12) & 0x0F) as u8);
                    lemma_high_bit(((c >> 12) & 0x3F) as u8);
                    lemma_high_bit(((c >> 18) & 0x7) as u8);
                }
            }
        }
        let all = encode_utf8(chars);
        assert(all == head + encode_utf8(rest));
        if all.contains(b) {
            let k = choose|k: int| 0 <= k < all.len() && all[k] == b;
            if k < head.len() {
                assert(head[k] == b);
            } else {
                assert(encode_utf8(rest)[k - head.len()] == b);
            }
        }
    }
}

/// Scanning bytes without a NUL extends the record in progress.
proof fn lemma_scan_without_nul(x: Seq<u8>, r: Seq<u8>)
    requires
        !r.contains(0u8),
    ensures
        scan_records(x + r) == (scan_records(x).0, scan_records(x).1 + r),
    decreases r.len(),
{
    if r.len() == 0 {
        assert(x + r =~= x);
        assert(scan_records(x).1 + r =~= scan_records(x).1);
    } else {
        let r0 = r.drop_last();
        assert(!r0.contains(0u8)) by {
            if r0.contains(0u8) {
                let k = choose|k: int| 0 <= k < r0.len() && r0[k] == 0u8;
                assert(r[k] == 0u8);
            }
        }
        lemma_scan_without_nul(x, r0);
        assert((x + r).drop_last() =~= x + r0);
        assert((x + r).last() == r.last());
        assert(r.last() != 0u8) by {
            assert(r[r.len() - 1] == r.last());
        }
        assert((scan_records(x).1 + r0).push(r.last()) =~= scan_records(x).1 + r);
    }
}

/// A reported record holds no NUL byte and is never empty.
proof fn lemma_record_without_nul(p: (Seq<char>, Seq<char>))
    requires
        !p.0.contains('\0'),
        !p.1.contains('\0'),
    ensures
        !record_bytes(p).contains(0u8),
        record_bytes(p).len() > 0,
{
    assert((0u8) as char == '\0');
    lemma_encode_ascii_byte(p.0, 0u8);
    lemma_encode_ascii_byte(p.1, 0u8);
    let a = encode_utf8(p.0);
    let b = encode_utf8(p.1);
    let r = record_bytes(p);
    if r.contains(0u8) {
        let k = choose|k: int| 0 <= k < r.len() && r[k] == 0u8;
        if k < a.len() {
            assert(a[k] == 0u8);
        } else if k > a.len() {
            assert(b[k - a.len() - 1] == 0u8);
        }
    }
    assert(r[a.len() as int] == 61u8);
}

/// The records of the reported output are the variables' records, in order.
proof fn lemma_reported_records(vars: Seq<(Seq<char>, Seq<char>)>)
    requires
        forall|i: int|
            0 <= i < vars.len() ==> !(#[trigger] vars[i]).0.contains('\0') && !vars[i].1.contains(
                '\0',
            ),
    ensures
        scan_records(reported_output(vars)) == (records_of(vars), Seq::<u8>::empty()),
    decreases vars.len(),
{
    if vars.len() > 0 {
        let rest = vars.drop_last();
        assert forall|i: int| 0 <= i < rest.len() implies !(#[trigger] rest[i]).0.contains('\0')
            && !rest[i].1.contains('\0') by {
            assert(rest[i] == vars[i]);
        }
        lemma_reported_records(rest);
        let last = vars.last();
        assert(vars[vars.len() - 1] == last);
        let rec = record_bytes(last);
        lemma_record_without_nul(last);
        let prev = reported_output(rest);
        lemma_scan_without_nul(prev, rec);
        let out = reported_output(vars);
        assert(out.drop_last() =~= prev + rec);
        assert(Seq::<u8>::empty() + rec =~= rec);
        assert(records_of(vars) =~= records_of(rest).push(rec));
    }
}

/// A reported record parses back into its variable and value, when the name holds no `=`.
proof fn lemma_parse_record_bytes(p: (Seq<char>, Seq<char>))
    requires
        !p.0.contains('='),
    ensures
        parse_record(record_bytes(p)) == Ok::<(Seq<char>, Seq<char>), AnonLocErr>(p),
{
    let a = encode_utf8(p.0);
    let b = encode_utf8(p.1);
    let r = record_bytes(p);
    let k = a.len() as int;
    assert((61u8) as char == '=');
    lemma_encode_ascii_byte(p.0, 61u8);
    assert(r[k] == 61u8);
    assert forall|j: int| 0 <= j < k implies r[j] != 61u8 by {
        assert(r[j] == a[j]);
        if a[j] == 61u8 {
            assert(a.contains(61u8));
        }
    }
    let c = choose|i: int| 0 <= i < r.len() && r[i] == 61 && forall|j: int| 0 <= j < i ==> r[j] != 61;
    assert(c == k) by {
        if c < k {
            assert(r[c] != 61u8);
        }
        if c > k {
            assert(r[k] != 61u8);
        }
    }
    assert(first_equals(r) == Some(k));
    assert(r.take(k) =~= a);
    assert(r.skip(k + 1) =~= b);
    encode_utf8_valid_utf8(p.0);
    encode_utf8_valid_utf8(p.1);
    encode_utf8_decode_utf8(p.0);
    encode_utf8_decode_utf8(p.1);
}

/// The variables' records parse back into the variables.
proof fn lemma_parse_reported_records(vars: Seq<(Seq<char>, Seq<char>)>)
    requires
        forall|i: int| 0 <= i < vars.len() ==> !(#[trigger] vars[i]).0.contains('='),
    ensures
        parse_records(records_of(vars)) == Ok::<Seq<(Seq<char>, Seq<char>)>, AnonLocErr>(vars),
    decreases vars.len(),
{
    if vars.len() > 0 {
        let rest = vars.drop_last();
        assert forall|i: int| 0 <= i < rest.len() implies !(#[trigger] rest[i]).0.contains('=') by {
            assert(rest[i] == vars[i]);
        }
        lemma_parse_reported_records(rest);
        let rs = records_of(vars);
        assert(rs.drop_last() =~= records_of(rest));
        assert(vars[vars.len() - 1] == vars.last());
        lemma_parse_record_bytes(vars.last());
        assert(rs.last() == record_bytes(vars.last()));
        assert(rest.push(vars.last()) =~= vars);
        assert(parse_records(rs) == Ok::<Seq<(Seq<char>, Seq<char>)>, AnonLocErr>(
            rest.push(vars.last()),
        ));
    } else {
        assert(records_of(vars).len() == 0);
        assert(vars =~= Seq::<(Seq<char>, Seq<char>)>::empty());
    }
}

/// What a query reports is read back: when the shell prints each requested variable with its
/// value as the query's `printf` format asks (`VAR=value` followed by a NUL byte), the output's
/// records parse into exactly those variables and values, in order.  This holds whenever no
/// variable name holds `=` and no name or value holds a NUL character (which shell variables
/// cannot).
pub proof fn lemma_reported_variables_read_back(vars: Seq<(Seq<char>, Seq<char>)>)
    requires
        forall|i: int|
            0 <= i < vars.len() ==> !(#[trigger] vars[i]).0.contains('=') && !vars[i].0.contains(
                '\0',
            ) && !vars[i].1.contains('\0'),
    ensures
        parse_records(output_records(reported_output(vars))) == Ok::<
            Seq<(Seq<char>, Seq<char>)>,
            AnonLocErr,
        >(vars),
{
    lemma_reported_records(vars);
    lemma_parse_reported_records(vars);
}

/// A digit's character has the digit's code point above `0`.
proof fn lemma_digit_char_value(d: nat)
    requires
        d < 10,
    ensures
        digit_char(d) as u32 == 48 + d,
        is_digit(digit_char(d)),
{
}

/// The decimal text of a number is made of digits whose value is the number.
proof fn lemma_decimal_value(n: nat)
    ensures
        decimal(n).len() > 0,
        all_digits(decimal(n)),
        digits_value(decimal(n)) == n,
    decreases n,
{
    lemma_digit_char_value(n % 10);
    if n >= 10 {
        lemma_decimal_value(n / 10);
        let d = decimal(n / 10).push(digit_char(n % 10));
        assert(d.drop_last() =~= decimal(n / 10));
        assert(d[d.len() - 1] == digit_char(n % 10));
        assert(n / 10 * 10 + n % 10 == n) by (nonlinear_arith);
        assert(digits_value(d) == digits_value(decimal(n / 10)) * 10 + (n % 10));
        assert forall|i: int| 0 <= i < d.len() implies is_digit(#[trigger] d[i]) by {
            if i < d.len() - 1 {
                assert(d[i] == decimal(n / 10)[i]);
            }
        }
    } else {
        let d = seq![digit_char(n)];
        assert(d.drop_last() =~= Seq::<char>::empty());
        assert(digits_value(d.drop_last()) == 0);
        assert(d[d.len() - 1] == digit_char(n));
    }
}

/// Reading a number back from its decimal text gives the number: what counts and sizes are
/// written as, configuration values are read as.
pub proof fn lemma_parse_decimal(n: u32)
    ensures
        parse_u32(decimal(n as nat)) == Some(n),
{
    lemma_decimal_value(n as nat);
    let t = decimal(n as nat);
    assert(is_digit(t[0]));
    assert(without_plus(t) == t);
}

} // verus!
