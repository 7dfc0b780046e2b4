//! Rendering of the interpreter's user-facing report lines.
//!
//! Every dynamic line the core reports — job start, job listing, job
//! completion, the prompt, diagnostics — is built here, character for
//! character, so that the exact text is part of the verified contracts.

use vstd::prelude::*;

verus! {

/// The decimal digit character for a value below ten.
pub open spec fn dec_digit(d: int) -> char {
    if d == 0 {
        '0'
    } else if d == 1 {
        '1'
    } else if d == 2 {
        '2'
    } else if d == 3 {
        '3'
    } else if d == 4 {
        '4'
    } else if d == 5 {
        '5'
    } else if d == 6 {
        '6'
    } else if d == 7 {
        '7'
    } else if d == 8 {
        '8'
    } else {
        '9'
    }
}

/// The decimal rendering of a non-negative integer, most significant digit
/// first, with no leading zeroes (a lone `0` for zero).
pub open spec fn dec_chars(n: int) -> Seq<char>
    decreases n,
{
    if n < 10 {
        seq![dec_digit(n)]
    } else {
        dec_chars(n / 10) + seq![dec_digit(n % 10)]
    }
}

/// The decimal rendering of a possibly negative integer: a leading `-` on
/// the rendering of the magnitude.
pub open spec fn dec_chars_signed(n: int) -> Seq<char> {
    if n < 0 {
        seq!['-'] + dec_chars(-n)
    } else {
        dec_chars(n)
    }
}

/// One decimal digit as a string slice.
fn digit_str(d: u64) -> (r: &'static str)
    requires
        d < 10,
    ensures
        r@ == seq![dec_digit(d as int)],
{
    if d == 0 {
        proof {
            reveal_strlit("0");
        }
        let r = "0";
        assert(r@ =~= seq![dec_digit(d as int)]);
        r
    } else if d == 1 {
        proof {
            reveal_strlit("1");
        }
        let r = "1";
        assert(r@ =~= seq![dec_digit(d as int)]);
        r
    } else if d == 2 {
        proof {
            reveal_strlit("2");
        }
        let r = "2";
        assert(r@ =~= seq![dec_digit(d as int)]);
        r
    } else if d == 3 {
        proof {
            reveal_strlit("3");
        }
        let r = "3";
        assert(r@ =~= seq![dec_digit(d as int)]);
        r
    } else if d == 4 {
        proof {
            reveal_strlit("4");
        }
        let r = "4";
        assert(r@ =~= seq![dec_digit(d as int)]);
        r
    } else if d == 5 {
        proof {
            reveal_strlit("5");
        }
        let r = "5";
        assert(r@ =~= seq![dec_digit(d as int)]);
        r
    } else if d == 6 {
        proof {
            reveal_strlit("6");
        }
        let r = "6";
        assert(r@ =~= seq![dec_digit(d as int)]);
        r
    } else if d == 7 {
        proof {
            reveal_strlit("7");
        }
        let r = "7";
        assert(r@ =~= seq![dec_digit(d as int)]);
        r
    } else if d == 8 {
        proof {
            reveal_strlit("8");
        }
        let r = "8";
        assert(r@ =~= seq![dec_digit(d as int)]);
        r
    } else {
        proof {
            reveal_strlit("9");
        }
        let r = "9";
        assert(r@ =~= seq![dec_digit(d as int)]);
        r
    }
}

/// Render a non-negative integer in decimal.
pub fn fmt_u64(n: u64) -> (r: String)
    ensures
        r@ == dec_chars(n as int),
    decreases n,
{
    if n < 10 {
        let r = digit_str(n).to_owned();
        r
    } else {
        let mut r = fmt_u64(n / 10);
        r.append(digit_str(n % 10));
        r
    }
}

/// Render a `usize` in decimal.
pub fn fmt_usize(n: usize) -> (r: String)
    ensures
        r@ == dec_chars(n as int),
{
    fmt_u64(n as u64)
}

/// Render an `i32` in decimal, with a leading `-` when negative.
pub fn fmt_i32(n: i32) -> (r: String)
    ensures
        r@ == dec_chars_signed(n as int),
{
    if n >= 0 {
        fmt_u64(n as u64)
    } else {
        let magnitude = -(n as i64);
        proof {
            reveal_strlit("-");
        }
        let mut r = "-".to_owned();
        assert(r@ =~= seq!['-']);
        r.append(fmt_u64(magnitude as u64).as_str());
        r
    }
}

/// `[<job_id>] <process_id>` — reported when a background job starts.
pub open spec fn line_job_start(id: int, pid: int) -> Seq<char> {
    seq!['['] + dec_chars(id) + seq![']', ' '] + dec_chars_signed(pid)
}

/// Build the job-start report line.
pub fn render_job_start(id: usize, pid: i32) -> (r: String)
    ensures
        r@ == line_job_start(id as int, pid as int),
{
    proof {
        reveal_strlit("[");
        reveal_strlit("] ");
    }
    let mut r = "[".to_owned();
    assert(r@ =~= seq!['[']);
    r.append(fmt_usize(id).as_str());
    assert("] "@ =~= seq![']', ' ']);
    r.append("] ");
    r.append(fmt_i32(pid).as_str());
    r
}

/// `[<job_id>]+ <process_id> <command_line>` — one line of the job listing.
pub open spec fn line_job_listing(id: int, pid: int, cmdline: Seq<char>) -> Seq<char> {
    seq!['['] + dec_chars(id) + seq![']', '+', ' '] + dec_chars_signed(pid) + seq![' '] + cmdline
}

/// Build one job-listing line.
pub fn render_job_listing(id: usize, pid: i32, cmdline: &str) -> (r: String)
    ensures
        r@ == line_job_listing(id as int, pid as int, cmdline@),
{
    proof {
        reveal_strlit("[");
        reveal_strlit("]+ ");
        reveal_strlit(" ");
    }
    let mut r = "[".to_owned();
    assert(r@ =~= seq!['[']);
    r.append(fmt_usize(id).as_str());
    assert("]+ "@ =~= seq![']', '+', ' ']);
    r.append("]+ ");
    r.append(fmt_i32(pid).as_str());
    assert(" "@ =~= seq![' ']);
    r.append(" ");
    r.append(cmdline);
    r
}

/// `[<job_id>] + done <command_line>` — reported when a background job
/// is observed to have completed.
pub open spec fn line_job_done(id: int, cmdline: Seq<char>) -> Seq<char> {
    seq!['['] + dec_chars(id) + seq![']', ' ', '+', ' ', 'd', 'o', 'n', 'e', ' '] + cmdline
}

/// Build the job-completion report line.
pub fn render_job_done(id: usize, cmdline: &str) -> (r: String)
    ensures
        r@ == line_job_done(id as int, cmdline@),
{
    proof {
        reveal_strlit("[");
        reveal_strlit("] + done ");
    }
    let mut r = "[".to_owned();
    assert(r@ =~= seq!['[']);
    r.append(fmt_usize(id).as_str());
    assert("] + done "@ =~= seq![']', ' ', '+', ' ', 'd', 'o', 'n', 'e', ' ']);
    r.append("] + done ");
    r.append(cmdline);
    r
}

/// `<user>@<machine>:<working_directory>>` — the interactive prompt.
pub open spec fn prompt_chars(user: Seq<char>, machine: Seq<char>, cwd: Seq<char>) -> Seq<char> {
    user + seq!['@'] + machine + seq![':'] + cwd + seq!['>']
}

/// Build the prompt from the user name, machine name and working directory.
pub fn create_prompt(user: &str, machine: &str, cwd: &str) -> (r: String)
    ensures
        r@ == prompt_chars(user@, machine@, cwd@),
{
    proof {
        reveal_strlit("@");
        reveal_strlit(":");
        reveal_strlit(">");
    }
    let mut r = user.to_owned();
    assert("@"@ =~= seq!['@']);
    r.append("@");
    r.append(machine);
    assert(":"@ =~= seq![':']);
    r.append(":");
    r.append(cwd);
    assert(">"@ =~= seq!['>']);
    r.append(">");
    r
}

/// `redirection error: <reason>` — reported for a malformed stage.
pub open spec fn line_redirection_error(reason: Seq<char>) -> Seq<char> {
    seq!['r', 'e', 'd', 'i', 'r', 'e', 'c', 't', 'i', 'o', 'n', ' ', 'e', 'r', 'r', 'o', 'r', ':', ' ']
        + reason
}

/// Build the redirection diagnostic line.
pub fn render_redirection_error(reason: &str) -> (r: String)
    ensures
        r@ == line_redirection_error(reason@),
{
    proof {
        reveal_strlit("redirection error: ");
    }
    let mut r = "redirection error: ".to_owned();
    assert(r@ =~= seq![
        'r', 'e', 'd', 'i', 'r', 'e', 'c', 't', 'i', 'o', 'n', ' ', 'e', 'r', 'r', 'o', 'r', ':',
        ' ',
    ]);
    r.append(reason);
    r
}

/// The diagnostic a child reports when its program image cannot be replaced:
/// `command not found` when the program does not exist, otherwise
/// `exec failed: <system error text>`.
pub open spec fn exec_failure_chars(not_found: bool, err: Seq<char>) -> Seq<char> {
    if not_found {
        seq!['c', 'o', 'm', 'm', 'a', 'n', 'd', ' ', 'n', 'o', 't', ' ', 'f', 'o', 'u', 'n', 'd']
    } else {
        seq!['e', 'x', 'e', 'c', ' ', 'f', 'a', 'i', 'l', 'e', 'd', ':', ' '] + err
    }
}

/// Build the image-replacement failure diagnostic.
pub fn render_exec_failure(not_found: bool, err: &str) -> (r: String)
    ensures
        r@ == exec_failure_chars(not_found, err@),
{
    if not_found {
        proof {
            reveal_strlit("command not found");
        }
        let r = "command not found".to_owned();
        assert(r@ =~= seq![
            'c', 'o', 'm', 'm', 'a', 'n', 'd', ' ', 'n', 'o', 't', ' ', 'f', 'o', 'u', 'n', 'd',
        ]);
        r
    } else {
        proof {
            reveal_strlit("exec failed: ");
        }
        let mut r = "exec failed: ".to_owned();
        assert(r@ =~= seq!['e', 'x', 'e', 'c', ' ', 'f', 'a', 'i', 'l', 'e', 'd', ':', ' ']);
        r.append(err);
        r
    }
}

} // verus!
