//! Built-in command decisions and the command history.
//!
//! The built-ins themselves act on the process (changing directory, exiting,
//! printing); what is decided — which built-in a line names, which directory
//! `cd` should move to, which lines the exit sequence reports — is computed
//! and verified here.

use vstd::prelude::*;

use crate::expand::{
    clone_strings, home_or_root, home_string, lookup, str_eq, strings_view, Environment,
};
use crate::parser::is_space;

verus! {

/// Which built-in a command line names.
#[derive(PartialEq, Eq, Structural, Clone, Copy, Debug)]
pub enum BuiltinCommand {
    /// `exit`: wait for background jobs, report recent history, terminate.
    Exit,
    /// `cd`: change the working directory.
    ChangeDir,
    /// `jobs`: list the running background jobs.
    Jobs,
}

/// Whether a command line is handled by a built-in — and by which — or must
/// be executed as an external pipeline.
#[derive(PartialEq, Eq, Structural, Clone, Copy, Debug)]
pub enum BuiltinResult {
    Handled(BuiltinCommand),
    NotHandled,
}

/// Which built-in, if any, the first word of a line names.
pub open spec fn spec_try_builtin(ts: Seq<Seq<char>>) -> BuiltinResult {
    if ts.len() == 0 {
        BuiltinResult::NotHandled
    } else if ts[0] == "exit"@ {
        BuiltinResult::Handled(BuiltinCommand::Exit)
    } else if ts[0] == "cd"@ {
        BuiltinResult::Handled(BuiltinCommand::ChangeDir)
    } else if ts[0] == "jobs"@ {
        BuiltinResult::Handled(BuiltinCommand::Jobs)
    } else {
        BuiltinResult::NotHandled
    }
}

/// Decide whether the line is a built-in: `exit`, `cd` or `jobs` in first
/// position; anything else is left to the pipeline executor.
pub fn try_builtin(tokens: &Vec<String>) -> (r: BuiltinResult)
    ensures
        r == spec_try_builtin(strings_view(tokens@)),
{
    if tokens.len() == 0 {
        return BuiltinResult::NotHandled;
    }
    let first = tokens[0].as_str();
    if str_eq(first, "exit") {
        BuiltinResult::Handled(BuiltinCommand::Exit)
    } else if str_eq(first, "cd") {
        BuiltinResult::Handled(BuiltinCommand::ChangeDir)
    } else if str_eq(first, "jobs") {
        BuiltinResult::Handled(BuiltinCommand::Jobs)
    } else {
        BuiltinResult::NotHandled
    }
}

/// A line is blank when every character is a separator.
pub open spec fn is_blank(s: Seq<char>) -> bool {
    forall|i: int| 0 <= i < s.len() ==> is_space(#[trigger] s[i])
}

/// What recording a line does to the history: a blank line is ignored;
/// otherwise the line is appended and only the most recent three lines are
/// kept.
pub open spec fn spec_push_valid(h: Seq<Seq<char>>, line: Seq<char>) -> Seq<Seq<char>> {
    if is_blank(line) {
        h
    } else {
        let h2 = h.push(line);
        if h2.len() > 3 {
            h2.subrange(h2.len() - 3, h2.len() as int)
        } else {
            h2
        }
    }
}

/// The most recent valid command lines, at most three.
pub struct History {
    buf: Vec<String>,
}

impl View for History {
    type V = Seq<Seq<char>>;

    closed spec fn view(&self) -> Seq<Seq<char>> {
        strings_view(self.buf@)
    }
}

/// The history never holds more than three lines.
pub open spec fn history_wf(h: Seq<Seq<char>>) -> bool {
    h.len() <= 3
}

impl History {
    /// An empty history.
    pub fn new() -> (r: History)
        ensures
            r@ == Seq::<Seq<char>>::empty(),
            history_wf(r@),
    {
        let r = History { buf: Vec::new() };
        proof {
            assert(r@ =~= Seq::<Seq<char>>::empty());
        }
        r
    }

    /// Record a line: blank lines are ignored, and only the three most
    /// recent lines are kept.
    pub fn push_valid(&mut self, line: &str)
        requires
            history_wf(old(self)@),
        ensures
            history_wf(final(self)@),
            final(self)@ == spec_push_valid(old(self)@, line@),
    {
        let n = line.unicode_len();
        let mut i: usize = 0;
        let mut all_space = true;
        while i < n
            invariant
                n == line@.len(),
                i <= n,
                all_space ==> forall|j: int| 0 <= j < i ==> is_space(#[trigger] line@[j]),
                !all_space ==> exists|j: int| 0 <= j < i && !is_space(#[trigger] line@[j]),
            decreases n - i,
        {
            if !crate::parser::space_char(line.get_char(i)) {
                all_space = false;
            }
            i = i + 1;
        }
        if all_space {
            proof {
                assert(is_blank(line@));
            }
            return ;
        }
        proof {
            assert(!is_blank(line@));
        }
        let ghost before = self@;
        self.buf.push(line.to_owned());
        proof {
            assert(self@ =~= before.push(line@));
        }
        if self.buf.len() > 3 {
            let ghost pushed = self@;
            self.buf.remove(0);
            proof {
                assert(self@ =~= pushed.subrange(pushed.len() - 3, pushed.len() as int));
            }
        }
    }

    /// The recorded lines, oldest first.
    pub fn last_three(&self) -> (r: Vec<String>)
        ensures
            strings_view(r@) == self@,
    {
        clone_strings(&self.buf)
    }
}

/// The message reported by the exit sequence when no valid command was ever
/// entered.
pub open spec fn no_valid_msg() -> Seq<char> {
    "no valid commands"@
}

/// What the exit sequence reports: with an empty history a fixed message;
/// with fewer than three recorded lines only the most recent; with a full
/// history all three, oldest first.
pub open spec fn spec_exit_report(h: Seq<Seq<char>>) -> Seq<Seq<char>> {
    if h.len() == 0 {
        seq![no_valid_msg()]
    } else if h.len() < 3 {
        seq![h.last()]
    } else {
        h
    }
}

/// The lines the exit sequence prints, per `spec_exit_report`.
pub fn exit_report(hist: &History) -> (r: Vec<String>)
    ensures
        strings_view(r@) == spec_exit_report(hist@),
{
    let lines = hist.last_three();
    if lines.len() == 0 {
        let mut r: Vec<String> = Vec::new();
        r.push("no valid commands".to_owned());
        proof {
            assert(strings_view(r@) =~= seq![no_valid_msg()]);
        }
        r
    } else if lines.len() < 3 {
        let mut r: Vec<String> = Vec::new();
        r.push(lines[lines.len() - 1].clone());
        proof {
            assert(strings_view(r@) =~= seq![hist@.last()]);
        }
        r
    } else {
        lines
    }
}

/// What the argument of `cd` expands to: `~` alone becomes `HOME` (or `/`
/// when unset); `~/rest` becomes `<HOME>/rest`; `$name` becomes the
/// variable's value, or the argument itself when unset; anything else is
/// taken literally.
pub open spec fn spec_expand_cd(s: Seq<char>, env: Seq<(Seq<char>, Seq<char>)>) -> Seq<char> {
    if s == "~"@ {
        home_or_root(env)
    } else if s.len() >= 2 && s[0] == '~' && s[1] == '/' {
        home_or_root(env) + seq!['/'] + s.subrange(2, s.len() as int)
    } else if s.len() >= 1 && s[0] == '$' {
        match lookup(env, s.subrange(1, s.len() as int)) {
            Some(v) => v,
            None => s,
        }
    } else {
        s
    }
}

/// Expand the argument of `cd`, per `spec_expand_cd`.
pub fn expand_cd_arg(s: &str, env: &Environment) -> (r: String)
    ensures
        r@ == spec_expand_cd(s@, env@),
{
    let n = s.unicode_len();
    if str_eq(s, "~") {
        home_string(env)
    } else if n >= 2 && s.get_char(0) == '~' && s.get_char(1) == '/' {
        let mut r = home_string(env);
        proof {
            reveal_strlit("/");
            assert("/"@ =~= seq!['/']);
        }
        r.append("/");
        r.append(s.substring_char(2, n));
        r
    } else if n >= 1 && s.get_char(0) == '$' {
        match env.get(s.substring_char(1, n)) {
            Some(v) => v,
            None => s.to_owned(),
        }
    } else {
        s.to_owned()
    }
}

/// The diagnostic for `cd` with more than one argument.
pub open spec fn too_many_args_msg() -> Seq<char> {
    "cd: too many arguments"@
}

/// Where `cd` should move: with no argument, `HOME` (or `/` when unset);
/// with one argument, its expansion; with more, the diagnostic.
pub open spec fn spec_cd_target(
    args: Seq<Seq<char>>,
    env: Seq<(Seq<char>, Seq<char>)>,
) -> Result<Seq<char>, Seq<char>> {
    if args.len() == 0 {
        Ok(home_or_root(env))
    } else if args.len() == 1 {
        Ok(spec_expand_cd(args[0], env))
    } else {
        Err(too_many_args_msg())
    }
}

/// Decide the directory `cd` moves to, per `spec_cd_target`; the caller
/// performs the directory change and reports any failure of it.
pub fn cd_target(args: &Vec<String>, env: &Environment) -> (r: Result<String, String>)
    ensures
        match r {
            Ok(p) => spec_cd_target(strings_view(args@), env@) == Ok::<Seq<char>, Seq<char>>(p@),
            Err(e) => spec_cd_target(strings_view(args@), env@) == Err::<Seq<char>, Seq<char>>(
                e@,
            ),
        },
{
    if args.len() == 0 {
        Ok(home_string(env))
    } else if args.len() == 1 {
        Ok(expand_cd_arg(args[0].as_str(), env))
    } else {
        Err("cd: too many arguments".to_owned())
    }
}

} // verus!
