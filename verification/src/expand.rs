//! Expander: resolves variable and tilde references to literal text and
//! resolves command words to executable paths by scanning the directories of
//! `PATH`.
//!
//! The environment is an injected read-only key–value lookup, so the
//! expansion rules are independent of ambient process state. Expansion never
//! fails hard: a missing variable becomes a diagnostic placeholder, an
//! unresolved command word falls back to its literal text, deferring the
//! error to the moment the program image is replaced.

use vstd::prelude::*;

use crate::parser::{tokens_view, Token, TokenModel};

verus! {

/// Compare two string slices character for character.
pub fn str_eq(a: &str, b: &str) -> (r: bool)
    ensures
        r == (a@ == b@),
{
    let na = a.unicode_len();
    let nb = b.unicode_len();
    if na != nb {
        return false;
    }
    let mut i: usize = 0;
    while i < na
        invariant
            na == a@.len(),
            na == b@.len(),
            i <= na,
            forall|j: int| 0 <= j < i ==> a@[j] == b@[j],
        decreases na - i,
    {
        if a.get_char(i) != b.get_char(i) {
            return false;
        }
        i = i + 1;
    }
    proof {
        assert(a@ =~= b@);
    }
    true
}

/// A read-only key–value view of the process environment, injected into the
/// expansion rules in place of ambient state. A later binding of a name
/// shadows an earlier one.
pub struct Environment {
    vars: Vec<(String, String)>,
}

impl View for Environment {
    type V = Seq<(Seq<char>, Seq<char>)>;

    closed spec fn view(&self) -> Seq<(Seq<char>, Seq<char>)> {
        self.vars@.map_values(|p: (String, String)| (p.0@, p.1@))
    }
}

/// The value bound to `name`: the most recently added binding wins.
pub open spec fn lookup(env: Seq<(Seq<char>, Seq<char>)>, name: Seq<char>) -> Option<Seq<char>>
    decreases env.len(),
{
    if env.len() == 0 {
        None
    } else if env.last().0 == name {
        Some(env.last().1)
    } else {
        lookup(env.drop_last(), name)
    }
}

impl Environment {
    /// An environment with no bindings.
    pub fn new() -> (r: Environment)
        ensures
            r@ == Seq::<(Seq<char>, Seq<char>)>::empty(),
    {
        let r = Environment { vars: Vec::new() };
        proof {
            assert(r@ =~= Seq::<(Seq<char>, Seq<char>)>::empty());
        }
        r
    }

    /// Bind `name` to `value`, shadowing any earlier binding.
    pub fn set(&mut self, name: String, value: String)
        ensures
            final(self)@ == old(self)@.push((name@, value@)),
    {
        let ghost before = self@;
        self.vars.push((name, value));
        proof {
            assert(self@ =~= before.push((self.vars@.last().0@, self.vars@.last().1@)));
        }
    }

    /// Look a name up, returning the bound value.
    pub fn get(&self, name: &str) -> (r: Option<String>)
        ensures
            match r {
                Some(v) => lookup(self@, name@) == Some(v@),
                None => lookup(self@, name@) is None,
            },
    {
        let mut i: usize = self.vars.len();
        proof {
            assert(self@.take(i as int) =~= self@);
        }
        while i > 0
            invariant
                i <= self.vars.len(),
                lookup(self@, name@) == lookup(self@.take(i as int), name@),
        decreases i,
        {
            let idx = i - 1;
            proof {
                assert(self@.take(i as int).last() == self@[idx as int]);
                assert(self@.take(i as int).drop_last() =~= self@.take(idx as int));
            }
            if str_eq(self.vars[idx].0.as_str(), name) {
                return Some(self.vars[idx].1.clone());
            }
            i = idx;
        }
        proof {
            assert(self@.take(0) =~= Seq::<(Seq<char>, Seq<char>)>::empty());
        }
        None
    }
}

/// Index of the first `:` at or after `i`, or the end of the text.
pub open spec fn field_end(s: Seq<char>, i: int) -> int
    decreases s.len() - i,
{
    if i >= s.len() || s[i] == ':' {
        i
    } else {
        field_end(s, i + 1)
    }
}

pub proof fn lemma_field_end_bounds(s: Seq<char>, i: int)
    requires
        0 <= i <= s.len(),
    ensures
        i <= field_end(s, i) <= s.len(),
    decreases s.len() - i,
{
    if i < s.len() && s[i] != ':' {
        lemma_field_end_bounds(s, i + 1);
    }
}

/// The colon-separated fields of the text from position `i` on. Empty
/// fields are kept, so `a::b` has three fields and a trailing colon yields a
/// final empty field.
pub open spec fn colon_fields_from(s: Seq<char>, i: int) -> Seq<Seq<char>>
    decreases s.len() - i + 1,
    via colon_fields_from_decreases
{
    if !(0 <= i <= s.len()) {
        Seq::empty()
    } else {
        let k = field_end(s, i);
        if k >= s.len() {
            seq![s.subrange(i, s.len() as int)]
        } else {
            seq![s.subrange(i, k)] + colon_fields_from(s, k + 1)
        }
    }
}

#[via_fn]
proof fn colon_fields_from_decreases(s: Seq<char>, i: int) {
    if 0 <= i <= s.len() {
        lemma_field_end_bounds(s, i);
    }
}

/// The colon-separated fields of a whole text.
pub open spec fn colon_fields(s: Seq<char>) -> Seq<Seq<char>> {
    colon_fields_from(s, 0)
}

/// If `[a, b)` holds no colon and `b` sits at a colon or at the end, the
/// field starting at `a` ends exactly at `b`.
proof fn lemma_field_end_exact(s: Seq<char>, a: int, b: int)
    requires
        0 <= a <= b <= s.len(),
        forall|j: int| a <= j < b ==> s[j] != ':',
        b == s.len() || s[b] == ':',
    ensures
        field_end(s, a) == b,
    decreases b - a,
{
    if a < b {
        lemma_field_end_exact(s, a + 1, b);
    }
}

/// The views of a sequence of strings.
pub open spec fn strings_view(ss: Seq<String>) -> Seq<Seq<char>> {
    ss.map_values(|x: String| x@)
}

/// Copy a vector of strings.
pub fn clone_strings(v: &Vec<String>) -> (r: Vec<String>)
    ensures
        strings_view(r@) == strings_view(v@),
{
    let mut r: Vec<String> = Vec::new();
    let mut i: usize = 0;
    while i < v.len()
        invariant
            i <= v.len(),
            strings_view(r@) == strings_view(v@).take(i as int),
        decreases v.len() - i,
    {
        let ghost before = r@;
        r.push(v[i].clone());
        proof {
            assert(strings_view(r@) =~= strings_view(before).push(v@[i as int]@));
            assert(strings_view(r@) =~= strings_view(v@).take(i + 1));
        }
        i = i + 1;
    }
    proof {
        assert(strings_view(v@).take(v@.len() as int) =~= strings_view(v@));
    }
    r
}

/// Split a text on `:`, keeping empty fields.
pub fn split_colon(s: &str) -> (r: Vec<String>)
    ensures
        strings_view(r@) == colon_fields(s@),
{
    let n = s.unicode_len();
    let mut fields: Vec<String> = Vec::new();
    let mut start: usize = 0;
    let mut i: usize = 0;
    while i < n
        invariant
            n == s@.len(),
            start <= i <= n,
            forall|j: int| start <= j < i ==> s@[j] != ':',
            strings_view(fields@) + colon_fields_from(s@, start as int) == colon_fields(s@),
        decreases n - i,
    {
        if s.get_char(i) == ':' {
            proof {
                lemma_field_end_exact(s@, start as int, i as int);
            }
            let ghost before = fields@;
            let f = s.substring_char(start, i).to_owned();
            fields.push(f);
            proof {
                assert(strings_view(fields@) =~= strings_view(before).push(f@));
                assert(colon_fields_from(s@, start as int) =~= seq![s@.subrange(
                    start as int,
                    i as int,
                )] + colon_fields_from(s@, i + 1));
                assert(strings_view(fields@) + colon_fields_from(s@, i + 1) =~= colon_fields(
                    s@,
                ));
            }
            start = i + 1;
        }
        i = i + 1;
    }
    proof {
        lemma_field_end_exact(s@, start as int, n as int);
    }
    let ghost before = fields@;
    let f = s.substring_char(start, n).to_owned();
    fields.push(f);
    proof {
        assert(strings_view(fields@) =~= strings_view(before).push(f@));
        assert(colon_fields_from(s@, start as int) =~= seq![s@.subrange(start as int, n as int)]);
        assert(strings_view(fields@) =~= colon_fields(s@));
    }
    fields
}

/// Relies on std::path::Path::exists: whether the path names an existing
/// filesystem entity. The answer depends on the state of the disk, so
/// nothing is promised of it.
#[verifier::external_body]
fn path_exists(p: &String) -> bool {
    std::path::Path::new(p.as_str()).exists()
}

/// The executable-path candidate `<dir>/<word>`.
pub open spec fn candidate_of(dir: Seq<char>, word: Seq<char>) -> Seq<char> {
    dir + seq!['/'] + word
}

/// `out` is `<dir>/<word>` for one of the given directories.
pub open spec fn path_candidate(dirs: Seq<Seq<char>>, word: Seq<char>, out: Seq<char>) -> bool {
    exists|d: int| 0 <= d < dirs.len() && out == candidate_of(#[trigger] dirs[d], word)
}

/// The least index at or after `i` whose flag is set, or the length when
/// none is.
pub open spec fn first_true_from(bs: Seq<bool>, i: int) -> int
    decreases bs.len() - i,
{
    if !(0 <= i < bs.len()) {
        bs.len() as int
    } else if bs[i] {
        i
    } else {
        first_true_from(bs, i + 1)
    }
}

pub proof fn lemma_first_true_from(bs: Seq<bool>, i: int)
    requires
        0 <= i <= bs.len(),
    ensures
        i <= first_true_from(bs, i) <= bs.len(),
        first_true_from(bs, i) < bs.len() ==> bs[first_true_from(bs, i)],
        forall|k: int| i <= k < first_true_from(bs, i) ==> !bs[k],
    decreases bs.len() - i,
{
    if i < bs.len() && !bs[i] {
        lemma_first_true_from(bs, i + 1);
    }
}

/// Pick the resolution a command word is owed, the existence answers taken
/// as values: the candidate `<dir>/<word>` of the *first* directory whose
/// flag is set — the directories are scanned left to right — or the literal
/// word when no flag is set.
pub fn first_existing(dirs: &Vec<String>, word: &str, exists: &Vec<bool>) -> (r: String)
    requires
        dirs@.len() == exists@.len(),
    ensures
        ({
            let j = first_true_from(exists@, 0);
            if j < exists@.len() {
                r@ == candidate_of(dirs@[j]@, word@)
            } else {
                r@ == word@
            }
        }),
{
    let mut k: usize = 0;
    while k < dirs.len()
        invariant
            dirs@.len() == exists@.len(),
            k <= dirs@.len(),
            first_true_from(exists@, k as int) == first_true_from(exists@, 0),
        decreases dirs.len() - k,
    {
        if exists[k] {
            proof {
                assert(first_true_from(exists@, k as int) == k as int);
            }
            let mut cand = dirs[k].clone();
            proof {
                reveal_strlit("/");
                assert("/"@ =~= seq!['/']);
            }
            cand.append("/");
            cand.append(word);
            return cand;
        }
        k = k + 1;
    }
    word.to_owned()
}

/// What resolving a command word may produce: with no `PATH` the literal
/// word; otherwise either `<dir>/<word>` for one of `PATH`'s directories
/// (the first whose candidate exists on disk) or, when none exists, the
/// literal word as a fallback.
pub open spec fn resolution_ok(
    env: Seq<(Seq<char>, Seq<char>)>,
    word: Seq<char>,
    out: Seq<char>,
) -> bool {
    match lookup(env, "PATH"@) {
        None => out == word,
        Some(p) => out == word || path_candidate(colon_fields(p), word, out),
    }
}

/// Resolve a command word to an executable path: probe `<dir>/<word>` for
/// each directory of `PATH` and return the candidate of the first directory
/// whose probe succeeded, falling back to the literal word, so that a
/// failure surfaces only when the program image is replaced. The disk
/// answers the probes, so this contract admits every probe outcome; the
/// first-match selection itself is the verified `first_existing`.
pub fn resolve_path(word: &str, env: &Environment) -> (r: String)
    ensures
        resolution_ok(env@, word@, r@),
{
    let path = env.get("PATH");
    match path {
        None => word.to_owned(),
        Some(p) => {
            let dirs = split_colon(p.as_str());
            let mut exists: Vec<bool> = Vec::new();
            let mut d: usize = 0;
            while d < dirs.len()
                invariant
                    d <= dirs.len(),
                    exists@.len() == d,
                    lookup(env@, "PATH"@) == Some(p@),
                    strings_view(dirs@) == colon_fields(p@),
                decreases dirs.len() - d,
            {
                let mut cand = dirs[d].clone();
                proof {
                    reveal_strlit("/");
                    assert("/"@ =~= seq!['/']);
                }
                cand.append("/");
                cand.append(word);
                exists.push(path_exists(&cand));
                d = d + 1;
            }
            let r = first_existing(&dirs, word, &exists);
            proof {
                let j = first_true_from(exists@, 0);
                lemma_first_true_from(exists@, 0);
                if j < exists@.len() {
                    assert(r@ == candidate_of(colon_fields(p@)[j], word@));
                    assert(path_candidate(colon_fields(p@), word@, r@));
                }
            }
            r
        },
    }
}

/// The placeholder substituted for a variable reference that the
/// environment does not bind; expansion never aborts on a missing variable.
pub open spec fn env_placeholder() -> Seq<char> {
    "Environment Variable Not Found"@
}

/// Build the placeholder text.
pub fn placeholder_string() -> (r: String)
    ensures
        r@ == env_placeholder(),
{
    "Environment Variable Not Found".to_owned()
}

/// The value of `HOME`, or `/` when it is unset.
pub open spec fn home_or_root(env: Seq<(Seq<char>, Seq<char>)>) -> Seq<char> {
    match lookup(env, "HOME"@) {
        Some(h) => h,
        None => "/"@,
    }
}

/// Look `HOME` up, falling back to `/`.
pub fn home_string(env: &Environment) -> (r: String)
    ensures
        r@ == home_or_root(env@),
{
    match env.get("HOME") {
        Some(h) => h,
        None => "/".to_owned(),
    }
}

/// A token occupies command position when it is the first token overall or
/// immediately follows a pipe; only there is a word resolved via `PATH`.
pub open spec fn is_cmd_position(ts: Seq<TokenModel>, i: int) -> bool {
    i == 0 || ts[i - 1] is Pipe
}

/// What the expansion of token `i` may produce, per the rules above: words
/// in command position resolve via `PATH`; other words, arguments and
/// redirection filenames pass through literally; variable references
/// substitute their value or the placeholder; a tilde substitutes `HOME`;
/// structural markers are preserved as the literal marker text.
pub open spec fn expansion_ok(
    env: Seq<(Seq<char>, Seq<char>)>,
    ts: Seq<TokenModel>,
    i: int,
    out: Seq<char>,
) -> bool {
    match ts[i] {
        TokenModel::Word(w) => if is_cmd_position(ts, i) {
            resolution_ok(env, w, out)
        } else {
            out == w
        },
        TokenModel::Argument(a) => out == a,
        TokenModel::EnvVar(n) => out == (match lookup(env, n) {
            Some(v) => v,
            None => env_placeholder(),
        }),
        TokenModel::Tilde => out == home_or_root(env),
        TokenModel::Pipe => out == "|"@,
        TokenModel::RedirOut => out == ">"@,
        TokenModel::RedirIn => out == "<"@,
        TokenModel::Background => out == "&"@,
    }
}

/// Expand a token sequence into literal text: exactly one literal per
/// token, each per `expansion_ok`. Never raises a hard error; every failure
/// degrades to a literal fallback.
pub fn expand_tokens(tokens: &Vec<Token>, env: &Environment) -> (r: Vec<String>)
    ensures
        r@.len() == tokens@.len(),
        forall|i: int|
            0 <= i < tokens@.len() ==> expansion_ok(
                env@,
                tokens_view(tokens@),
                i,
                (#[trigger] r@[i])@,
            ),
{
    let ghost ts = tokens_view(tokens@);
    let mut out: Vec<String> = Vec::new();
    let mut prev_pipe: bool = false;
    let mut i: usize = 0;
    while i < tokens.len()
        invariant
            i <= tokens.len(),
            out@.len() == i,
            ts == tokens_view(tokens@),
            prev_pipe == (i > 0 && ts[i - 1] is Pipe),
            forall|j: int| 0 <= j < i ==> expansion_ok(env@, ts, j, (#[trigger] out@[j])@),
        decreases tokens.len() - i,
    {
        proof {
            assert(ts[i as int] == tokens@[i as int]@);
        }
        let is_pipe: bool;
        let expanded: String;
        match &tokens[i] {
            Token::Word(w) => {
                is_pipe = false;
                if i == 0 || prev_pipe {
                    expanded = resolve_path(w.as_str(), env);
                } else {
                    expanded = w.clone();
                }
            },
            Token::Argument(a) => {
                is_pipe = false;
                expanded = a.clone();
            },
            Token::EnvVar(n) => {
                is_pipe = false;
                expanded = match env.get(n.as_str()) {
                    Some(v) => v,
                    None => placeholder_string(),
                };
            },
            Token::Tilde => {
                is_pipe = false;
                expanded = home_string(env);
            },
            Token::Pipe => {
                is_pipe = true;
                expanded = "|".to_owned();
            },
            Token::RedirOut => {
                is_pipe = false;
                expanded = ">".to_owned();
            },
            Token::RedirIn => {
                is_pipe = false;
                expanded = "<".to_owned();
            },
            Token::Background => {
                is_pipe = false;
                expanded = "&".to_owned();
            },
        }
        proof {
            assert(expansion_ok(env@, ts, i as int, expanded@));
        }
        out.push(expanded);
        prev_pipe = is_pipe;
        i = i + 1;
    }
    out
}

} // verus!
