//! Lexer: splits a raw command line into typed tokens.
//!
//! A line is split on runs of whitespace; each word is then classified, in
//! order: the exact words `|`, `>`, `<`, `&` become structural markers; a word
//! starting with `~` is a tilde reference; one starting with `$` is an
//! environment-variable reference carrying the remainder; one starting with
//! `-` is an argument; anything else is a plain word. No quoting or escaping
//! is recognized.

use vstd::prelude::*;

verus! {

/// True of the characters the lexer treats as word separators: the Unicode
/// `White_Space` set.
pub open spec fn is_space(c: char) -> bool {
    let u = c as u32;
    u == 0x20 || (0x09 <= u && u <= 0x0D) || u == 0x85 || u == 0xA0 || u == 0x1680 || (0x2000 <= u
        && u <= 0x200A) || u == 0x2028 || u == 0x2029 || u == 0x202F || u == 0x205F || u == 0x3000
}

/// Executable mirror of `is_space`.
pub fn space_char(c: char) -> (r: bool)
    ensures
        r == is_space(c),
{
    let u = c as u32;
    u == 0x20 || (0x09 <= u && u <= 0x0D) || u == 0x85 || u == 0xA0 || u == 0x1680 || (0x2000 <= u
        && u <= 0x200A) || u == 0x2028 || u == 0x2029 || u == 0x202F || u == 0x205F || u == 0x3000
}

/// One lexed token of a command line.
pub enum Token {
    /// A bare word: a command name, filename, or plain argument.
    Word(String),
    /// A word beginning with `-`.
    Argument(String),
    /// `$name`: the name of an environment variable to substitute.
    EnvVar(String),
    /// The word `|`.
    Pipe,
    /// The word `>`.
    RedirOut,
    /// The word `<`.
    RedirIn,
    /// The word `&`.
    Background,
    /// A word beginning with `~`.
    Tilde,
}

/// Mathematical model of a token: the same variants over character sequences.
pub enum TokenModel {
    Word(Seq<char>),
    Argument(Seq<char>),
    EnvVar(Seq<char>),
    Pipe,
    RedirOut,
    RedirIn,
    Background,
    Tilde,
}

impl View for Token {
    type V = TokenModel;

    open spec fn view(&self) -> TokenModel {
        match self {
            Token::Word(s) => TokenModel::Word(s@),
            Token::Argument(s) => TokenModel::Argument(s@),
            Token::EnvVar(s) => TokenModel::EnvVar(s@),
            Token::Pipe => TokenModel::Pipe,
            Token::RedirOut => TokenModel::RedirOut,
            Token::RedirIn => TokenModel::RedirIn,
            Token::Background => TokenModel::Background,
            Token::Tilde => TokenModel::Tilde,
        }
    }
}

/// The models of a sequence of tokens.
pub open spec fn tokens_view(ts: Seq<Token>) -> Seq<TokenModel> {
    ts.map_values(|t: Token| t@)
}

/// Index of the first non-separator character at or after `i`.
pub open spec fn next_non_space(s: Seq<char>, i: int) -> int
    decreases s.len() - i,
{
    if i >= s.len() || !is_space(s[i]) {
        i
    } else {
        next_non_space(s, i + 1)
    }
}

/// Index just past the word that starts at `i`: the first separator (or the
/// end of the line) at or after `i`.
pub open spec fn word_end(s: Seq<char>, i: int) -> int
    decreases s.len() - i,
{
    if i >= s.len() || is_space(s[i]) {
        i
    } else {
        word_end(s, i + 1)
    }
}

pub proof fn lemma_next_non_space_bounds(s: Seq<char>, i: int)
    requires
        0 <= i <= s.len(),
    ensures
        i <= next_non_space(s, i) <= s.len(),
        next_non_space(s, i) < s.len() ==> !is_space(s[next_non_space(s, i)]),
    decreases s.len() - i,
{
    if i < s.len() && is_space(s[i]) {
        lemma_next_non_space_bounds(s, i + 1);
    }
}

pub proof fn lemma_word_end_bounds(s: Seq<char>, i: int)
    requires
        0 <= i <= s.len(),
    ensures
        i <= word_end(s, i) <= s.len(),
        i < s.len() && !is_space(s[i]) ==> word_end(s, i) > i,
    decreases s.len() - i,
{
    if i < s.len() && !is_space(s[i]) {
        lemma_word_end_bounds(s, i + 1);
    }
}

/// The whitespace-separated words of `s`, from position `i` on.
pub open spec fn words_from(s: Seq<char>, i: int) -> Seq<Seq<char>>
    decreases s.len() - i,
    via words_from_decreases
{
    if !(0 <= i <= s.len()) {
        Seq::empty()
    } else {
        let j = next_non_space(s, i);
        if j >= s.len() {
            Seq::empty()
        } else {
            let k = word_end(s, j);
            seq![s.subrange(j, k)] + words_from(s, k)
        }
    }
}

#[via_fn]
proof fn words_from_decreases(s: Seq<char>, i: int) {
    if 0 <= i <= s.len() {
        let j = next_non_space(s, i);
        lemma_next_non_space_bounds(s, i);
        if j < s.len() {
            lemma_word_end_bounds(s, j);
        }
    }
}

/// The whitespace-separated words of a whole line.
pub open spec fn spec_words(s: Seq<char>) -> Seq<Seq<char>> {
    words_from(s, 0)
}

/// Classification of one word, in the order given above.
pub open spec fn spec_classify(w: Seq<char>) -> TokenModel {
    if w.len() == 1 && w[0] == '|' {
        TokenModel::Pipe
    } else if w.len() == 1 && w[0] == '>' {
        TokenModel::RedirOut
    } else if w.len() == 1 && w[0] == '<' {
        TokenModel::RedirIn
    } else if w.len() == 1 && w[0] == '&' {
        TokenModel::Background
    } else if w.len() >= 1 && w[0] == '~' {
        TokenModel::Tilde
    } else if w.len() >= 1 && w[0] == '$' {
        TokenModel::EnvVar(w.subrange(1, w.len() as int))
    } else if w.len() >= 1 && w[0] == '-' {
        TokenModel::Argument(w)
    } else {
        TokenModel::Word(w)
    }
}

/// The token sequence of a whole line: one classified token per word.
pub open spec fn spec_tokenize(s: Seq<char>) -> Seq<TokenModel> {
    spec_words(s).map_values(|w: Seq<char>| spec_classify(w))
}

/// The tokens of the line from position `i` on.
pub open spec fn tokenize_from(s: Seq<char>, i: int) -> Seq<TokenModel> {
    words_from(s, i).map_values(|w: Seq<char>| spec_classify(w))
}

/// Skipping one separator character does not change the words that remain.
proof fn lemma_skip_space(s: Seq<char>, i: int)
    requires
        0 <= i < s.len(),
        is_space(s[i]),
    ensures
        words_from(s, i) == words_from(s, i + 1),
{
    assert(next_non_space(s, i) == next_non_space(s, i + 1));
}

/// Classify one word.
pub fn classify_word(w: &str) -> (t: Token)
    ensures
        t@ == spec_classify(w@),
{
    let len = w.unicode_len();
    if len == 1 && w.get_char(0) == '|' {
        Token::Pipe
    } else if len == 1 && w.get_char(0) == '>' {
        Token::RedirOut
    } else if len == 1 && w.get_char(0) == '<' {
        Token::RedirIn
    } else if len == 1 && w.get_char(0) == '&' {
        Token::Background
    } else if len >= 1 && w.get_char(0) == '~' {
        Token::Tilde
    } else if len >= 1 && w.get_char(0) == '$' {
        Token::EnvVar(w.substring_char(1, len).to_owned())
    } else if len >= 1 && w.get_char(0) == '-' {
        Token::Argument(w.to_owned())
    } else {
        Token::Word(w.to_owned())
    }
}

/// Split a raw input line into tokens: one per whitespace-separated word,
/// classified per `spec_classify`. Total: never fails, on any input.
pub fn tokenize(input: &str) -> (r: Vec<Token>)
    ensures
        tokens_view(r@) == spec_tokenize(input@),
{
    let ghost s = input@;
    let n = input.unicode_len();
    let mut toks: Vec<Token> = Vec::new();
    let mut i: usize = 0;
    while i < n
        invariant
            n == s.len(),
            s == input@,
            i <= n,
            tokens_view(toks@) + tokenize_from(s, i as int) == spec_tokenize(s),
        decreases n - i,
    {
        let ghost i0 = i;
        // Skip the run of separators before the next word.
        while i < n && space_char(input.get_char(i))
            invariant
                n == s.len(),
                s == input@,
                i0 <= i <= n,
                tokens_view(toks@) + tokenize_from(s, i as int) == spec_tokenize(s),
            decreases n - i,
        {
            proof {
                lemma_skip_space(s, i as int);
            }
            i = i + 1;
        }
        if i < n {
            let start = i;
            // Scan to the end of the word.
            while i < n && !space_char(input.get_char(i))
                invariant
                    n == s.len(),
                    s == input@,
                    start <= i <= n,
                    !is_space(s[start as int]),
                    forall|j: int| start <= j < i ==> !is_space(s[j]),
                decreases n - i,
            {
                i = i + 1;
            }
            proof {
                lemma_word_end_exact(s, start as int, i as int);
                assert(next_non_space(s, start as int) == start as int);
            }
            let w = input.substring_char(start, i);
            let t = classify_word(w);
            proof {
                let ghost old_toks = toks@;
                assert(words_from(s, start as int) == seq![s.subrange(
                    start as int,
                    i as int,
                )] + words_from(s, i as int));
                assert(tokenize_from(s, start as int) =~= seq![spec_classify(w@)]
                    + tokenize_from(s, i as int));
                assert(tokens_view(old_toks.push(t)) =~= tokens_view(old_toks) + seq![t@]);
            }
            toks.push(t);
        }
        proof {
            assert(i > i0);
        }
    }
    proof {
        assert(tokenize_from(s, n as int) =~= Seq::<TokenModel>::empty());
        assert(tokens_view(toks@) =~= tokens_view(toks@) + tokenize_from(s, n as int));
    }
    toks
}

/// A character that influences classification beyond the plain
/// word/argument distinction.
pub open spec fn is_special_char(c: char) -> bool {
    c == '|' || c == '>' || c == '<' || c == '&' || c == '~' || c == '$'
}

/// A word none of whose characters is special.
pub open spec fn plain_word(w: Seq<char>) -> bool {
    forall|i: int| 0 <= i < w.len() ==> !is_special_char(#[trigger] w[i])
}

/// Law: the lexer yields exactly one token per whitespace-separated word,
/// and on a line whose words hold no special characters each word starting
/// with `-` becomes an `Argument` carrying the word and every other word a
/// `Word` carrying it.
pub proof fn lemma_tokenize_plain_words(s: Seq<char>)
    requires
        forall|k: int| 0 <= k < spec_words(s).len() ==> plain_word(#[trigger] spec_words(s)[k]),
    ensures
        spec_tokenize(s).len() == spec_words(s).len(),
        forall|k: int|
            0 <= k < spec_words(s).len() ==> #[trigger] spec_tokenize(s)[k] == (if spec_words(
                s,
            )[k].len() >= 1 && spec_words(s)[k][0] == '-' {
                TokenModel::Argument(spec_words(s)[k])
            } else {
                TokenModel::Word(spec_words(s)[k])
            }),
{
    assert forall|k: int|
        0 <= k < spec_words(s).len() implies #[trigger] spec_tokenize(s)[k] == (if spec_words(
        s,
    )[k].len() >= 1 && spec_words(s)[k][0] == '-' {
        TokenModel::Argument(spec_words(s)[k])
    } else {
        TokenModel::Word(spec_words(s)[k])
    }) by {
        let w = spec_words(s)[k];
        if w.len() >= 1 {
            assert(!is_special_char(w[0]));
        }
    }
}

/// If every character in `[a, b)` is a non-separator and `b` sits at a
/// separator or at the end, then the word starting at `a` ends exactly at `b`.
proof fn lemma_word_end_exact(s: Seq<char>, a: int, b: int)
    requires
        0 <= a <= b <= s.len(),
        forall|j: int| a <= j < b ==> !is_space(s[j]),
        b == s.len() || is_space(s[b]),
    ensures
        word_end(s, a) == b,
    decreases b - a,
{
    if a < b {
        lemma_word_end_exact(s, a + 1, b);
    }
}

} // verus!
