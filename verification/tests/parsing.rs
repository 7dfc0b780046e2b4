//! Lexer, expander and pipeline-builder behaviour on concrete lines.

use minishell::executor::{execution_plan, mode_is_regular, preflight};
use minishell::expand::{
    expand_tokens, first_existing, resolve_path, split_colon, str_eq, Environment,
};
use minishell::parser::{classify_word, tokenize, Token};
use minishell::pipeline::build;

fn words(ws: &[&str]) -> Vec<String> {
    ws.iter().map(|w| w.to_string()).collect()
}

#[test]
fn lexer_plain_words_one_token_each() {
    let toks = tokenize("ls -l  file.txt");
    assert_eq!(toks.len(), 3);
    assert!(matches!(&toks[0], Token::Word(w) if w == "ls"));
    assert!(matches!(&toks[1], Token::Argument(a) if a == "-l"));
    assert!(matches!(&toks[2], Token::Word(w) if w == "file.txt"));
}

#[test]
fn lexer_classifies_markers_and_references() {
    let toks = tokenize("a | b > c < d & ~x $HOME");
    assert_eq!(toks.len(), 10);
    assert!(matches!(&toks[0], Token::Word(w) if w == "a"));
    assert!(matches!(&toks[1], Token::Pipe));
    assert!(matches!(&toks[2], Token::Word(w) if w == "b"));
    assert!(matches!(&toks[3], Token::RedirOut));
    assert!(matches!(&toks[4], Token::Word(w) if w == "c"));
    assert!(matches!(&toks[5], Token::RedirIn));
    assert!(matches!(&toks[6], Token::Word(w) if w == "d"));
    assert!(matches!(&toks[7], Token::Background));
    assert!(matches!(&toks[8], Token::Tilde));
    assert!(matches!(&toks[9], Token::EnvVar(n) if n == "HOME"));
}

#[test]
fn lexer_is_total_on_odd_input() {
    assert_eq!(tokenize("").len(), 0);
    assert_eq!(tokenize("   \t  ").len(), 0);
    // A literal `|` inside a larger word is not special.
    let toks = tokenize("a|b");
    assert_eq!(toks.len(), 1);
    assert!(matches!(&toks[0], Token::Word(w) if w == "a|b"));
    // `$` alone names the empty variable; `-` alone is an argument.
    let toks = tokenize("$ -");
    assert!(matches!(&toks[0], Token::EnvVar(n) if n.is_empty()));
    assert!(matches!(&toks[1], Token::Argument(a) if a == "-"));
}

#[test]
fn classify_word_exact_markers_only() {
    assert!(matches!(classify_word("|"), Token::Pipe));
    assert!(matches!(classify_word(">"), Token::RedirOut));
    assert!(matches!(classify_word("<"), Token::RedirIn));
    assert!(matches!(classify_word("&"), Token::Background));
    assert!(matches!(classify_word("~anything"), Token::Tilde));
    assert!(matches!(classify_word(">>"), Token::Word(w) if w == ">>"));
}

#[test]
fn str_eq_agrees_with_equality() {
    assert!(str_eq("abc", "abc"));
    assert!(!str_eq("abc", "abd"));
    assert!(!str_eq("abc", "ab"));
    assert!(str_eq("", ""));
}

#[test]
fn split_colon_keeps_empty_fields() {
    let f = split_colon("a::b");
    assert_eq!(f, vec!["a".to_string(), "".to_string(), "b".to_string()]);
    let f = split_colon("");
    assert_eq!(f, vec!["".to_string()]);
    let f = split_colon("x:");
    assert_eq!(f, vec!["x".to_string(), "".to_string()]);
}

#[test]
fn expander_substitutes_variables_and_placeholder() {
    let mut env = Environment::new();
    env.set("FOO".to_string(), "bar".to_string());
    let toks = tokenize("echo $FOO $MISSING");
    let out = expand_tokens(&toks, &env);
    assert_eq!(out.len(), 3);
    assert_eq!(out[1], "bar");
    assert_eq!(out[2], "Environment Variable Not Found");
}

#[test]
fn expander_substitutes_tilde_with_home_or_root() {
    let mut env = Environment::new();
    env.set("HOME".to_string(), "/home/u".to_string());
    let out = expand_tokens(&tokenize("cd ~"), &env);
    assert_eq!(out[1], "/home/u");
    let empty = Environment::new();
    let out = expand_tokens(&tokenize("cd ~"), &empty);
    assert_eq!(out[1], "/");
}

#[test]
fn expander_preserves_markers_and_arguments() {
    let env = Environment::new();
    let out = expand_tokens(&tokenize("a -v | b > f < g &"), &env);
    assert_eq!(
        out,
        vec!["a", "-v", "|", "b", ">", "f", "<", "g", "&"]
            .into_iter()
            .map(|s| s.to_string())
            .collect::<Vec<_>>()
    );
}

#[test]
fn expander_resolves_only_command_positions() {
    // `/usr` exists, so a word in command position resolves to `/usr/bin`
    // when PATH holds `/usr`; the same word elsewhere stays literal.
    let mut env = Environment::new();
    env.set("PATH".to_string(), "/nonexistent_dir_qq:/usr".to_string());
    let out = expand_tokens(&tokenize("bin bin"), &env);
    assert_eq!(out[0], "/usr/bin");
    assert_eq!(out[1], "bin");
    // After a pipe the word is again in command position.
    let out = expand_tokens(&tokenize("x | bin"), &env);
    assert_eq!(out[2], "/usr/bin");
}

#[test]
fn lexer_splits_on_unicode_whitespace() {
    // The original splits on the full Unicode White_Space set: no-break
    // space, vertical tab and line separator all separate words.
    let toks = tokenize("a\u{A0}b\u{0B}c\u{2028}d");
    assert_eq!(toks.len(), 4);
    assert!(matches!(&toks[0], Token::Word(w) if w == "a"));
    assert!(matches!(&toks[1], Token::Word(w) if w == "b"));
    assert!(matches!(&toks[2], Token::Word(w) if w == "c"));
    assert!(matches!(&toks[3], Token::Word(w) if w == "d"));
}

#[test]
fn first_existing_picks_first_match() {
    let dirs = words(&["/a", "/b", "/c"]);
    // The first set flag wins, later ones are ignored.
    assert_eq!(
        first_existing(&dirs, "prog", &vec![false, true, true]),
        "/b/prog"
    );
    assert_eq!(
        first_existing(&dirs, "prog", &vec![true, false, true]),
        "/a/prog"
    );
    // No flag set: the literal word.
    assert_eq!(
        first_existing(&dirs, "prog", &vec![false, false, false]),
        "prog"
    );
    assert_eq!(first_existing(&Vec::new(), "prog", &Vec::new()), "prog");
}

#[test]
fn mode_word_decides_regular_file() {
    // 0o100644: a regular file; 0o040755: a directory; 0o120777: a symlink.
    assert!(mode_is_regular(0o100644));
    assert!(mode_is_regular(0o100000));
    assert!(!mode_is_regular(0o040755));
    assert!(!mode_is_regular(0o120777));
}

#[test]
fn expander_falls_back_to_literal_word() {
    let mut env = Environment::new();
    env.set("PATH".to_string(), "/nonexistent_dir_qq".to_string());
    let out = expand_tokens(&tokenize("no_such_program_zz"), &env);
    assert_eq!(out[0], "no_such_program_zz");
    // No PATH at all: the literal word.
    let empty = Environment::new();
    assert_eq!(resolve_path("ls", &empty), "ls");
}

#[test]
fn builder_single_stage_with_output_redirect() {
    let env = Environment::new();
    let expanded = expand_tokens(&tokenize("echo hi > out.txt"), &env);
    let stages = build(&expanded);
    assert_eq!(stages.len(), 1);
    assert_eq!(stages[0].program, "echo");
    assert_eq!(stages[0].arguments, vec!["hi".to_string()]);
    assert_eq!(stages[0].output_redirect.as_deref(), Some("out.txt"));
    assert_eq!(stages[0].input_redirect, None);
    assert!(!stages[0].pipes_to_next);
    assert!(!stages[0].runs_in_background);
    assert!(stages[0].malformed.is_none());
}

#[test]
fn builder_two_stages_joined_by_pipe() {
    let stages = build(&words(&["printf", "abc", "|", "/usr/bin/wc", "-c"]));
    assert_eq!(stages.len(), 2);
    assert_eq!(stages[0].program, "printf");
    assert_eq!(stages[0].arguments, vec!["abc".to_string()]);
    assert!(stages[0].pipes_to_next);
    assert_eq!(stages[1].program, "/usr/bin/wc");
    assert_eq!(stages[1].arguments, vec!["-c".to_string()]);
    assert!(!stages[1].pipes_to_next);
}

#[test]
fn builder_three_stages_have_two_pipes() {
    let stages = build(&words(&["a", "|", "b", "|", "c"]));
    assert_eq!(stages.len(), 3);
    assert!(stages[0].pipes_to_next);
    assert!(stages[1].pipes_to_next);
    assert!(!stages[2].pipes_to_next);
}

#[test]
fn builder_background_on_final_stage() {
    let stages = build(&words(&["sleep", "1", "&"]));
    assert_eq!(stages.len(), 1);
    assert_eq!(stages[0].program, "sleep");
    assert_eq!(stages[0].arguments, vec!["1".to_string()]);
    assert!(stages[0].runs_in_background);
    assert!(stages[0].malformed.is_none());
}

#[test]
fn builder_input_redirect() {
    let stages = build(&words(&["wc", "-l", "<", "in.txt"]));
    assert_eq!(stages.len(), 1);
    assert_eq!(stages[0].input_redirect.as_deref(), Some("in.txt"));
    assert_eq!(stages[0].arguments, vec!["-l".to_string()]);
}

#[test]
fn builder_empty_input_yields_no_stage() {
    let stages = build(&Vec::new());
    assert_eq!(stages.len(), 0);
}

#[test]
fn builder_marks_dangling_output_redirect() {
    let stages = build(&words(&["echo", "hi", ">"]));
    assert_eq!(stages.len(), 1);
    assert_eq!(
        stages[0].malformed.as_deref(),
        Some("missing output file after redirection operator")
    );
}

#[test]
fn builder_marks_dangling_input_redirect() {
    let stages = build(&words(&["wc", "<"]));
    assert_eq!(stages.len(), 1);
    assert_eq!(
        stages[0].malformed.as_deref(),
        Some("missing input file after redirection operator")
    );
}

#[test]
fn executor_refuses_malformed_pipeline() {
    let stages = build(&words(&["a", "|", "b", ">"]));
    let diag = preflight(&stages);
    assert_eq!(
        diag.as_deref(),
        Some("redirection error: missing output file after redirection operator")
    );
    assert!(execution_plan(&stages).is_none());
}

#[test]
fn executor_plans_sound_pipeline() {
    let stages = build(&words(&["printf", "abc", "|", "wc", "-c"]));
    assert!(preflight(&stages).is_none());
    let plan = execution_plan(&stages).unwrap();
    assert_eq!(plan.stages.len(), 2);
    assert_eq!(plan.stages[0].argv, vec!["printf".to_string(), "abc".to_string()]);
    assert!(plan.stages[0].create_pipe);
    assert!(!plan.stages[0].read_prev);
    assert_eq!(plan.stages[1].argv, vec!["wc".to_string(), "-c".to_string()]);
    assert!(!plan.stages[1].create_pipe);
    assert!(plan.stages[1].read_prev);
    assert!(!plan.register_background);
}

#[test]
fn executor_plans_background_registration() {
    let stages = build(&words(&["sleep", "1", "&"]));
    let plan = execution_plan(&stages).unwrap();
    assert_eq!(plan.stages.len(), 1);
    assert!(plan.register_background);
    let stages = build(&words(&["sleep", "1"]));
    let plan = execution_plan(&stages).unwrap();
    assert!(!plan.register_background);
}

#[test]
fn executor_plan_carries_redirections() {
    let stages = build(&words(&["sort", "<", "in.txt", ">", "out.txt"]));
    let plan = execution_plan(&stages).unwrap();
    assert_eq!(plan.stages.len(), 1);
    assert_eq!(plan.stages[0].input_redirect.as_deref(), Some("in.txt"));
    assert_eq!(plan.stages[0].output_redirect.as_deref(), Some("out.txt"));
}
