//! Built-in dispatch, `cd` argument expansion, and the command history.

use minishell::builtins::{
    cd_target, exit_report, expand_cd_arg, try_builtin, BuiltinCommand, BuiltinResult, History,
};
use minishell::expand::Environment;

fn words(ws: &[&str]) -> Vec<String> {
    ws.iter().map(|w| w.to_string()).collect()
}

#[test]
fn builtin_dispatch_by_first_word() {
    assert_eq!(
        try_builtin(&words(&["exit"])),
        BuiltinResult::Handled(BuiltinCommand::Exit)
    );
    assert_eq!(
        try_builtin(&words(&["cd", "/tmp"])),
        BuiltinResult::Handled(BuiltinCommand::ChangeDir)
    );
    assert_eq!(
        try_builtin(&words(&["jobs"])),
        BuiltinResult::Handled(BuiltinCommand::Jobs)
    );
    assert_eq!(try_builtin(&words(&["ls", "-l"])), BuiltinResult::NotHandled);
    assert_eq!(try_builtin(&Vec::new()), BuiltinResult::NotHandled);
    // Only the first word decides.
    assert_eq!(try_builtin(&words(&["echo", "exit"])), BuiltinResult::NotHandled);
}

#[test]
fn cd_tilde_goes_home() {
    let mut env = Environment::new();
    env.set("HOME".to_string(), "/home/u".to_string());
    assert_eq!(cd_target(&words(&["~"]), &env), Ok("/home/u".to_string()));
    assert_eq!(expand_cd_arg("~", &env), "/home/u");
}

#[test]
fn cd_expansion_rules() {
    let mut env = Environment::new();
    env.set("HOME".to_string(), "/home/u".to_string());
    env.set("D".to_string(), "/data".to_string());
    assert_eq!(expand_cd_arg("~/src", &env), "/home/u/src");
    assert_eq!(expand_cd_arg("$D", &env), "/data");
    assert_eq!(expand_cd_arg("$UNSET", &env), "$UNSET");
    assert_eq!(expand_cd_arg("/plain", &env), "/plain");
    assert_eq!(expand_cd_arg("~x", &env), "~x");
    let empty = Environment::new();
    assert_eq!(expand_cd_arg("~", &empty), "/");
}

#[test]
fn cd_argument_count() {
    let mut env = Environment::new();
    env.set("HOME".to_string(), "/home/u".to_string());
    assert_eq!(cd_target(&Vec::new(), &env), Ok("/home/u".to_string()));
    assert_eq!(
        cd_target(&words(&["a", "b"]), &env),
        Err("cd: too many arguments".to_string())
    );
}

#[test]
fn history_keeps_three_most_recent() {
    let mut h = History::new();
    h.push_valid("one");
    h.push_valid("two");
    h.push_valid("three");
    h.push_valid("four");
    assert_eq!(h.last_three(), words(&["two", "three", "four"]));
}

#[test]
fn history_ignores_blank_lines() {
    let mut h = History::new();
    h.push_valid("   ");
    h.push_valid("");
    h.push_valid("\t \t");
    assert_eq!(h.last_three().len(), 0);
    h.push_valid("real");
    assert_eq!(h.last_three(), words(&["real"]));
}

#[test]
fn exit_report_cases() {
    let mut h = History::new();
    assert_eq!(exit_report(&h), words(&["no valid commands"]));
    h.push_valid("first");
    assert_eq!(exit_report(&h), words(&["first"]));
    h.push_valid("second");
    // Fewer than three recorded: only the most recent is reported.
    assert_eq!(exit_report(&h), words(&["second"]));
    h.push_valid("third");
    assert_eq!(exit_report(&h), words(&["first", "second", "third"]));
}

#[test]
fn environment_lookup_shadows() {
    let mut env = Environment::new();
    env.set("X".to_string(), "old".to_string());
    env.set("X".to_string(), "new".to_string());
    assert_eq!(env.get("X"), Some("new".to_string()));
    assert_eq!(env.get("Y"), None);
}
