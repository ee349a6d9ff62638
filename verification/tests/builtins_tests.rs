use shellcore::builtins::{
    command_not_found_text, exit_code, is_builtin, located_text, not_found_text, run_builtin,
    tilde_expanded, BuiltinAction,
};
use shellcore::history::{AppendMarks, History};
use shellcore::parser::shell_split_shell_like;
use shellcore::pipeline::word_strings;

fn words(line: &str) -> Vec<String> {
    word_strings(&shell_split_shell_like(line))
}

fn run(line: &str) -> Option<BuiltinAction> {
    run_builtin(&words(line), &History::new(), &AppendMarks::new(), "/usr/bin:/bin", Some("/home/u"))
}

fn history_of(entries: &[&str]) -> History {
    let mut h = History::new();
    for e in entries {
        h.add(e.to_string());
    }
    h
}

#[test]
fn the_six_builtins() {
    for name in ["exit", "echo", "type", "pwd", "cd", "history"] {
        assert!(is_builtin(name));
    }
    for name in ["ls", "", "Echo", "echo ", "cat", "historyx"] {
        assert!(!is_builtin(name));
    }
}

#[test]
fn other_commands_are_no_builtins() {
    assert_eq!(run("ls -l"), None);
    assert_eq!(run(""), None);
    assert_eq!(run("ECHO a"), None);
}

#[test]
fn echo_joins_its_arguments_with_single_spaces() {
    assert_eq!(run("echo hello world"), Some(BuiltinAction::Print("hello world\n".to_string())));
    assert_eq!(run("echo   hello     world  "), Some(BuiltinAction::Print("hello world\n".to_string())));
    assert_eq!(run("echo"), Some(BuiltinAction::Print("\n".to_string())));
}

#[test]
fn echo_keeps_the_spacing_inside_quotes() {
    assert_eq!(
        run("echo 'a   b'\"  c\""),
        Some(BuiltinAction::Print("a   b  c\n".to_string()))
    );
}

#[test]
fn exit_codes() {
    assert_eq!(run("exit"), Some(BuiltinAction::Exit(0)));
    assert_eq!(run("exit 0"), Some(BuiltinAction::Exit(0)));
    assert_eq!(run("exit 3"), Some(BuiltinAction::Exit(3)));
    assert_eq!(run("exit -1"), Some(BuiltinAction::Exit(-1)));
    assert_eq!(run("exit +7 ignored"), Some(BuiltinAction::Exit(7)));
    assert_eq!(run("exit abc"), Some(BuiltinAction::Exit(255)));
    assert_eq!(run("exit 99999999999"), Some(BuiltinAction::Exit(255)));
    assert_eq!(run("exit 2147483647"), Some(BuiltinAction::Exit(2147483647)));
    assert_eq!(run("exit -2147483648"), Some(BuiltinAction::Exit(-2147483648)));
    assert_eq!(exit_code(&words("exit 12")), 12);
}

#[test]
fn type_of_a_builtin() {
    assert_eq!(
        run("type echo"),
        Some(BuiltinAction::Print("echo is a shell builtin\n".to_string()))
    );
    assert_eq!(
        run("type history"),
        Some(BuiltinAction::Print("history is a shell builtin\n".to_string()))
    );
    assert_eq!(run("type"), Some(BuiltinAction::Nothing));
}

#[test]
fn type_of_another_command_asks_to_locate_it() {
    assert_eq!(
        run("type ls"),
        Some(BuiltinAction::Locate {
            name: "ls".to_string(),
            candidates: vec!["/usr/bin/ls".to_string(), "/bin/ls".to_string()],
        })
    );
    assert_eq!(located_text("ls", "/bin/ls"), "ls is /bin/ls\n");
    assert_eq!(not_found_text("nope"), "nope: not found\n");
    assert_eq!(command_not_found_text("nope"), "nope: command not found\n");
}

#[test]
fn pwd_asks_for_the_working_directory() {
    assert_eq!(run("pwd"), Some(BuiltinAction::PrintWorkingDirectory));
    assert_eq!(run("pwd ignored"), Some(BuiltinAction::PrintWorkingDirectory));
}

#[test]
fn cd_without_argument_complains() {
    assert_eq!(run("cd"), Some(BuiltinAction::Print("cd: missing argument\n".to_string())));
}

#[test]
fn cd_expands_the_tilde() {
    assert_eq!(
        run("cd /tmp"),
        Some(BuiltinAction::ChangeDirectory {
            target: "/tmp".to_string(),
            complaint: "cd: /tmp: No such file or directory\n".to_string(),
        })
    );
    assert_eq!(
        run("cd ~"),
        Some(BuiltinAction::ChangeDirectory {
            target: "/home/u".to_string(),
            complaint: "cd: ~: No such file or directory\n".to_string(),
        })
    );
    assert_eq!(
        run("cd ~/src/x"),
        Some(BuiltinAction::ChangeDirectory {
            target: "/home/u/src/x".to_string(),
            complaint: "cd: ~/src/x: No such file or directory\n".to_string(),
        })
    );
    assert_eq!(tilde_expanded("~other", Some("/home/u")), "~other");
    assert_eq!(tilde_expanded("a~", Some("/home/u")), "a~");
    assert_eq!(tilde_expanded("~/", Some("/home/u")), "/home/u/");
    assert_eq!(tilde_expanded("~", None), "~");
    assert_eq!(tilde_expanded("~/x", None), "~/x");
    assert_eq!(tilde_expanded("", Some("/home/u")), "");
}

#[test]
fn history_lists_with_true_positions() {
    let h = history_of(&["echo a", "echo b", "history 2"]);
    let marks = AppendMarks::new();
    let list = |line: &str| run_builtin(&words(line), &h, &marks, "", None);
    assert_eq!(
        list("history"),
        Some(BuiltinAction::Print("    1  echo a\n    2  echo b\n    3  history 2\n".to_string()))
    );
    assert_eq!(
        list("history 2"),
        Some(BuiltinAction::Print("    2  echo b\n    3  history 2\n".to_string()))
    );
    assert_eq!(list("history 0"), Some(BuiltinAction::Print("".to_string())));
    assert_eq!(list("history 3"), list("history"));
    assert_eq!(list("history 50"), list("history"));
    assert_eq!(list("history 99999999999999999999999999"), list("history"));
    assert_eq!(list("history abc"), list("history"));
    assert_eq!(list("history -2"), list("history"));
    assert_eq!(list("history 1 2 3"), list("history"));
}

#[test]
fn history_file_options() {
    let h = history_of(&["echo a", "echo b"]);
    let mut marks = AppendMarks::new();
    assert_eq!(
        run_builtin(&words("history -r /tmp/h"), &h, &marks, "", None),
        Some(BuiltinAction::ReadHistory { path: "/tmp/h".to_string() })
    );
    assert_eq!(
        run_builtin(&words("history -w /tmp/h"), &h, &marks, "", None),
        Some(BuiltinAction::WriteHistory {
            path: "/tmp/h".to_string(),
            text: "echo a\necho b\n".to_string(),
        })
    );
    assert_eq!(
        run_builtin(&words("history -a /tmp/h"), &h, &marks, "", None),
        Some(BuiltinAction::AppendHistory {
            path: "/tmp/h".to_string(),
            text: "echo a\necho b\n".to_string(),
            upto: 2,
        })
    );
    marks.record("/tmp/h", 2);
    assert_eq!(
        run_builtin(&words("history -a /tmp/h"), &h, &marks, "", None),
        Some(BuiltinAction::AppendHistory {
            path: "/tmp/h".to_string(),
            text: "".to_string(),
            upto: 2,
        })
    );
    assert_eq!(
        run_builtin(&words("history -a"), &h, &marks, "", None),
        Some(BuiltinAction::Print("    1  echo a\n    2  echo b\n".to_string()))
    );
}
