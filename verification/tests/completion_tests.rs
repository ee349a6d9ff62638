use shellcore::completion::{insert_sorted, standing, BuiltinCompleter, Standing};
use shellcore::repl::{completion_feedback, Feedback};
use shellcore::text::to_chars;

fn names(v: &[&str]) -> Vec<String> {
    v.iter().map(|s| s.to_string()).collect()
}

#[test]
fn new_completer_has_seen_nothing() {
    let c = BuiltinCompleter::new();
    assert_eq!(c.last_prefix, "");
    assert_eq!(c.tab_count, 0);
    assert!(c.last_matches.is_empty());
}

#[test]
fn standing_is_the_order_of_strings() {
    let words = ["", "a", "ab", "abc", "b", "B", "é", "z", "aa", "a b"];
    for a in words {
        for b in words {
            let expected = if a < b {
                Standing::Before
            } else if a == b {
                Standing::Same
            } else {
                Standing::After
            };
            assert_eq!(standing(&to_chars(a), &to_chars(b)), expected, "{:?} {:?}", a, b);
        }
    }
}

#[test]
fn insertion_keeps_the_names_sorted_and_single() {
    let mut v: Vec<String> = Vec::new();
    for n in ["pwd", "echo", "type", "echo", "cd", "exit", "a", "zz", "pwd"] {
        insert_sorted(&mut v, n);
    }
    assert_eq!(v, names(&["a", "cd", "echo", "exit", "pwd", "type", "zz"]));
}

#[test]
fn completion_offers_builtins_and_executables_sorted() {
    let mut c = BuiltinCompleter::new();
    let executables = names(&["env", "ls", "echo", "expr", "env", "cat"]);
    let pairs = c.complete("e", &executables);
    let expected = names(&["echo", "env", "exit", "expr"]);
    assert_eq!(c.last_matches, expected);
    assert_eq!(
        pairs,
        vec![
            ("echo".to_string(), "echo ".to_string()),
            ("env".to_string(), "env ".to_string()),
            ("exit".to_string(), "exit ".to_string()),
            ("expr".to_string(), "expr ".to_string())
        ]
    );
    assert_eq!(c.last_prefix, "e");
    assert_eq!(c.tab_count, 1);
}

#[test]
fn completion_agrees_with_sort_and_dedup() {
    let executables = names(&["zsh", "bash", "hist", "cdrom", "ty", "type", "p", "pwdx", "bash"]);
    for prefix in ["", "c", "cd", "h", "hi", "t", "ty", "type", "typex", "p", "z", "q", "\u{e9}"] {
        let mut expected: Vec<String> = ["echo", "exit", "type", "pwd", "cd", "history"]
            .iter()
            .map(|s| s.to_string())
            .chain(executables.iter().cloned())
            .filter(|n| n.starts_with(prefix))
            .collect();
        expected.sort();
        expected.dedup();
        let mut c = BuiltinCompleter::new();
        c.complete(prefix, &executables);
        assert_eq!(c.last_matches, expected, "{:?}", prefix);
    }
}

#[test]
fn tab_count_counts_the_same_prefix_in_a_row() {
    let mut c = BuiltinCompleter::new();
    let none = Vec::new();
    c.complete("e", &none);
    assert_eq!(c.tab_count, 1);
    c.complete("e", &none);
    assert_eq!(c.tab_count, 2);
    c.complete("e", &none);
    assert_eq!(c.tab_count, 3);
    c.complete("ec", &none);
    assert_eq!(c.tab_count, 1);
    assert_eq!(c.last_prefix, "ec");
    c.complete("e", &none);
    assert_eq!(c.tab_count, 1);
}

#[test]
fn tab_count_starts_anew_after_255() {
    let mut c = BuiltinCompleter::new();
    let none = Vec::new();
    for _ in 0..255 {
        c.complete("x", &none);
    }
    assert_eq!(c.tab_count, 255);
    c.complete("x", &none);
    assert_eq!(c.tab_count, 0);
    c.complete("x", &none);
    assert_eq!(c.tab_count, 1);
}

#[test]
fn empty_prefix_counts_from_the_first_press() {
    let mut c = BuiltinCompleter::new();
    c.complete("", &Vec::new());
    assert_eq!(c.tab_count, 1);
    assert_eq!(c.last_matches.len(), 6);
}

#[test]
fn feedback_rings_first_and_lists_second() {
    let mut c = BuiltinCompleter::new();
    let none = Vec::new();
    c.complete("e", &none);
    assert_eq!(completion_feedback(&mut c), Feedback::Bell);
    assert_eq!(c.tab_count, 1);
    c.complete("e", &none);
    assert_eq!(completion_feedback(&mut c), Feedback::List("echo  exit".to_string()));
    assert_eq!(c.tab_count, 0);
    c.complete("e", &none);
    assert_eq!(completion_feedback(&mut c), Feedback::Bell);
    c.complete("e", &none);
    c.complete("e", &none);
    assert_eq!(completion_feedback(&mut c), Feedback::Nothing);
    assert_eq!(c.tab_count, 3);
}

#[test]
fn feedback_is_silent_for_one_match_or_no_prefix() {
    let mut c = BuiltinCompleter::new();
    c.complete("ec", &Vec::new());
    assert_eq!(completion_feedback(&mut c), Feedback::Nothing);
    let mut all = BuiltinCompleter::new();
    all.complete("", &Vec::new());
    assert_eq!(completion_feedback(&mut all), Feedback::Nothing);
    let mut fresh = BuiltinCompleter::new();
    assert_eq!(completion_feedback(&mut fresh), Feedback::Nothing);
}
