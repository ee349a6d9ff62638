use shellcore::history::{AppendMarks, History};

fn history_of(entries: &[&str]) -> History {
    let mut h = History::new();
    for e in entries {
        h.add(e.to_string());
    }
    h
}

#[test]
fn new_history_is_empty() {
    let h = History::new();
    assert_eq!(h.len(), 0);
    assert_eq!(h.get(0), None);
    assert!(h.all().is_empty());
}

#[test]
fn add_appends_in_order() {
    let h = history_of(&["one", "two", "one"]);
    assert_eq!(h.len(), 3);
    assert_eq!(h.get(0), Some(&"one".to_string()));
    assert_eq!(h.get(1), Some(&"two".to_string()));
    assert_eq!(h.get(2), Some(&"one".to_string()));
    assert_eq!(h.get(3), None);
    assert_eq!(h.all(), &vec!["one".to_string(), "two".to_string(), "one".to_string()]);
}

#[test]
fn clear_removes_everything() {
    let mut h = history_of(&["a", "b"]);
    h.clear();
    assert_eq!(h.len(), 0);
    assert_eq!(h.get(0), None);
}

#[test]
fn accept_grows_by_one_per_line_that_is_not_blank() {
    let mut h = History::new();
    assert!(h.accept("  echo a  "));
    assert_eq!(h.len(), 1);
    assert!(!h.accept(""));
    assert!(!h.accept("   \t"));
    assert_eq!(h.len(), 1);
    assert!(h.accept("ls"));
    assert!(h.accept("ls"));
    assert_eq!(h.all(), &vec!["echo a".to_string(), "ls".to_string(), "ls".to_string()]);
}

#[test]
fn load_takes_the_lines_that_are_not_blank() {
    let mut h = history_of(&["first"]);
    h.load("echo a\n\n   \necho b\r\n  indented \nlast");
    assert_eq!(
        h.all(),
        &vec![
            "first".to_string(),
            "echo a".to_string(),
            "echo b".to_string(),
            "  indented ".to_string(),
            "last".to_string()
        ]
    );
    let mut empty = History::new();
    empty.load("");
    assert_eq!(empty.len(), 0);
    empty.load("\n\n");
    assert_eq!(empty.len(), 0);
    empty.load("only\n");
    assert_eq!(empty.all(), &vec!["only".to_string()]);
}

#[test]
fn load_keeps_a_carriage_return_without_line_feed() {
    let mut h = History::new();
    h.load("a\r\nb\r");
    assert_eq!(h.all(), &vec!["a".to_string(), "b\r".to_string()]);
}

#[test]
fn file_text_is_one_line_per_entry() {
    assert_eq!(history_of(&[]).file_text(), "");
    assert_eq!(history_of(&["echo a", "echo b"]).file_text(), "echo a\necho b\n");
    assert_eq!(history_of(&["a", "b", "c"]).text_from(1), "b\nc\n");
    assert_eq!(history_of(&["a", "b", "c"]).text_from(3), "");
    assert_eq!(history_of(&["a", "b", "c"]).text_from(7), "");
}

#[test]
fn written_text_loads_back() {
    let h = history_of(&["echo a", "ls -l | wc", "history -w f"]);
    let mut again = History::new();
    again.load(&h.file_text());
    assert_eq!(again, h);
}

#[test]
fn listing_numbers_entries_from_one_in_five_columns() {
    let h = history_of(&["echo a", "echo b", "history"]);
    assert_eq!(h.listing_from(0), "    1  echo a\n    2  echo b\n    3  history\n");
    assert_eq!(h.listing_of_last(2), "    2  echo b\n    3  history\n");
    assert_eq!(h.listing_of_last(0), "");
    assert_eq!(h.listing_of_last(3), h.listing_from(0));
    assert_eq!(h.listing_of_last(100), h.listing_from(0));
    assert_eq!(h.listing_from(3), "");
    assert_eq!(h.listing_from(9), "");
    assert_eq!(History::new().listing_from(0), "");
}

#[test]
fn listing_of_a_long_history_keeps_true_positions() {
    let mut h = History::new();
    for i in 0..100000 {
        h.add(format!("c{}", i));
    }
    assert_eq!(h.listing_of_last(2), "99999  c99998\n100000  c99999\n");
}

#[test]
fn marks_start_at_zero_and_are_kept_per_file() {
    let mut marks = AppendMarks::new();
    assert_eq!(marks.get("/tmp/h"), 0);
    marks.record("/tmp/h", 3);
    assert_eq!(marks.get("/tmp/h"), 3);
    assert_eq!(marks.get("/tmp/other"), 0);
    marks.record("/tmp/other", 1);
    marks.record("/tmp/h", 5);
    assert_eq!(marks.get("/tmp/h"), 5);
    assert_eq!(marks.get("/tmp/other"), 1);
}

#[test]
fn append_twice_writes_nothing_the_second_time() {
    let mut h = history_of(&["echo a", "echo b"]);
    let mut marks = AppendMarks::new();
    assert_eq!(h.append_delta(&marks, "/tmp/h"), "echo a\necho b\n");
    marks.record("/tmp/h", h.len());
    assert_eq!(h.append_delta(&marks, "/tmp/h"), "");
    assert_eq!(h.append_delta(&marks, "/tmp/elsewhere"), "echo a\necho b\n");
    h.add("echo c".to_string());
    h.add("echo d".to_string());
    assert_eq!(h.append_delta(&marks, "/tmp/h"), "echo c\necho d\n");
    marks.record("/tmp/h", h.len());
    assert_eq!(h.append_delta(&marks, "/tmp/h"), "");
}

#[test]
fn append_after_clear_writes_nothing_old() {
    let mut h = history_of(&["a", "b", "c"]);
    let mut marks = AppendMarks::new();
    marks.record("f", h.len());
    h.clear();
    h.add("d".to_string());
    assert_eq!(h.append_delta(&marks, "f"), "");
}
