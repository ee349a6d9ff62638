use shellcore::text::{
    chars_equal, is_blank, is_whitespace, join, join_from, matches_at, slice_to_string, split,
    str_contains, str_equal, to_chars, trim_bounds, trimmed,
};

#[test]
fn white_space_is_what_std_calls_white_space() {
    let mut c: u32 = 0;
    while c <= 0x10ffff {
        if let Some(ch) = char::from_u32(c) {
            assert_eq!(is_whitespace(ch), ch.is_whitespace(), "U+{:04X}", c);
        }
        c += 1;
    }
}

#[test]
fn chars_round_trip() {
    let s = "héllo wörld \u{1F600}";
    let v = to_chars(s);
    assert_eq!(v, s.chars().collect::<Vec<char>>());
    assert_eq!(slice_to_string(&v, 0, v.len()), s);
    assert_eq!(slice_to_string(&v, 1, 5), "éllo");
    assert_eq!(slice_to_string(&v, 3, 3), "");
    assert_eq!(to_chars(""), Vec::<char>::new());
}

#[test]
fn trimmed_agrees_with_std_trim() {
    let samples = [
        "",
        " ",
        "a",
        "  a  ",
        "\t a b \n",
        "\u{00a0}x\u{3000}",
        "  \u{200b} ",
        "no-space",
        " inner  space kept ",
    ];
    for s in samples {
        assert_eq!(trimmed(s), s.trim(), "{:?}", s);
        assert_eq!(is_blank(s), s.trim().is_empty());
    }
}

#[test]
fn trim_bounds_cut_the_text() {
    let v = to_chars("  ab c ");
    assert_eq!(trim_bounds(&v), (2, 6));
    let all = to_chars("   ");
    let (a, b) = trim_bounds(&all);
    assert_eq!(a, b);
}

#[test]
fn equality_of_texts() {
    assert!(str_equal("abc", "abc"));
    assert!(!str_equal("abc", "abd"));
    assert!(!str_equal("abc", "ab"));
    assert!(str_equal("", ""));
    assert!(chars_equal(&to_chars("x"), &to_chars("x")));
    assert!(!chars_equal(&to_chars("x"), &to_chars("y")));
}

#[test]
fn contains_agrees_with_std() {
    let hay = ["", "a", "abc", "aaa", "xxabxxabcxx", "write error: Broken pipe"];
    let pats = ["", "a", "abc", "aa", "bc", "abcd", "Broken"];
    for h in hay {
        for p in pats {
            assert_eq!(str_contains(h, p), h.contains(p), "{:?} in {:?}", p, h);
            assert_eq!(
                matches_at(&to_chars(h), &to_chars(p), 0),
                h.starts_with(p),
                "{:?} starts {:?}",
                h,
                p
            );
        }
    }
}

#[test]
fn join_puts_the_separator_between() {
    let parts = vec!["a".to_string(), "b".to_string(), "".to_string(), "c".to_string()];
    assert_eq!(join(&parts, " "), "a b  c");
    assert_eq!(join(&parts, ""), "abc");
    assert_eq!(join(&Vec::new(), ", "), "");
    assert_eq!(join(&vec!["only".to_string()], ", "), "only");
    assert_eq!(join_from(&parts, 1, "-"), "b--c");
    assert_eq!(join_from(&parts, 4, "-"), "");
}

#[test]
fn split_agrees_with_std() {
    let samples = ["", ":", "a", "a:b", ":a::b:", "/bin:/usr/bin", "x\ny\n"];
    for s in samples {
        let expected: Vec<String> = s.split(':').map(|p| p.to_string()).collect();
        assert_eq!(split(s, ':'), expected, "{:?}", s);
    }
    assert_eq!(split("x\ny\n", '\n'), vec!["x", "y", ""]);
}
