use shellcore::argv::{
    choose_argument, first_flag, first_naming_entry, nearest_entry, needs_entries,
    needs_presence, needs_variants, quoted_variants, single_quoted, ArgumentChoice,
};
use shellcore::parser::QuoteType;

fn names(v: &[&str]) -> Vec<String> {
    v.iter().map(|s| s.to_string()).collect()
}

fn text(s: &str) -> ArgumentChoice {
    ArgumentChoice::Text(s.to_string())
}

#[test]
fn variants_in_the_order_in_which_they_are_tried() {
    assert_eq!(single_quoted("f"), "'f'");
    assert_eq!(
        quoted_variants("f g"),
        vec!["'f g'", "f g\\", "'f g\\'", "f g\\\\", "'f g\\\\'"]
    );
    assert_eq!(quoted_variants(""), vec!["''", "\\", "'\\'", "\\\\", "'\\\\'"]);
}

#[test]
fn unquoted_word_is_unescaped_and_nothing_else() {
    assert_eq!(
        choose_argument("a\\ b", QuoteType::Unquoted, false, &vec![true; 5], &names(&["a b"])),
        text("a b")
    );
    assert_eq!(
        choose_argument("plain", QuoteType::Unquoted, true, &Vec::new(), &Vec::new()),
        text("plain")
    );
}

#[test]
fn quoted_word_that_exists_or_is_an_option_is_passed_as_it_is() {
    let entries = names(&["zzz"]);
    assert_eq!(
        choose_argument("my file", QuoteType::Single, true, &vec![true; 5], &entries),
        text("my file")
    );
    assert_eq!(
        choose_argument("-l", QuoteType::Double, false, &vec![true; 5], &entries),
        text("-l")
    );
}

#[test]
fn first_existing_variant_is_chosen() {
    let entries = names(&["f"]);
    assert_eq!(
        choose_argument("f", QuoteType::Single, false, &vec![false, false, true, true, false], &entries),
        text("'f\\'")
    );
    assert_eq!(
        choose_argument("f", QuoteType::Double, false, &vec![true], &entries),
        text("'f'")
    );
    assert_eq!(
        choose_argument("f", QuoteType::Double, false, &vec![false, false, false, false, false, true], &Vec::new()),
        text("f")
    );
}

#[test]
fn entry_that_holds_the_word_is_chosen_next() {
    let entries = names(&["other", "my file.txt", "file"]);
    assert_eq!(
        choose_argument("file", QuoteType::Single, false, &vec![false; 5], &entries),
        ArgumentChoice::Entry(1)
    );
    assert_eq!(first_naming_entry(&entries, "file"), Some(1));
    assert_eq!(first_naming_entry(&entries, "nothing"), None);
    assert_eq!(first_naming_entry(&names(&["a", "x'q'y"]), "q"), Some(1));
    assert_eq!(first_naming_entry(&Vec::new(), "q"), None);
}

#[test]
fn nearest_entry_is_the_last_resort() {
    let entries = names(&["alpha", "betta", "gamma", "bexa"]);
    assert_eq!(nearest_entry(&entries, "beta"), Some(1));
    assert_eq!(
        choose_argument("beta", QuoteType::Single, false, &Vec::new(), &entries),
        ArgumentChoice::Entry(1)
    );
    assert_eq!(nearest_entry(&Vec::new(), "beta"), None);
    assert_eq!(
        choose_argument("beta", QuoteType::Single, false, &Vec::new(), &Vec::new()),
        text("beta")
    );
    assert_eq!(nearest_entry(&names(&["zzzz", "'ab'", "xb"]), "ab"), Some(1));
}

#[test]
fn nearest_counts_the_quoted_form_too() {
    assert_eq!(nearest_entry(&names(&["abxx", "'ab'"]), "ab"), Some(1));
    assert_eq!(nearest_entry(&names(&["'ab", "ab"]), "ab"), Some(1));
    assert_eq!(nearest_entry(&names(&["abc", "'ab"]), "ab"), Some(0));
}

#[test]
fn first_flag_looks_at_no_more_than_count() {
    assert_eq!(first_flag(&vec![false, true, true], 5), Some(1));
    assert_eq!(first_flag(&vec![false, false, true], 2), None);
    assert_eq!(first_flag(&Vec::new(), 5), None);
    assert_eq!(first_flag(&vec![true], 0), None);
}

#[test]
fn probes_are_needed_only_where_the_choice_depends_on_them() {
    assert!(!needs_presence("file", QuoteType::Unquoted));
    assert!(!needs_presence("-l", QuoteType::Single));
    assert!(needs_presence("file", QuoteType::Single));
    assert!(needs_presence("", QuoteType::Double));
    assert!(!needs_variants("file", QuoteType::Single, true));
    assert!(needs_variants("file", QuoteType::Single, false));
    assert!(!needs_variants("-x", QuoteType::Double, false));
    assert!(!needs_variants("file", QuoteType::Unquoted, false));
    assert!(needs_entries("file", QuoteType::Single, false, &vec![false; 5]));
    assert!(needs_entries("file", QuoteType::Single, false, &Vec::new()));
    assert!(!needs_entries("file", QuoteType::Single, false, &vec![false, true]));
    assert!(!needs_entries("file", QuoteType::Single, true, &vec![false; 5]));
}

#[test]
fn unneeded_answers_do_not_change_the_choice() {
    let entries = names(&["file.txt", "other"]);
    let words = ["file", "-l", "a\\ b", ""];
    let quotes = [QuoteType::Unquoted, QuoteType::Single, QuoteType::Double];
    for text in words {
        for quote in quotes {
            for present in [false, true] {
                let full = choose_argument(text, quote, present, &vec![false, true], &entries);
                if !needs_presence(text, quote) {
                    assert_eq!(full, choose_argument(text, quote, !present, &Vec::new(), &Vec::new()));
                }
                if !needs_variants(text, quote, present) {
                    assert_eq!(full, choose_argument(text, quote, present, &Vec::new(), &Vec::new()));
                }
                if !needs_entries(text, quote, present, &vec![false, true]) {
                    assert_eq!(full, choose_argument(text, quote, present, &vec![false, true], &Vec::new()));
                }
            }
        }
    }
}
