use shellcore::parser::{shell_split_shell_like, QuoteType};
use shellcore::redirect::{
    effective_redirection, extract_redirections, redirect_operator, RedirectMode, Redirection,
    Stream, SyntaxError,
};

fn redirection(stream: Stream, mode: RedirectMode, target: &str) -> Redirection {
    Redirection { stream, mode, target: target.to_string() }
}

#[test]
fn operators_are_recognised_as_whole_unquoted_words() {
    let cases = [
        (">", Some((Stream::Stdout, RedirectMode::Truncate))),
        ("1>", Some((Stream::Stdout, RedirectMode::Truncate))),
        (">>", Some((Stream::Stdout, RedirectMode::Append))),
        ("1>>", Some((Stream::Stdout, RedirectMode::Append))),
        ("2>", Some((Stream::Stderr, RedirectMode::Truncate))),
        ("2>>", Some((Stream::Stderr, RedirectMode::Append))),
        ("3>", None),
        (">>>", None),
        ("<", None),
        ("a>", None),
        ("", None),
    ];
    for (text, expected) in cases {
        assert_eq!(redirect_operator(&(text.to_string(), QuoteType::Unquoted)), expected);
        assert_eq!(redirect_operator(&(text.to_string(), QuoteType::Single)), None);
        assert_eq!(redirect_operator(&(text.to_string(), QuoteType::Double)), None);
    }
}

#[test]
fn extraction_leaves_the_command_words() {
    let tokens = shell_split_shell_like("wc -l > out.txt extra 2>> err.log");
    let stage = extract_redirections(&tokens).unwrap();
    assert_eq!(
        stage.words,
        vec![
            ("wc".to_string(), QuoteType::Unquoted),
            ("-l".to_string(), QuoteType::Unquoted),
            ("extra".to_string(), QuoteType::Unquoted)
        ]
    );
    assert_eq!(
        stage.redirections,
        vec![
            redirection(Stream::Stdout, RedirectMode::Truncate, "out.txt"),
            redirection(Stream::Stderr, RedirectMode::Append, "err.log")
        ]
    );
}

#[test]
fn extraction_without_operators_changes_nothing() {
    let tokens = shell_split_shell_like("echo a b");
    let stage = extract_redirections(&tokens).unwrap();
    assert_eq!(stage.words, tokens);
    assert!(stage.redirections.is_empty());
    let none = extract_redirections(&Vec::new()).unwrap();
    assert!(none.words.is_empty() && none.redirections.is_empty());
}

#[test]
fn trailing_operator_is_a_syntax_error() {
    for line in ["echo a >", "echo 2>>", ">", "cat x > y 1>"] {
        let tokens = shell_split_shell_like(line);
        assert_eq!(extract_redirections(&tokens), Err(SyntaxError::MissingRedirectTarget));
    }
}

#[test]
fn quoted_operator_is_an_ordinary_word() {
    let tokens = shell_split_shell_like("echo \">\" file '2>'");
    let stage = extract_redirections(&tokens).unwrap();
    assert_eq!(stage.words.len(), 4);
    assert!(stage.redirections.is_empty());
}

#[test]
fn operator_after_empty_quotes_is_an_operator() {
    let stage = extract_redirections(&shell_split_shell_like("'' > f")).unwrap();
    assert!(stage.words.is_empty());
    assert_eq!(stage.redirections, vec![redirection(Stream::Stdout, RedirectMode::Truncate, "f")]);
    let other = extract_redirections(&shell_split_shell_like("echo \"\" 2>> e")).unwrap();
    assert_eq!(other.words.len(), 1);
    assert_eq!(other.redirections, vec![redirection(Stream::Stderr, RedirectMode::Append, "e")]);
}

#[test]
fn word_after_an_operator_is_its_file_whatever_it_is() {
    let tokens = shell_split_shell_like("echo > > x");
    let stage = extract_redirections(&tokens).unwrap();
    assert_eq!(stage.redirections, vec![redirection(Stream::Stdout, RedirectMode::Truncate, ">")]);
    assert_eq!(stage.words.len(), 2);
    let quoted = extract_redirections(&shell_split_shell_like("echo > 'my file'")).unwrap();
    assert_eq!(quoted.redirections[0].target, "my file");
}

#[test]
fn later_redirection_of_a_stream_replaces_the_earlier() {
    let tokens = shell_split_shell_like("cmd > a 2> e >> b 1> c");
    let stage = extract_redirections(&tokens).unwrap();
    assert_eq!(stage.redirections.len(), 4);
    assert_eq!(effective_redirection(&stage.redirections, Stream::Stdout), Some(3));
    assert_eq!(effective_redirection(&stage.redirections, Stream::Stderr), Some(1));
    assert_eq!(effective_redirection(&Vec::new(), Stream::Stdout), None);
    let only_err = extract_redirections(&shell_split_shell_like("cmd 2> e")).unwrap();
    assert_eq!(effective_redirection(&only_err.redirections, Stream::Stdout), None);
}

#[test]
fn syntax_error_messages() {
    assert_eq!(
        SyntaxError::MissingRedirectTarget.message(),
        "syntax error near unexpected token"
    );
    assert_eq!(SyntaxError::EmptyStage.message(), "syntax error near unexpected token `|'");
}

#[test]
fn stream_numbers() {
    assert_eq!(Stream::Stdout.fd(), 1);
    assert_eq!(Stream::Stderr.fd(), 2);
}
