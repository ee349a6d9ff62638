use shellcore::parser::QuoteType;
use shellcore::pipeline::{plan_pipeline, word_strings, Input, Launch, Output};
use shellcore::redirect::{RedirectMode, Stream, SyntaxError};

#[test]
fn plan_of_a_single_builtin() {
    let plan = plan_pipeline("echo hello world").unwrap();
    assert_eq!(plan.len(), 1);
    assert_eq!(plan[0].launch, Launch::BuiltinInShell);
    assert_eq!(plan[0].stdin, Input::Inherit);
    assert_eq!(plan[0].stdout, Output::Inherit);
    assert_eq!(plan[0].stderr, Output::Inherit);
    assert_eq!(word_strings(&plan[0].stage.words), vec!["echo", "hello", "world"]);
}

#[test]
fn plan_of_a_single_external_command() {
    let plan = plan_pipeline("cat missing 2> err.txt").unwrap();
    assert_eq!(plan.len(), 1);
    assert_eq!(plan[0].launch, Launch::External);
    assert_eq!(plan[0].stdout, Output::Inherit);
    assert_eq!(plan[0].stderr, Output::File(0));
    assert_eq!(plan[0].stage.redirections[0].stream, Stream::Stderr);
    assert_eq!(plan[0].stage.redirections[0].mode, RedirectMode::Truncate);
    assert_eq!(plan[0].stage.redirections[0].target, "err.txt");
    assert_eq!(word_strings(&plan[0].stage.words), vec!["cat", "missing"]);
}

#[test]
fn plan_of_two_stages_with_a_redirection() {
    let plan = plan_pipeline("ls | wc -l > out.txt").unwrap();
    assert_eq!(plan.len(), 2);
    assert_eq!(plan[0].launch, Launch::External);
    assert_eq!(plan[0].stdin, Input::Inherit);
    assert_eq!(plan[0].stdout, Output::Pipe(0));
    assert_eq!(plan[0].stderr, Output::Capture);
    assert_eq!(plan[1].launch, Launch::External);
    assert_eq!(plan[1].stdin, Input::Pipe(0));
    assert_eq!(plan[1].stdout, Output::File(0));
    assert_eq!(plan[1].stderr, Output::Capture);
    assert_eq!(plan[1].stage.redirections[0].target, "out.txt");
}

#[test]
fn builtin_runs_in_the_shell_only_as_the_last_stage() {
    let plan = plan_pipeline("echo a | cd /tmp | cat | exit 3").unwrap();
    assert_eq!(plan.len(), 4);
    assert_eq!(plan[0].launch, Launch::BuiltinInChild);
    assert_eq!(plan[1].launch, Launch::BuiltinInChild);
    assert_eq!(plan[2].launch, Launch::External);
    assert_eq!(plan[3].launch, Launch::BuiltinInShell);
    assert_eq!(plan[1].stdin, Input::Pipe(0));
    assert_eq!(plan[1].stdout, Output::Pipe(1));
    assert_eq!(plan[1].stderr, Output::Inherit);
    assert_eq!(plan[3].stdin, Input::Pipe(2));
    assert_eq!(plan[3].stdout, Output::Inherit);
}

#[test]
fn redirection_takes_the_place_of_the_pipe() {
    let plan = plan_pipeline("ls > listing 2> errors | cat").unwrap();
    assert_eq!(plan[0].stdout, Output::File(0));
    assert_eq!(plan[0].stderr, Output::File(1));
    assert_eq!(plan[1].stdin, Input::Pipe(0));
    let later = plan_pipeline("ls > a >> b").unwrap();
    assert_eq!(later[0].stdout, Output::File(1));
    assert_eq!(later[0].stage.redirections[1].mode, RedirectMode::Append);
}

#[test]
fn empty_line_plans_one_stage_with_nothing_to_run() {
    for line in ["", "   ", "\t"] {
        let plan = plan_pipeline(line).unwrap();
        assert_eq!(plan.len(), 1);
        assert_eq!(plan[0].launch, Launch::Nothing);
        assert!(plan[0].stage.words.is_empty());
        assert!(plan[0].stage.redirections.is_empty());
    }
}

#[test]
fn redirection_alone_plans_only_its_target() {
    let plan = plan_pipeline("> out.txt").unwrap();
    assert_eq!(plan.len(), 1);
    assert_eq!(plan[0].launch, Launch::Nothing);
    assert_eq!(plan[0].stage.redirections.len(), 1);
}

#[test]
fn empty_stage_beside_a_bar_is_a_syntax_error() {
    for line in ["ls |", "| ls", "ls | | wc", "|", "ls | > out"] {
        assert_eq!(plan_pipeline(line), Err(SyntaxError::EmptyStage), "{:?}", line);
    }
}

#[test]
fn redirection_as_last_word_is_a_syntax_error() {
    for line in ["echo a >", "ls 2>> | wc", "ls | wc >"] {
        assert_eq!(plan_pipeline(line), Err(SyntaxError::MissingRedirectTarget), "{:?}", line);
    }
}

#[test]
fn first_error_of_the_line_is_reported() {
    assert_eq!(plan_pipeline("ls > | | wc"), Err(SyntaxError::MissingRedirectTarget));
    assert_eq!(plan_pipeline("| ls >"), Err(SyntaxError::EmptyStage));
}

#[test]
fn bar_behind_a_backslash_plans_two_stages() {
    let plan = plan_pipeline("a\\|b").unwrap();
    assert_eq!(plan.len(), 2);
    assert_eq!(word_strings(&plan[0].stage.words), vec!["a"]);
    assert_eq!(word_strings(&plan[1].stage.words), vec!["b"]);
    assert_eq!(plan[0].stdout, Output::Pipe(0));
    assert_eq!(plan[1].stdin, Input::Pipe(0));
}

#[test]
fn quoted_operators_are_words() {
    let plan = plan_pipeline("echo \"|\" '>' x").unwrap();
    assert_eq!(plan.len(), 1);
    assert_eq!(word_strings(&plan[0].stage.words), vec!["echo", "|", ">", "x"]);
    assert_eq!(plan[0].stage.words[1].1, QuoteType::Double);
    assert!(plan[0].stage.redirections.is_empty());
}
