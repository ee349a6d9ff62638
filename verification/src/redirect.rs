//! Redirections: the operators `>`, `1>`, `2>`, `>>`, `1>>` and `2>>`, taken
//! out of a list of words together with the file each one names.

use vstd::prelude::*;
use crate::parser::{words_view, QuoteType};
use crate::text::{str_equal};

verus! {

/// The stream that a redirection replaces.
#[derive(Clone, Copy, PartialEq, Eq, Debug, Structural)]
pub enum Stream {
    Stdout,
    Stderr,
}

/// How the target of a redirection is opened.
#[derive(Clone, Copy, PartialEq, Eq, Debug, Structural)]
pub enum RedirectMode {
    Truncate,
    Append,
}

/// What can be wrong with a command line.
#[derive(Clone, Copy, PartialEq, Eq, Debug, Structural)]
pub enum SyntaxError {
    /// A pipe operator with nothing to run on one of its sides.
    EmptyStage,
    /// A redirection operator as the last word, with no file after it.
    MissingRedirectTarget,
}

/// One redirection: the stream, how the file is opened, and the file.
#[derive(Clone, Debug, PartialEq, Eq)]
pub struct Redirection {
    pub stream: Stream,
    pub mode: RedirectMode,
    pub target: String,
}

/// A redirection as a value of the model.
pub struct RedirectionView {
    pub stream: Stream,
    pub mode: RedirectMode,
    pub target: Seq<char>,
}

impl View for Redirection {
    type V = RedirectionView;

    open spec fn view(&self) -> RedirectionView {
        RedirectionView { stream: self.stream, mode: self.mode, target: self.target@ }
    }
}

/// The views of a sequence of redirections.
pub open spec fn redirections_view(v: Seq<Redirection>) -> Seq<RedirectionView> {
    Seq::new(v.len(), |i: int| v[i]@)
}

/// One stage of a pipeline: the words of its command, and its redirections
/// in the order in which they were written.
#[derive(Clone, Debug, PartialEq, Eq)]
pub struct Stage {
    pub words: Vec<(String, QuoteType)>,
    pub redirections: Vec<Redirection>,
}

/// A stage as a value of the model.
#[verifier::ext_equal]
pub struct StageView {
    pub words: Seq<(Seq<char>, QuoteType)>,
    pub redirections: Seq<RedirectionView>,
}

impl View for Stage {
    type V = StageView;

    open spec fn view(&self) -> StageView {
        StageView {
            words: words_view(self.words@),
            redirections: redirections_view(self.redirections@),
        }
    }
}

/// The redirection that a word stands for, if it is an operator: one of the
/// six operator texts, as a whole word that no quote opened.
pub open spec fn operator_of(word: (Seq<char>, QuoteType)) -> Option<(Stream, RedirectMode)> {
    if word.1 != QuoteType::Unquoted {
        None
    } else if word.0 == ">"@ || word.0 == "1>"@ {
        Some((Stream::Stdout, RedirectMode::Truncate))
    } else if word.0 == ">>"@ || word.0 == "1>>"@ {
        Some((Stream::Stdout, RedirectMode::Append))
    } else if word.0 == "2>"@ {
        Some((Stream::Stderr, RedirectMode::Truncate))
    } else if word.0 == "2>>"@ {
        Some((Stream::Stderr, RedirectMode::Append))
    } else {
        None
    }
}

/// The extractor between two words: the command words and redirections found
/// so far, and the operator that still waits for its file.
#[verifier::ext_equal]
pub struct Extractor {
    pub stage: StageView,
    pub pending: Option<(Stream, RedirectMode)>,
}

/// The extractor before the first word.
pub open spec fn extract_start() -> Extractor {
    Extractor {
        stage: StageView { words: Seq::empty(), redirections: Seq::empty() },
        pending: None,
    }
}

/// The extractor after reading one word. The word after an operator is its
/// file, whatever it holds.
pub open spec fn extract_step(st: Extractor, word: (Seq<char>, QuoteType)) -> Extractor {
    match st.pending {
        Some((stream, mode)) => Extractor {
            stage: StageView {
                redirections: st.stage.redirections.push(
                    RedirectionView { stream, mode, target: word.0 },
                ),
                ..st.stage
            },
            pending: None,
        },
        None => match operator_of(word) {
            Some(op) => Extractor { pending: Some(op), ..st },
            None => Extractor {
                stage: StageView { words: st.stage.words.push(word), ..st.stage },
                ..st
            },
        },
    }
}

/// The extractor after reading all of `words`.
pub open spec fn extract_run(st: Extractor, words: Seq<(Seq<char>, QuoteType)>) -> Extractor
    decreases words.len(),
{
    if words.len() == 0 {
        st
    } else {
        extract_step(extract_run(st, words.drop_last()), words.last())
    }
}

/// The stage that a list of words describes, or nothing where the last word
/// is an operator that waits for its file.
pub open spec fn extract(words: Seq<(Seq<char>, QuoteType)>) -> Option<StageView> {
    let st = extract_run(extract_start(), words);
    if st.pending is Some {
        None
    } else {
        Some(st.stage)
    }
}

/// The index of the redirection in force for `stream`: the last one written
/// for it, since a later one replaces an earlier one.
pub open spec fn effective(redirections: Seq<RedirectionView>, stream: Stream) -> Option<int>
    decreases redirections.len(),
{
    if redirections.len() == 0 {
        None
    } else if redirections.last().stream == stream {
        Some(redirections.len() - 1)
    } else {
        effective(redirections.drop_last(), stream)
    }
}

/// The redirection operator that a word stands for, if any.
pub fn redirect_operator(word: &(String, QuoteType)) -> (op: Option<(Stream, RedirectMode)>)
    ensures
        op == operator_of((word.0@, word.1)),
{
    match word.1 {
        QuoteType::Unquoted => {},
        _ => {
            return None;
        },
    }
    let text = word.0.as_str();
    if str_equal(text, ">") || str_equal(text, "1>") {
        Some((Stream::Stdout, RedirectMode::Truncate))
    } else if str_equal(text, ">>") || str_equal(text, "1>>") {
        Some((Stream::Stdout, RedirectMode::Append))
    } else if str_equal(text, "2>") {
        Some((Stream::Stderr, RedirectMode::Truncate))
    } else if str_equal(text, "2>>") {
        Some((Stream::Stderr, RedirectMode::Append))
    } else {
        None
    }
}

/// The extractor that holds the given words and redirections.
pub open spec fn extractor_at(
    words: Seq<(String, QuoteType)>,
    redirections: Seq<Redirection>,
    pending: Option<(Stream, RedirectMode)>,
) -> Extractor {
    Extractor {
        stage: StageView { words: words_view(words), redirections: redirections_view(redirections) },
        pending,
    }
}

/// Takes the redirections out of a list of words. An operator is recognised
/// only as a whole word that no quote opened; the word after it names the
/// file. What is left are the command's words, in order. An operator as the
/// last word is an error.
pub fn extract_redirections(tokens: &Vec<(String, QuoteType)>) -> (result: Result<
    Stage,
    SyntaxError,
>)
    ensures
        match extract(words_view(tokens@)) {
            Some(stage) => result is Ok && result->Ok_0@ == stage,
            None => result == Err::<Stage, SyntaxError>(SyntaxError::MissingRedirectTarget),
        },
{
    let mut words: Vec<(String, QuoteType)> = Vec::new();
    let mut redirections: Vec<Redirection> = Vec::new();
    let mut pending: Option<(Stream, RedirectMode)> = None;
    let mut i: usize = 0;
    while i < tokens.len()
        invariant
            0 <= i <= tokens.len(),
            extractor_at(words@, redirections@, pending) == extract_run(
                extract_start(),
                words_view(tokens@).take(i as int),
            ),
        decreases tokens.len() - i,
    {
        let ghost before = extractor_at(words@, redirections@, pending);
        let ghost word = (tokens@[i as int].0@, tokens@[i as int].1);
        proof {
            let w = words_view(tokens@).take(i + 1);
            assert(w.drop_last() == words_view(tokens@).take(i as int));
            assert(w.last() == word);
        }
        match pending {
            Some((stream, mode)) => {
                let ghost old_redirections = redirections@;
                let r = Redirection { stream, mode, target: tokens[i].0.clone() };
                redirections.push(r);
                assert(redirections_view(redirections@) == redirections_view(old_redirections).push(
                    RedirectionView { stream, mode, target: word.0 },
                ));
                pending = None;
            },
            None => {
                match redirect_operator(&tokens[i]) {
                    Some(op) => {
                        pending = Some(op);
                    },
                    None => {
                        let ghost old_words = words@;
                        words.push((tokens[i].0.clone(), tokens[i].1));
                        assert(words_view(words@) == words_view(old_words).push(word));
                    },
                }
            },
        }
        assert(extractor_at(words@, redirections@, pending) == extract_step(before, word));
        i += 1;
    }
    assert(words_view(tokens@).take(tokens.len() as int) == words_view(tokens@));
    if pending.is_some() {
        Err(SyntaxError::MissingRedirectTarget)
    } else {
        Ok(Stage { words, redirections })
    }
}

/// The index of the redirection in force for `stream`, if the stage has one.
pub fn effective_redirection(redirections: &Vec<Redirection>, stream: Stream) -> (found: Option<
    usize,
>)
    ensures
        match effective(redirections_view(redirections@), stream) {
            Some(k) => found == Some(k as usize) && 0 <= k < redirections.len(),
            None => found is None,
        },
{
    let mut found: Option<usize> = None;
    let mut i: usize = 0;
    while i < redirections.len()
        invariant
            0 <= i <= redirections.len(),
            match effective(redirections_view(redirections@).take(i as int), stream) {
                Some(k) => found == Some(k as usize) && 0 <= k < i,
                None => found is None,
            },
        decreases redirections.len() - i,
    {
        proof {
            let r = redirections_view(redirections@).take(i + 1);
            assert(r.drop_last() == redirections_view(redirections@).take(i as int));
            assert(r.last() == redirections@[i as int]@);
        }
        if redirections[i].stream == stream {
            found = Some(i);
        }
        i += 1;
    }
    assert(redirections_view(redirections@).take(redirections.len() as int) == redirections_view(
        redirections@,
    ));
    found
}

impl SyntaxError {
    /// The text of the diagnostic.
    pub open spec fn message_text(self) -> Seq<char> {
        match self {
            SyntaxError::EmptyStage => "syntax error near unexpected token `|'"@,
            SyntaxError::MissingRedirectTarget => "syntax error near unexpected token"@,
        }
    }

    /// The diagnostic that the shell prints for this error.
    pub fn message(&self) -> (text: String)
        ensures
            text@ == self.message_text(),
    {
        match self {
            SyntaxError::EmptyStage => "syntax error near unexpected token `|'".to_string(),
            SyntaxError::MissingRedirectTarget => "syntax error near unexpected token".to_string(),
        }
    }
}

impl Stream {
    /// The number of the descriptor that the stream is.
    pub fn fd(&self) -> (fd: i32)
        ensures
            fd == (if *self == Stream::Stdout { 1int } else { 2int }),
    {
        match self {
            Stream::Stdout => 1,
            Stream::Stderr => 2,
        }
    }
}

} // verus!
