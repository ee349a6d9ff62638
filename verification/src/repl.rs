//! The read-eval-print loop, as far as it decides: what becomes of a line
//! that was read, what is saved when the input ends, and what the user is
//! shown between two presses of the tab key.

use vstd::prelude::*;
use vstd::string::StringExecFns;
use crate::builtins::{BuiltinAction, BuiltinActionView};
use crate::completion::BuiltinCompleter;
use crate::executor::{execute_pipeline, launches_of, start, Execution};
use crate::history::{file_entries, file_text, unwritten, AppendMarks, History};
use crate::pipeline::{plan_of, plan_view};
use crate::redirect::SyntaxError;
use crate::text::{join, join_seq, texts, trim};

verus! {

/// The state that lasts from one command line to the next: the history, and
/// for each file how much of the history `history -a` has written to it.
#[derive(Debug)]
pub struct Repl {
    pub history: History,
    pub marks: AppendMarks,
}

/// What the user is shown after a completion.
#[derive(Clone, Debug, PartialEq, Eq)]
pub enum Feedback {
    /// Nothing.
    Nothing,
    /// The bell.
    Bell,
    /// This line, and after it the prompt and what was typed.
    List(String),
}

/// What the user is shown, as a value of the model.
pub enum FeedbackView {
    Nothing,
    Bell,
    List(Seq<char>),
}

impl View for Feedback {
    type V = FeedbackView;

    open spec fn view(&self) -> FeedbackView {
        match self {
            Feedback::Nothing => FeedbackView::Nothing,
            Feedback::Bell => FeedbackView::Bell,
            Feedback::List(s) => FeedbackView::List(s@),
        }
    }
}

/// The text before each line that the shell reads.
pub open spec fn prompt_text() -> Seq<char> {
    "$ "@
}

/// The text before each line that the shell reads.
pub fn prompt() -> (text: &'static str)
    ensures
        text@ == prompt_text(),
{
    "$ "
}

/// Starts the loop: the history holds the entries of the history file, if
/// the shell has one and it could be read, and no history has been written
/// anywhere.
pub fn start_repl(saved: Option<&str>) -> (repl: Repl)
    ensures
        repl.history@ == (match saved {
            Some(content) => file_entries(content@),
            None => Seq::<Seq<char>>::empty(),
        }),
        forall|path: Seq<char>| repl.marks.written(path) == 0,
{
    let mut history = History::new();
    match saved {
        Some(content) => {
            history.load(content);
            assert(Seq::<Seq<char>>::empty() + file_entries(content@) == file_entries(content@));
        },
        None => {},
    }
    Repl { history, marks: AppendMarks::new() }
}

impl Repl {
    /// Takes in a line that was read. A line that holds white space only is
    /// passed over. Any other line becomes the newest entry of the history,
    /// trimmed, and is planned as it was read: the result is the execution
    /// to carry out, or the syntax error to report.
    pub fn read_line(&mut self, line: &str) -> (todo: Option<Result<Execution, SyntaxError>>)
        ensures
            final(self).marks == old(self).marks,
            trim(line@).len() == 0 ==> todo is None && final(self).history@ == old(self).history@,
            trim(line@).len() > 0 ==> todo is Some && final(self).history@ == old(
                self,
            ).history@.push(trim(line@)),
            todo is Some ==> match plan_of(line@) {
                Ok(plan) => todo->0 is Ok && plan_view(todo->0->Ok_0.stages()) == plan
                    && todo->0->Ok_0@ == start(launches_of(todo->0->Ok_0.stages())),
                Err(e) => todo->0 == Err::<Execution, SyntaxError>(e),
            },
    {
        if self.history.accept(line) {
            Some(execute_pipeline(line))
        } else {
            None
        }
    }

    /// What is saved when the input ends and the shell has a history file:
    /// the entries that no `history -a` has written to it are appended.
    pub fn end_of_input(&self, histfile: &str) -> (action: BuiltinAction)
        ensures
            action@ == (BuiltinActionView::AppendHistory {
                path: histfile@,
                text: file_text(unwritten(self.history@, self.marks.written(histfile@))),
                upto: self.history@.len(),
            }),
    {
        BuiltinAction::AppendHistory {
            path: String::from_str(histfile),
            text: self.history.append_delta(&self.marks, histfile),
            upto: self.history.len(),
        }
    }
}

/// What the user is shown for the state of the completer: nothing unless
/// several names match something that was typed; then the bell at the
/// first press, and the names in one line at the second.
pub open spec fn feedback_of(completer: BuiltinCompleter) -> FeedbackView {
    if completer.last_matches@.len() > 1 && completer.last_prefix@.len() > 0 {
        if completer.tab_count == 1 {
            FeedbackView::Bell
        } else if completer.tab_count == 2 {
            FeedbackView::List(join_seq(texts(completer.last_matches@), "  "@))
        } else {
            FeedbackView::Nothing
        }
    } else {
        FeedbackView::Nothing
    }
}

/// What the user is shown after a completion. Once the names were listed,
/// the count of presses starts anew.
pub fn completion_feedback(completer: &mut BuiltinCompleter) -> (feedback: Feedback)
    ensures
        feedback@ == feedback_of(*old(completer)),
        final(completer).last_prefix == old(completer).last_prefix,
        final(completer).last_matches == old(completer).last_matches,
        final(completer).tab_count == (if feedback is List {
            0
        } else {
            old(completer).tab_count
        }),
{
    if completer.last_matches.len() > 1 && !completer.last_prefix.as_str().is_empty() {
        if completer.tab_count == 1 {
            Feedback::Bell
        } else if completer.tab_count == 2 {
            let line = join(&completer.last_matches, "  ");
            completer.tab_count = 0;
            Feedback::List(line)
        } else {
            Feedback::Nothing
        }
    } else {
        Feedback::Nothing
    }
}

} // verus!
