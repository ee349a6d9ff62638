//! The plan of a command line: its stages, and for each stage how it is
//! launched and where its three standard streams go.
//!
//! The plan is built in full before anything runs. It names pipes by their
//! index: pipe `k` joins stage `k` to stage `k + 1`.

use vstd::prelude::*;
use crate::builtins::{is_builtin, is_builtin_name};
use crate::parser::{pipeline_segments, shell_split_shell_like, tokenize, trimmed_segments,
    word_texts, words_view, QuoteType};
use crate::redirect::{effective, effective_redirection, extract, extract_redirections,
    Stage, StageView, Stream, SyntaxError};
use crate::text::texts;

verus! {

/// How a stage is run.
#[derive(Clone, Copy, PartialEq, Eq, Debug, Structural)]
pub enum Launch {
    /// The stage has no command: only its redirection targets are created.
    Nothing,
    /// A builtin as the last stage: it runs in the shell itself, so that
    /// `cd` and `exit` act on the shell.
    BuiltinInShell,
    /// A builtin before the last stage: it runs in a child of its own.
    BuiltinInChild,
    /// Any other command: a child that becomes the program.
    External,
}

/// Where a stage reads its standard input from.
#[derive(Clone, Copy, PartialEq, Eq, Debug, Structural)]
pub enum Input {
    /// The shell's own standard input.
    Inherit,
    /// The read end of the pipe with this index.
    Pipe(usize),
}

/// Where a stage writes one of its output streams to.
#[derive(Clone, Copy, PartialEq, Eq, Debug, Structural)]
pub enum Output {
    /// The shell's own stream.
    Inherit,
    /// The write end of the pipe with this index.
    Pipe(usize),
    /// The file of the stage's redirection with this index.
    File(usize),
    /// The pipe through which the shell reads the child's messages.
    Capture,
}

/// One stage of a plan.
#[derive(Clone, Debug, PartialEq, Eq)]
pub struct StagePlan {
    pub stage: Stage,
    pub launch: Launch,
    pub stdin: Input,
    pub stdout: Output,
    pub stderr: Output,
}

/// One stage of a plan as a value of the model.
#[verifier::ext_equal]
pub struct StagePlanView {
    pub stage: StageView,
    pub launch: Launch,
    pub stdin: Input,
    pub stdout: Output,
    pub stderr: Output,
}

impl View for StagePlan {
    type V = StagePlanView;

    open spec fn view(&self) -> StagePlanView {
        StagePlanView {
            stage: self.stage@,
            launch: self.launch,
            stdin: self.stdin,
            stdout: self.stdout,
            stderr: self.stderr,
        }
    }
}

/// The views of the stages of a plan.
pub open spec fn plan_view(v: Seq<StagePlan>) -> Seq<StagePlanView> {
    Seq::new(v.len(), |i: int| v[i]@)
}

/// How stage `index` of `count` is run.
pub open spec fn launch_of(stage: StageView, index: int, count: int) -> Launch {
    if stage.words.len() == 0 {
        Launch::Nothing
    } else if !is_builtin_name(stage.words[0].0) {
        Launch::External
    } else if index == count - 1 {
        Launch::BuiltinInShell
    } else {
        Launch::BuiltinInChild
    }
}

/// Where stage `index` reads from: the pipe before it, or, for the first
/// stage, the shell's input.
pub open spec fn stdin_of(index: int) -> Input {
    if index == 0 {
        Input::Inherit
    } else {
        Input::Pipe((index - 1) as usize)
    }
}

/// Where stage `index` of `count` writes its output: its redirection if it
/// has one, else the pipe after it, or, for the last stage, the shell's
/// output.
pub open spec fn stdout_of(stage: StageView, index: int, count: int) -> Output {
    match effective(stage.redirections, Stream::Stdout) {
        Some(k) => Output::File(k as usize),
        None => if index < count - 1 {
            Output::Pipe(index as usize)
        } else {
            Output::Inherit
        },
    }
}

/// Where a stage writes its messages: its redirection if it has one, else,
/// for an external command, the capture pipe, and for a builtin the shell's
/// own stream.
pub open spec fn stderr_of(stage: StageView, index: int, count: int) -> Output {
    match effective(stage.redirections, Stream::Stderr) {
        Some(k) => Output::File(k as usize),
        None => if launch_of(stage, index, count) == Launch::External {
            Output::Capture
        } else {
            Output::Inherit
        },
    }
}

/// The plan of stage `index` of `count`.
pub open spec fn wire(stage: StageView, index: int, count: int) -> StagePlanView {
    StagePlanView {
        stage,
        launch: launch_of(stage, index, count),
        stdin: stdin_of(index),
        stdout: stdout_of(stage, index, count),
        stderr: stderr_of(stage, index, count),
    }
}

/// The plan of the first `upto` segments of a line, or the first error among
/// them. A segment whose last word is an operator has no target for it; a
/// segment without a command, beside a pipe operator, is an empty stage.
pub open spec fn plan_prefix(segments: Seq<Seq<char>>, upto: int) -> Result<
    Seq<StagePlanView>,
    SyntaxError,
>
    decreases upto,
{
    if upto <= 0 {
        Ok(Seq::empty())
    } else {
        match plan_prefix(segments, upto - 1) {
            Err(e) => Err(e),
            Ok(done) => match extract(tokenize(segments[upto - 1])) {
                None => Err(SyntaxError::MissingRedirectTarget),
                Some(stage) => if stage.words.len() == 0 && segments.len() > 1 {
                    Err(SyntaxError::EmptyStage)
                } else {
                    Ok(done.push(wire(stage, upto - 1, segments.len() as int)))
                },
            },
        }
    }
}

/// The plan of a line: one stage for each of its segments.
pub open spec fn plan_of(line: Seq<char>) -> Result<Seq<StagePlanView>, SyntaxError> {
    plan_prefix(trimmed_segments(line), trimmed_segments(line).len() as int)
}

/// The first error among the segments of a line is the error of the line.
proof fn lemma_plan_error_stays(segments: Seq<Seq<char>>, at: int, upto: int)
    requires
        0 <= at <= upto,
        plan_prefix(segments, at) is Err,
    ensures
        plan_prefix(segments, upto) == plan_prefix(segments, at),
    decreases upto - at,
{
    if at < upto {
        lemma_plan_error_stays(segments, at, upto - 1);
    }
}

/// Plans one stage: how it is launched and where its streams go.
pub fn plan_stage(stage: Stage, index: usize, count: usize) -> (plan: StagePlan)
    requires
        index < count,
    ensures
        plan@ == wire(stage@, index as int, count as int),
{
    let launch = if stage.words.len() == 0 {
        Launch::Nothing
    } else if !is_builtin(stage.words[0].0.as_str()) {
        Launch::External
    } else if index == count - 1 {
        Launch::BuiltinInShell
    } else {
        Launch::BuiltinInChild
    };
    let stdin = if index == 0 {
        Input::Inherit
    } else {
        Input::Pipe(index - 1)
    };
    let stdout = match effective_redirection(&stage.redirections, Stream::Stdout) {
        Some(k) => Output::File(k),
        None => if index < count - 1 {
            Output::Pipe(index)
        } else {
            Output::Inherit
        },
    };
    let stderr = match effective_redirection(&stage.redirections, Stream::Stderr) {
        Some(k) => Output::File(k),
        None => match launch {
            Launch::External => Output::Capture,
            _ => Output::Inherit,
        },
    };
    StagePlan { stage, launch, stdin, stdout, stderr }
}

/// Plans a command line. The line is cut at its pipe operators; each piece
/// is split into words, its redirections are taken out, and the stage is
/// wired: pipe `k` joins stage `k` to stage `k + 1`, and a redirection takes
/// the place of the pipe or of the shell's stream. A line without a pipe
/// operator always has a plan of one stage, which may hold no command.
pub fn plan_pipeline(line: &str) -> (result: Result<Vec<StagePlan>, SyntaxError>)
    ensures
        match plan_of(line@) {
            Ok(plan) => result is Ok && plan_view(result->Ok_0@) == plan,
            Err(e) => result == Err::<Vec<StagePlan>, SyntaxError>(e),
        },
{
    let pieces = pipeline_segments(line);
    let count = pieces.len();
    let mut plan: Vec<StagePlan> = Vec::new();
    let mut i: usize = 0;
    assert(plan_view(plan@) == Seq::<StagePlanView>::empty());
    while i < count
        invariant
            0 <= i <= count,
            count == pieces.len(),
            texts(pieces@) == trimmed_segments(line@),
            plan_prefix(trimmed_segments(line@), i as int) == Ok::<
                Seq<StagePlanView>,
                SyntaxError,
            >(plan_view(plan@)),
        decreases count - i,
    {
        assert(texts(pieces@)[i as int] == pieces@[i as int]@);
        let tokens = shell_split_shell_like(pieces[i].as_str());
        match extract_redirections(&tokens) {
            Err(e) => {
                proof {
                    lemma_plan_error_stays(trimmed_segments(line@), i + 1, count as int);
                }
                return Err(e);
            },
            Ok(stage) => {
                if stage.words.len() == 0 && count > 1 {
                    proof {
                        lemma_plan_error_stays(trimmed_segments(line@), i + 1, count as int);
                    }
                    return Err(SyntaxError::EmptyStage);
                }
                let ghost old_plan = plan@;
                let wired = plan_stage(stage, i, count);
                plan.push(wired);
                assert(plan_view(plan@) == plan_view(old_plan).push(wired@));
            },
        }
        i += 1;
    }
    Ok(plan)
}

/// A builtin that stands alone and redirects nothing runs in the shell on
/// the shell's own three streams.
pub proof fn lemma_plain_builtin_keeps_streams(stage: StageView)
    requires
        stage.words.len() > 0,
        is_builtin_name(stage.words[0].0),
        stage.redirections.len() == 0,
    ensures
        wire(stage, 0, 1).launch == Launch::BuiltinInShell,
        wire(stage, 0, 1).stdin == Input::Inherit,
        wire(stage, 0, 1).stdout == Output::Inherit,
        wire(stage, 0, 1).stderr == Output::Inherit,
{
}

/// No builtin, wherever it stands in a pipeline, has a stream replaced that
/// it neither redirects nor is joined to by a pipe: its messages go to the
/// shell's own stream unless it redirects them, and as the last stage so
/// does its output.
pub proof fn lemma_builtin_keeps_streams(stage: StageView, index: int, count: int)
    requires
        0 <= index < count,
        stage.words.len() > 0,
        is_builtin_name(stage.words[0].0),
    ensures
        effective(stage.redirections, Stream::Stderr) is None ==> wire(stage, index, count).stderr
            == Output::Inherit,
        effective(stage.redirections, Stream::Stdout) is None && index == count - 1 ==> wire(
            stage,
            index,
            count,
        ).stdout == Output::Inherit,
        index == 0 ==> wire(stage, index, count).stdin == Input::Inherit,
{
}

/// The texts of the words of a command, without their quote tags: the
/// command's name and its arguments as a builtin takes them.
pub fn word_strings(words: &Vec<(String, QuoteType)>) -> (out: Vec<String>)
    ensures
        texts(out@) == word_texts(words_view(words@)),
{
    let mut out: Vec<String> = Vec::new();
    let mut i: usize = 0;
    while i < words.len()
        invariant
            0 <= i <= words.len(),
            out@.len() == i,
            forall|j: int| 0 <= j < i ==> (#[trigger] out@[j])@ == words@[j].0@,
        decreases words.len() - i,
    {
        out.push(words[i].0.clone());
        i += 1;
    }
    assert(texts(out@) =~= word_texts(words_view(words@)));
    out
}

} // verus!
