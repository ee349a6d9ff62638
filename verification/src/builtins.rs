//! The builtin commands: `exit`, `echo`, `type`, `pwd`, `cd` and `history`.
//!
//! A builtin is run against the shell's state in memory. What it needs of
//! the outside, the search path and the home directory, it is given; what it
//! does to the outside, it returns as an action for the caller to perform.

use vstd::prelude::*;
use vstd::string::StringExecFns;
use crate::history::{file_text, listing, listing_start, unwritten, AppendMarks, History};
use crate::numbers::{parse_i32, parse_usize, signed_value, unsigned_value};
use crate::resolver::{candidates, resolve_candidates};
use crate::text::{join_from, join_seq, slice_to_string, str_equal, texts, to_chars};

verus! {

/// Whether `name` is one of the commands that the shell runs itself.
pub open spec fn is_builtin_name(name: Seq<char>) -> bool {
    ||| name == "exit"@
    ||| name == "echo"@
    ||| name == "type"@
    ||| name == "pwd"@
    ||| name == "cd"@
    ||| name == "history"@
}

/// Whether `name` is one of the commands that the shell runs itself.
pub fn is_builtin(name: &str) -> (b: bool)
    ensures
        b == is_builtin_name(name@),
{
    str_equal(name, "exit") || str_equal(name, "echo") || str_equal(name, "type") || str_equal(
        name,
        "pwd",
    ) || str_equal(name, "cd") || str_equal(name, "history")
}

/// What a builtin asks of the caller.
#[derive(Clone, Debug, PartialEq, Eq)]
pub enum BuiltinAction {
    /// End the shell with this exit code.
    Exit(i32),
    /// Write this text to standard output.
    Print(String),
    /// Find the first of these files that may be executed, and print where
    /// the command is, or that it was not found.
    Locate { name: String, candidates: Vec<String> },
    /// Print the current directory.
    PrintWorkingDirectory,
    /// Make `target` the current directory; where that fails, print the
    /// complaint.
    ChangeDirectory { target: String, complaint: String },
    /// Read the file at `path` and load it into the history.
    ReadHistory { path: String },
    /// Replace the file at `path` by this text.
    WriteHistory { path: String, text: String },
    /// Append this text to the file at `path`, and then record that the
    /// history is written to it up to `upto`.
    AppendHistory { path: String, text: String, upto: usize },
    /// Nothing.
    Nothing,
}

/// What a builtin asks of the caller, as a value of the model.
pub enum BuiltinActionView {
    Exit(int),
    Print(Seq<char>),
    Locate { name: Seq<char>, candidates: Seq<Seq<char>> },
    PrintWorkingDirectory,
    ChangeDirectory { target: Seq<char>, complaint: Seq<char> },
    ReadHistory { path: Seq<char> },
    WriteHistory { path: Seq<char>, text: Seq<char> },
    AppendHistory { path: Seq<char>, text: Seq<char>, upto: nat },
    Nothing,
}

impl View for BuiltinAction {
    type V = BuiltinActionView;

    open spec fn view(&self) -> BuiltinActionView {
        match self {
            BuiltinAction::Exit(code) => BuiltinActionView::Exit(*code as int),
            BuiltinAction::Print(text) => BuiltinActionView::Print(text@),
            BuiltinAction::Locate { name, candidates } => BuiltinActionView::Locate {
                name: name@,
                candidates: texts(candidates@),
            },
            BuiltinAction::PrintWorkingDirectory => BuiltinActionView::PrintWorkingDirectory,
            BuiltinAction::ChangeDirectory { target, complaint } => {
                BuiltinActionView::ChangeDirectory { target: target@, complaint: complaint@ }
            },
            BuiltinAction::ReadHistory { path } => BuiltinActionView::ReadHistory { path: path@ },
            BuiltinAction::WriteHistory { path, text } => BuiltinActionView::WriteHistory {
                path: path@,
                text: text@,
            },
            BuiltinAction::AppendHistory { path, text, upto } => BuiltinActionView::AppendHistory {
                path: path@,
                text: text@,
                upto: *upto as nat,
            },
            BuiltinAction::Nothing => BuiltinActionView::Nothing,
        }
    }
}

/// The exit code that `exit` ends the shell with: zero without an argument,
/// the argument where it is an integer of 32 bits, and 255 where it is not.
pub open spec fn exit_code_of(tokens: Seq<Seq<char>>) -> int {
    if tokens.len() < 2 {
        0
    } else {
        match signed_value(tokens[1]) {
            Some(code) => if i32::MIN <= code <= i32::MAX {
                code
            } else {
                255
            },
            None => 255,
        }
    }
}

/// What `echo` prints: its arguments with one space between each two, and a
/// line feed.
pub open spec fn echo_text(tokens: Seq<Seq<char>>) -> Seq<char> {
    join_seq(tokens.skip(1), " "@) + "\n"@
}

/// The directory that `cd` is asked for: the argument, with a tilde at its
/// start, alone or before a slash, replaced by the home directory where one
/// is known.
pub open spec fn expand_tilde(arg: Seq<char>, home: Option<Seq<char>>) -> Seq<char> {
    match home {
        None => arg,
        Some(h) => if arg == seq!['~'] {
            h
        } else if arg.len() >= 2 && arg[0] == '~' && arg[1] == '/' {
            h + seq!['/'] + arg.skip(2)
        } else {
            arg
        },
    }
}

/// What `cd` prints where the directory cannot be entered.
pub open spec fn cd_complaint(arg: Seq<char>) -> Seq<char> {
    "cd: "@ + arg + ": No such file or directory\n"@
}

/// What `type` prints for a builtin.
pub open spec fn builtin_report(name: Seq<char>) -> Seq<char> {
    name + " is a shell builtin\n"@
}

/// What `type` prints for a command found at `file`.
pub open spec fn located_report(name: Seq<char>, file: Seq<char>) -> Seq<char> {
    name + " is "@ + file + "\n"@
}

/// What `type` prints for a command that was not found.
pub open spec fn not_found_report(name: Seq<char>) -> Seq<char> {
    name + ": not found\n"@
}

/// What the shell prints for a command that cannot be run.
pub open spec fn command_not_found_report(name: Seq<char>) -> Seq<char> {
    name + ": command not found\n"@
}

/// What `history` asks for, by its arguments.
pub open spec fn history_action(
    tokens: Seq<Seq<char>>,
    history: Seq<Seq<char>>,
    marks: AppendMarks,
) -> BuiltinActionView {
    if tokens.len() == 3 && tokens[1] == "-r"@ {
        BuiltinActionView::ReadHistory { path: tokens[2] }
    } else if tokens.len() == 3 && tokens[1] == "-w"@ {
        BuiltinActionView::WriteHistory { path: tokens[2], text: file_text(history) }
    } else if tokens.len() == 3 && tokens[1] == "-a"@ {
        BuiltinActionView::AppendHistory {
            path: tokens[2],
            text: file_text(unwritten(history, marks.written(tokens[2]))),
            upto: history.len(),
        }
    } else if tokens.len() == 2 && unsigned_value(tokens[1]) is Some {
        BuiltinActionView::Print(
            listing(
                history,
                listing_start(history.len(), unsigned_value(tokens[1])->0),
                history.len(),
            ),
        )
    } else {
        BuiltinActionView::Print(listing(history, 0, history.len()))
    }
}

/// What a builtin asks for, or nothing where the first word names none.
pub open spec fn builtin_action(
    tokens: Seq<Seq<char>>,
    history: Seq<Seq<char>>,
    marks: AppendMarks,
    search_path: Seq<char>,
    home: Option<Seq<char>>,
) -> Option<BuiltinActionView> {
    if tokens.len() == 0 {
        None
    } else if tokens[0] == "exit"@ {
        Some(BuiltinActionView::Exit(exit_code_of(tokens)))
    } else if tokens[0] == "echo"@ {
        Some(BuiltinActionView::Print(echo_text(tokens)))
    } else if tokens[0] == "type"@ {
        if tokens.len() < 2 {
            Some(BuiltinActionView::Nothing)
        } else if is_builtin_name(tokens[1]) {
            Some(BuiltinActionView::Print(builtin_report(tokens[1])))
        } else {
            Some(
                BuiltinActionView::Locate {
                    name: tokens[1],
                    candidates: candidates(tokens[1], search_path),
                },
            )
        }
    } else if tokens[0] == "pwd"@ {
        Some(BuiltinActionView::PrintWorkingDirectory)
    } else if tokens[0] == "cd"@ {
        if tokens.len() < 2 {
            Some(BuiltinActionView::Print("cd: missing argument\n"@))
        } else {
            Some(
                BuiltinActionView::ChangeDirectory {
                    target: expand_tilde(tokens[1], home),
                    complaint: cd_complaint(tokens[1]),
                },
            )
        }
    } else if tokens[0] == "history"@ {
        Some(history_action(tokens, history, marks))
    } else {
        None
    }
}

/// The exit code that `exit` ends the shell with.
pub fn exit_code(tokens: &Vec<String>) -> (code: i32)
    ensures
        code == exit_code_of(texts(tokens@)),
{
    if tokens.len() < 2 {
        0
    } else {
        assert(texts(tokens@)[1] == tokens@[1]@);
        match parse_i32(tokens[1].as_str()) {
            Some(code) => code,
            None => 255,
        }
    }
}

/// The directory that `cd` is asked for.
pub fn tilde_expanded(arg: &str, home: Option<&str>) -> (target: String)
    ensures
        target@ == expand_tilde(
            arg@,
            match home {
                Some(h) => Some(h@),
                None => None,
            },
        ),
{
    match home {
        None => String::from_str(arg),
        Some(h) => {
            let v = to_chars(arg);
            if v.len() == 1 && v[0] == '~' {
                assert(v@ == seq!['~']);
                String::from_str(h)
            } else if v.len() >= 2 && v[0] == '~' && v[1] == '/' {
                let rest = slice_to_string(&v, 2, v.len());
                let mut target = String::from_str(h);
                target.append("/");
                target.append(rest.as_str());
                proof {
                    reveal_strlit("/");
                    assert("/"@ == seq!['/']);
                    assert(v@.subrange(2, v.len() as int) == v@.skip(2));
                }
                target
            } else {
                String::from_str(arg)
            }
        },
    }
}

/// The text of `subject` followed by `rest`.
fn followed(subject: &str, rest: &str) -> (text: String)
    ensures
        text@ == subject@ + rest@,
{
    let mut text = String::from_str(subject);
    text.append(rest);
    text
}

/// What `type` prints for a command found at `file`.
pub fn located_text(name: &str, file: &str) -> (text: String)
    ensures
        text@ == located_report(name@, file@),
{
    let mut text = String::from_str(name);
    text.append(" is ");
    text.append(file);
    text.append("\n");
    text
}

/// What `type` prints for a command that was not found.
pub fn not_found_text(name: &str) -> (text: String)
    ensures
        text@ == not_found_report(name@),
{
    followed(name, ": not found\n")
}

/// What the shell prints for a command that cannot be run.
pub fn command_not_found_text(name: &str) -> (text: String)
    ensures
        text@ == command_not_found_report(name@),
{
    followed(name, ": command not found\n")
}

/// What `history` asks for, by its arguments.
fn run_history(tokens: &Vec<String>, history: &History, marks: &AppendMarks) -> (action:
    BuiltinAction)
    requires
        tokens.len() > 0,
    ensures
        action@ == history_action(texts(tokens@), history@, *marks),
{
    let ghost words = texts(tokens@);
    if tokens.len() == 3 {
        assert(words[1] == tokens@[1]@);
        assert(words[2] == tokens@[2]@);
        let flag = tokens[1].as_str();
        if str_equal(flag, "-r") {
            return BuiltinAction::ReadHistory { path: tokens[2].clone() };
        } else if str_equal(flag, "-w") {
            return BuiltinAction::WriteHistory { path: tokens[2].clone(), text: history.file_text() };
        } else if str_equal(flag, "-a") {
            return BuiltinAction::AppendHistory {
                path: tokens[2].clone(),
                text: history.append_delta(marks, tokens[2].as_str()),
                upto: history.len(),
            };
        }
    }
    if tokens.len() == 2 {
        assert(words[1] == tokens@[1]@);
        match parse_usize(tokens[1].as_str()) {
            Some(count) => {
                return BuiltinAction::Print(history.listing_of_last(count));
            },
            None => {
                let total = history.len();
                assert(unsigned_value(words[1]) is Some ==> listing_start(
                    total as nat,
                    unsigned_value(words[1])->0,
                ) == 0);
            },
        }
    }
    BuiltinAction::Print(history.listing_from(0))
}

/// Runs a builtin against the shell's state: the words of the command, the
/// history, the marks of `history -a`, the search path and the home
/// directory. The result is what is left for the caller to do, and nothing
/// where the first word names no builtin.
pub fn run_builtin(
    tokens: &Vec<String>,
    history: &History,
    marks: &AppendMarks,
    search_path: &str,
    home: Option<&str>,
) -> (action: Option<BuiltinAction>)
    ensures
        match builtin_action(
            texts(tokens@),
            history@,
            *marks,
            search_path@,
            match home {
                Some(h) => Some(h@),
                None => None,
            },
        ) {
            Some(a) => action is Some && action->0@ == a,
            None => action is None,
        },
{
    if tokens.len() == 0 {
        return None;
    }
    let ghost words = texts(tokens@);
    assert(words[0] == tokens@[0]@);
    let command = tokens[0].as_str();
    if str_equal(command, "exit") {
        Some(BuiltinAction::Exit(exit_code(tokens)))
    } else if str_equal(command, "echo") {
        let mut text = join_from(tokens, 1, " ");
        text.append("\n");
        Some(BuiltinAction::Print(text))
    } else if str_equal(command, "type") {
        if tokens.len() < 2 {
            Some(BuiltinAction::Nothing)
        } else {
            assert(words[1] == tokens@[1]@);
            let name = tokens[1].as_str();
            if is_builtin(name) {
                Some(BuiltinAction::Print(followed(name, " is a shell builtin\n")))
            } else {
                Some(
                    BuiltinAction::Locate {
                        name: tokens[1].clone(),
                        candidates: resolve_candidates(name, search_path),
                    },
                )
            }
        }
    } else if str_equal(command, "pwd") {
        Some(BuiltinAction::PrintWorkingDirectory)
    } else if str_equal(command, "cd") {
        if tokens.len() < 2 {
            Some(BuiltinAction::Print(String::from_str("cd: missing argument\n")))
        } else {
            assert(words[1] == tokens@[1]@);
            let arg = tokens[1].as_str();
            let mut complaint = String::from_str("cd: ");
            complaint.append(arg);
            complaint.append(": No such file or directory\n");
            Some(BuiltinAction::ChangeDirectory { target: tilde_expanded(arg, home), complaint })
        }
    } else if str_equal(command, "history") {
        Some(run_history(tokens, history, marks))
    } else {
        None
    }
}

} // verus!
