use shellcore::executor::{execute_pipeline, Action, Event, Execution};
use shellcore::redirect::SyntaxError;

struct Books {
    saved: bool,
    ran_with_saved: Vec<bool>,
    pipes_open: Vec<bool>,
    capture_read: Vec<bool>,
    capture_write: Vec<bool>,
    started: Vec<u32>,
    waited: Vec<u32>,
    trace: Vec<Action>,
}

fn new_books(stages: usize) -> Books {
    Books {
        saved: false,
        ran_with_saved: Vec::new(),
        pipes_open: vec![false; stages],
        capture_read: vec![false; stages],
        capture_write: vec![false; stages],
        started: vec![0; stages],
        waited: vec![0; stages],
        trace: Vec::new(),
    }
}

fn drive(line: &str, answer: &dyn Fn(&Action, usize) -> Event) -> Books {
    let mut execution: Execution = execute_pipeline(line).unwrap();
    let stages = execution.stage_count();
    let mut books = new_books(stages);
    let mut event = Event::Done;
    let mut steps = 0;
    loop {
        let (next, action) = execution.step(event);
        execution = next;
        assert_eq!(execution.pending(), Some(action));
        books.trace.push(action);
        steps += 1;
        assert!(steps <= 2 + 2 * (stages.max(1) - 1) + 7 * stages + 1, "does not end");
        if action == Action::Finish {
            assert!(execution.is_finished());
            break;
        }
        event = answer(&action, steps);
        match (action, event) {
            (Action::OpenPipe(k), Event::Done) => {
                assert!(!books.pipes_open[k]);
                books.pipes_open[k] = true;
            }
            (Action::ClosePipe(k), _) => {
                assert!(books.pipes_open[k]);
                books.pipes_open[k] = false;
            }
            (Action::OpenCapture(i), Event::Done) => {
                books.capture_read[i] = true;
                books.capture_write[i] = true;
            }
            (Action::CloseCaptureWrite(i), _) => {
                assert!(books.capture_write[i]);
                books.capture_write[i] = false;
            }
            (Action::DropCapture(i), _) => {
                assert!(books.capture_read[i] && books.capture_write[i]);
                books.capture_read[i] = false;
                books.capture_write[i] = false;
            }
            (Action::Spawn(i), Event::Done) => books.started[i] += 1,
            (Action::SaveStreams(_), Event::Done) => {
                assert!(!books.saved);
                books.saved = true;
            }
            (Action::RunInShell(_), _) => books.ran_with_saved.push(books.saved),
            (Action::RestoreStreams(_), _) => {
                assert!(books.saved);
                books.saved = false;
            }
            (Action::Wait(i), _) => {
                assert_eq!(books.started[i], 1);
                books.waited[i] += 1;
            }
            (Action::Drain(i), _) => {
                assert!(books.capture_read[i]);
                books.capture_read[i] = false;
            }
            _ => {}
        }
    }
    assert!(!books.saved, "the copies of the streams are left open");
    assert!(books.ran_with_saved.iter().all(|saved| *saved), "a builtin ran unprotected");
    assert!(books.pipes_open.iter().all(|open| !open), "a pipe is left open");
    assert!(books.capture_read.iter().all(|open| !open), "a capture is left open");
    assert!(books.capture_write.iter().all(|open| !open), "a capture is left open");
    assert_eq!(books.started, books.waited);
    books
}

fn all_done(_: &Action, _: usize) -> Event {
    Event::Done
}

#[test]
fn single_builtin_runs_in_the_shell() {
    let books = drive("echo hello world", &all_done);
    assert_eq!(
        books.trace,
        vec![
            Action::Precreate(0),
            Action::SaveStreams(0),
            Action::RunInShell(0),
            Action::RestoreStreams(0),
            Action::Finish
        ]
    );
}

#[test]
fn empty_line_does_nothing() {
    let books = drive("", &all_done);
    assert_eq!(books.trace, vec![Action::Precreate(0), Action::Finish]);
}

#[test]
fn single_external_command_is_resolved_first() {
    let books = drive("cat missing 2> err.txt", &all_done);
    assert_eq!(
        books.trace,
        vec![
            Action::Precreate(0),
            Action::Resolve(0),
            Action::OpenCapture(0),
            Action::Spawn(0),
            Action::CloseCaptureWrite(0),
            Action::Wait(0),
            Action::Drain(0),
            Action::Finish
        ]
    );
}

#[test]
fn command_that_is_not_found_is_reported_and_nothing_starts() {
    let books = drive("nosuchcommand > out.txt", &|action, _| match action {
        Action::Resolve(_) => Event::Failed,
        _ => Event::Done,
    });
    assert_eq!(
        books.trace,
        vec![
            Action::Precreate(0),
            Action::Resolve(0),
            Action::ReportNotFound(0),
            Action::Finish
        ]
    );
}

#[test]
fn two_stage_pipeline_waits_for_both_in_spawn_order() {
    let books = drive("ls | wc -l > out.txt", &all_done);
    assert_eq!(
        books.trace,
        vec![
            Action::OpenPipe(0),
            Action::Precreate(0),
            Action::OpenCapture(0),
            Action::Spawn(0),
            Action::CloseCaptureWrite(0),
            Action::Precreate(1),
            Action::OpenCapture(1),
            Action::Spawn(1),
            Action::CloseCaptureWrite(1),
            Action::ClosePipe(0),
            Action::Wait(0),
            Action::Drain(0),
            Action::Wait(1),
            Action::Drain(1),
            Action::Finish
        ]
    );
    assert_eq!(books.started, vec![1, 1]);
}

#[test]
fn builtins_in_a_pipeline() {
    let books = drive("echo a | cat | cd /", &all_done);
    assert_eq!(
        books.trace,
        vec![
            Action::OpenPipe(0),
            Action::OpenPipe(1),
            Action::Precreate(0),
            Action::Spawn(0),
            Action::Precreate(1),
            Action::OpenCapture(1),
            Action::Spawn(1),
            Action::CloseCaptureWrite(1),
            Action::Precreate(2),
            Action::SaveStreams(2),
            Action::RunInShell(2),
            Action::RestoreStreams(2),
            Action::ClosePipe(0),
            Action::ClosePipe(1),
            Action::Wait(0),
            Action::Wait(1),
            Action::Drain(1),
            Action::Finish
        ]
    );
    assert_eq!(books.started, vec![1, 1, 0]);
}

#[test]
fn failed_pipe_is_reported_and_the_opened_pipes_are_closed() {
    let books = drive("a | b | c", &|action, _| match action {
        Action::OpenPipe(1) => Event::Failed,
        _ => Event::Done,
    });
    assert_eq!(
        books.trace,
        vec![
            Action::OpenPipe(0),
            Action::OpenPipe(1),
            Action::ReportFailure,
            Action::ClosePipe(0),
            Action::Finish
        ]
    );
}

#[test]
fn failed_fork_still_closes_and_waits() {
    let books = drive("a | b | c", &|action, _| match action {
        Action::Spawn(1) => Event::Failed,
        _ => Event::Done,
    });
    assert_eq!(
        books.trace,
        vec![
            Action::OpenPipe(0),
            Action::OpenPipe(1),
            Action::Precreate(0),
            Action::OpenCapture(0),
            Action::Spawn(0),
            Action::CloseCaptureWrite(0),
            Action::Precreate(1),
            Action::OpenCapture(1),
            Action::Spawn(1),
            Action::DropCapture(1),
            Action::ReportFailure,
            Action::ClosePipe(0),
            Action::ClosePipe(1),
            Action::Wait(0),
            Action::Drain(0),
            Action::Finish
        ]
    );
    assert_eq!(books.started, vec![1, 0, 0]);
}

#[test]
fn failed_capture_pipe_aborts_the_pipeline() {
    let books = drive("echo x | b", &|action, _| match action {
        Action::OpenCapture(1) => Event::Failed,
        _ => Event::Done,
    });
    assert_eq!(
        books.trace,
        vec![
            Action::OpenPipe(0),
            Action::Precreate(0),
            Action::Spawn(0),
            Action::Precreate(1),
            Action::OpenCapture(1),
            Action::ReportFailure,
            Action::ClosePipe(0),
            Action::Wait(0),
            Action::Finish
        ]
    );
}

#[test]
fn builtin_does_not_run_when_the_streams_cannot_be_saved() {
    let books = drive("ls | echo x", &|action, _| match action {
        Action::SaveStreams(_) => Event::Failed,
        _ => Event::Done,
    });
    assert_eq!(
        books.trace,
        vec![
            Action::OpenPipe(0),
            Action::Precreate(0),
            Action::OpenCapture(0),
            Action::Spawn(0),
            Action::CloseCaptureWrite(0),
            Action::Precreate(1),
            Action::SaveStreams(1),
            Action::ReportFailure,
            Action::ClosePipe(0),
            Action::Wait(0),
            Action::Drain(0),
            Action::Finish
        ]
    );
}

#[test]
fn every_pattern_of_failures_ends_clean() {
    let lines = ["a", "echo x", "a | b", "echo x | b | cd /", "a | echo y | c | d", "> f"];
    for line in lines {
        for mask in 0u32..(1 << 12) {
            let answer = move |_: &Action, step: usize| {
                if step <= 12 && mask & (1 << (step - 1)) != 0 {
                    Event::Failed
                } else {
                    Event::Done
                }
            };
            drive(line, &answer);
        }
    }
}

#[test]
fn finished_execution_stays_finished() {
    let mut execution = execute_pipeline("echo a").unwrap();
    assert_eq!(execution.pending(), None);
    assert!(!execution.is_finished());
    for _ in 0..10 {
        let (next, _) = execution.step(Event::Done);
        execution = next;
    }
    assert!(execution.is_finished());
    let (after, action) = execution.step(Event::Failed);
    assert_eq!(action, Action::Finish);
    assert!(after.is_finished());
}

#[test]
fn stages_of_the_plan_can_be_read() {
    let execution = execute_pipeline("ls -l | wc").unwrap();
    assert_eq!(execution.stage_count(), 2);
    assert_eq!(execution.stage(1).unwrap().stage.words[0].0, "wc");
    assert!(execution.stage(2).is_none());
}

#[test]
fn syntax_errors_come_before_any_action() {
    assert_eq!(execute_pipeline("ls |").err(), Some(SyntaxError::EmptyStage));
    assert_eq!(execute_pipeline("ls >").err(), Some(SyntaxError::MissingRedirectTarget));
}
