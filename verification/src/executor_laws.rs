//! What holds of every execution: whatever the operating system answers,
//! the machine closes every descriptor it had opened and waits exactly once
//! for every child it had started, and it ends.

use vstd::prelude::*;
use crate::executor::{absorb, advance, close_from, follow, is_external, reap_from, start, Action,
    ChildState, Event, Machine, Slot, fresh_slot};
use crate::pipeline::Launch;

verus! {

/// A stage after its launch and before the waiting: the shell holds no write
/// end of its capture pipe, and a read end only for a child that runs.
pub open spec fn settled(s: Slot) -> bool {
    !s.capture_write && (s.capture_read ==> s.child == ChildState::Running) && s.child
        != ChildState::Reaped
}

/// A stage that is over: no child of it runs and no end of its capture pipe
/// is open.
pub open spec fn over(s: Slot) -> bool {
    s.child != ChildState::Running && !s.capture_read && !s.capture_write
}

/// The books have one slot for each stage and one pipe for each two
/// neighbouring stages.
pub open spec fn shaped(m: Machine) -> bool {
    m.slots.len() == m.launches.len() && m.launches.len() <= usize::MAX && m.pipes.len() == (
    if m.launches.len() > 0 {
        m.launches.len() - 1
    } else {
        0
    })
}

/// Every stage is settled.
pub open spec fn all_settled(m: Machine) -> bool {
    forall|j: int| 0 <= j < m.slots.len() ==> settled(#[trigger] m.slots[j])
}

/// No pipe below `k` is open.
pub open spec fn closed_below(m: Machine, k: int) -> bool {
    forall|j: int| 0 <= j < k && j < m.pipes.len() ==> !#[trigger] m.pipes[j]
}

/// No pipe is open.
pub open spec fn pipes_closed(m: Machine) -> bool {
    closed_below(m, m.pipes.len() as int)
}

/// The shell holds no pipe, no capture pipe and no copy of a standard
/// descriptor open.
pub open spec fn holds_nothing(m: Machine) -> bool {
    &&& pipes_closed(m)
    &&& !m.saved
    &&& forall|j: int|
        0 <= j < m.slots.len() ==> !(#[trigger] m.slots[j]).capture_read && !m.slots[j].capture_write
}

/// Stage `i` is being launched: the stages before it are settled, and
/// nothing has happened to the stages after it.
pub open spec fn launching(m: Machine, i: usize) -> bool {
    &&& i < m.slots.len()
    &&& forall|j: int| 0 <= j < i ==> settled(#[trigger] m.slots[j])
    &&& forall|j: int| i < j < m.slots.len() ==> #[trigger] m.slots[j] == fresh_slot()
}

/// The children are being waited for, up to stage `i`: no pipe is open, the
/// stages before `i` are over, and those after it are settled.
pub open spec fn reaping(m: Machine, i: int) -> bool {
    &&& pipes_closed(m)
    &&& forall|j: int| 0 <= j < i && j < m.slots.len() ==> over(#[trigger] m.slots[j])
    &&& forall|j: int| i <= j < m.slots.len() ==> settled(#[trigger] m.slots[j])
}

/// The shell holds copies of its standard descriptors only while a builtin
/// runs in it.
pub open spec fn saved_in_time(m: Machine) -> bool {
    m.saved ==> m.pending is Some && (m.pending->0 is RunInShell || m.pending->0 is RestoreStreams)
}

/// What holds of the machine at every point of every execution.
pub open spec fn inv(m: Machine) -> bool {
    &&& shaped(m)
    &&& saved_in_time(m)
    &&& match m.pending {
        None => pipes_closed(m) && forall|j: int|
            0 <= j < m.slots.len() ==> #[trigger] m.slots[j] == fresh_slot(),
        Some(Action::OpenPipe(k)) => {
            &&& k < m.pipes.len()
            &&& forall|j: int| k <= j < m.pipes.len() ==> !#[trigger] m.pipes[j]
            &&& forall|j: int| 0 <= j < m.slots.len() ==> #[trigger] m.slots[j] == fresh_slot()
        },
        Some(Action::Precreate(i)) => launching(m, i) && m.slots[i as int] == fresh_slot(),
        Some(Action::SaveStreams(i)) => launching(m, i) && m.slots[i as int] == fresh_slot(),
        Some(Action::RunInShell(i)) => launching(m, i) && m.slots[i as int] == fresh_slot(),
        Some(Action::RestoreStreams(i)) => launching(m, i) && m.slots[i as int] == fresh_slot(),
        Some(Action::Resolve(i)) => launching(m, i) && m.slots[i as int] == fresh_slot()
            && is_external(m, i),
        Some(Action::OpenCapture(i)) => launching(m, i) && m.slots[i as int] == fresh_slot()
            && is_external(m, i),
        Some(Action::Spawn(i)) => {
            &&& launching(m, i)
            &&& m.slots[i as int].child == ChildState::Absent
            &&& m.slots[i as int].capture_read == is_external(m, i)
            &&& m.slots[i as int].capture_write == is_external(m, i)
        },
        Some(Action::CloseCaptureWrite(i)) => {
            &&& launching(m, i)
            &&& m.slots[i as int].child == ChildState::Running
        },
        Some(Action::DropCapture(i)) => {
            &&& launching(m, i)
            &&& m.slots[i as int].child == ChildState::Absent
        },
        Some(Action::ReportNotFound(_)) => all_settled(m),
        Some(Action::ReportFailure) => all_settled(m),
        Some(Action::ClosePipe(k)) => k < m.pipes.len() && closed_below(m, k as int)
            && all_settled(m),
        Some(Action::Wait(i)) => {
            &&& i < m.slots.len()
            &&& reaping(m, i as int)
            &&& m.slots[i as int].child == ChildState::Running
        },
        Some(Action::Drain(i)) => {
            &&& i < m.slots.len()
            &&& pipes_closed(m)
            &&& m.slots[i as int].child == ChildState::Reaped
            &&& !m.slots[i as int].capture_write
            &&& forall|j: int| 0 <= j < i ==> over(#[trigger] m.slots[j])
            &&& forall|j: int| i < j < m.slots.len() ==> settled(#[trigger] m.slots[j])
        },
        Some(Action::Finish) => pipes_closed(m) && forall|j: int|
            0 <= j < m.slots.len() ==> over(#[trigger] m.slots[j]),
    }
}

/// The machine with `action` handed out.
pub open spec fn handing(m: Machine, action: Action) -> Machine {
    Machine { pending: Some(action), ..m }
}

/// A child that is waited for next stands at or after the place where the
/// search began, and it runs.
proof fn lemma_reap_from_finds_later(m: Machine, from: int, i: usize)
    requires
        0 <= from,
        m.slots.len() <= usize::MAX,
        reap_from(m, from) == Action::Wait(i),
    ensures
        from <= i < m.slots.len(),
        m.slots[i as int].child == ChildState::Running,
    decreases m.slots.len() - from,
{
    if from < m.slots.len() && m.slots[from].child != ChildState::Running {
        lemma_reap_from_finds_later(m, from + 1, i);
    }
}

/// What `reap_from` hands out is a wait or the end.
proof fn lemma_reap_from_kind(m: Machine, from: int)
    requires
        0 <= from,
    ensures
        reap_from(m, from) is Wait || reap_from(m, from) is Finish,
    decreases m.slots.len() - from,
{
    if from < m.slots.len() && m.slots[from].child != ChildState::Running {
        lemma_reap_from_kind(m, from + 1);
    }
}

/// Waiting from stage `from` on keeps the books in order.
proof fn lemma_reap_from_inv(m: Machine, from: int)
    requires
        shaped(m),
        !m.saved,
        0 <= from,
        pipes_closed(m),
        forall|j: int| 0 <= j < from && j < m.slots.len() ==> over(#[trigger] m.slots[j]),
        forall|j: int| from <= j < m.slots.len() ==> settled(#[trigger] m.slots[j]),
    ensures
        inv(handing(m, reap_from(m, from))),
    decreases m.slots.len() - from,
{
    if from >= m.slots.len() {
    } else if m.slots[from].child == ChildState::Running {
        let next = handing(m, Action::Wait(from as usize));
        assert(reaping(next, from));
    } else {
        assert(settled(m.slots[from]));
        lemma_reap_from_inv(m, from + 1);
    }
}

/// Closing the pipes from `from` on keeps the books in order.
proof fn lemma_close_from_inv(m: Machine, from: int)
    requires
        shaped(m),
        !m.saved,
        0 <= from,
        closed_below(m, from),
        all_settled(m),
    ensures
        inv(handing(m, close_from(m, from))),
    decreases m.pipes.len() - from,
{
    if from >= m.pipes.len() {
        lemma_reap_from_inv(m, 0);
    } else if m.pipes[from] {
    } else {
        lemma_close_from_inv(m, from + 1);
    }
}

/// Beginning stage `i` keeps the books in order, once the stages before it
/// are settled.
proof fn lemma_begin_stage_inv(m: Machine, i: int)
    requires
        shaped(m),
        !m.saved,
        0 <= i <= m.slots.len(),
        forall|j: int| 0 <= j < i ==> settled(#[trigger] m.slots[j]),
        forall|j: int| i <= j < m.slots.len() ==> #[trigger] m.slots[j] == fresh_slot(),
        m.pipes.len() == 0 || i > 0 || closed_below(m, 0),
    ensures
        inv(handing(m, crate::executor::begin_stage(m, i))),
{
    if i < m.launches.len() {
        assert(launching(handing(m, Action::Precreate(i as usize)), i as usize));
    } else {
        assert(all_settled(m));
        lemma_close_from_inv(m, 0);
    }
}

/// The books are in order before the first action.
pub proof fn lemma_start_inv(launches: Seq<Launch>)
    requires
        launches.len() <= usize::MAX,
    ensures
        inv(start(launches)),
{
}

/// The machine after one step is the books brought up to date, with the
/// next action handed out.
proof fn lemma_advance_shape(m: Machine, event: Event)
    requires
        inv(m),
    ensures
        advance(m, event) == handing(absorb(m, event), follow(absorb(m, event), event)),
        shaped(absorb(m, event)),
        absorb(m, event).launches == m.launches,
        absorb(m, event).pending == m.pending,
{
}

proof fn lemma_step_first(m: Machine, event: Event)
    requires
        inv(m),
        m.pending is None,
    ensures
        inv(advance(m, event)),
{
    let b = absorb(m, event);
    lemma_advance_shape(m, event);
    if m.pipes.len() == 0 {
        lemma_begin_stage_inv(b, 0);
    }
}

proof fn lemma_step_open_pipe(m: Machine, event: Event, k: usize)
    requires
        inv(m),
        m.pending == Some(Action::OpenPipe(k)),
    ensures
        inv(advance(m, event)),
{
    let b = absorb(m, event);
    lemma_advance_shape(m, event);
    if event != Event::Done {
        assert(all_settled(b));
    } else if k + 1 < m.pipes.len() {
    } else {
        lemma_begin_stage_inv(b, 0);
    }
}

proof fn lemma_step_precreate(m: Machine, event: Event, i: usize)
    requires
        inv(m),
        m.pending == Some(Action::Precreate(i)),
    ensures
        inv(advance(m, event)),
{
    let b = absorb(m, event);
    lemma_advance_shape(m, event);
    assert(b == m);
    match m.launches[i as int] {
        Launch::Nothing => {
            assert(settled(m.slots[i as int]));
            lemma_begin_stage_inv(b, i + 1);
        },
        Launch::BuiltinInShell => {
            assert(launching(advance(m, event), i));
        },
        Launch::BuiltinInChild => {
            assert(launching(advance(m, event), i));
        },
        Launch::External => {
            assert(launching(advance(m, event), i));
        },
    }
}

proof fn lemma_step_report(m: Machine, event: Event)
    requires
        inv(m),
        m.pending is Some,
        m.pending->0 is ReportNotFound || m.pending->0 is ReportFailure,
    ensures
        inv(advance(m, event)),
{
    let b = absorb(m, event);
    lemma_advance_shape(m, event);
    assert(b == m);
    lemma_close_from_inv(b, 0);
}

proof fn lemma_step_resolve(m: Machine, event: Event, i: usize)
    requires
        inv(m),
        m.pending == Some(Action::Resolve(i)),
    ensures
        inv(advance(m, event)),
{
    let b = absorb(m, event);
    lemma_advance_shape(m, event);
    assert(b == m);
    if event != Event::Done {
        assert(all_settled(b));
    } else {
        assert(launching(advance(m, event), i));
    }
}

proof fn lemma_step_open_capture(m: Machine, event: Event, i: usize)
    requires
        inv(m),
        m.pending == Some(Action::OpenCapture(i)),
    ensures
        inv(advance(m, event)),
{
    let b = absorb(m, event);
    lemma_advance_shape(m, event);
    if event == Event::Done {
        assert(launching(advance(m, event), i));
    } else {
        assert(all_settled(b));
    }
}

proof fn lemma_step_spawn(m: Machine, event: Event, i: usize)
    requires
        inv(m),
        m.pending == Some(Action::Spawn(i)),
    ensures
        inv(advance(m, event)),
{
    let b = absorb(m, event);
    lemma_advance_shape(m, event);
    if event == Event::Done {
        if is_external(b, i) {
            assert(launching(advance(m, event), i));
        } else {
            assert(settled(b.slots[i as int]));
            lemma_begin_stage_inv(b, i + 1);
        }
    } else if is_external(b, i) {
        assert(launching(advance(m, event), i));
    } else {
        assert(settled(b.slots[i as int]));
        assert(all_settled(b));
    }
}

proof fn lemma_step_launched(m: Machine, event: Event, i: usize)
    requires
        inv(m),
        m.pending == Some(Action::CloseCaptureWrite(i)) || m.pending == Some(
            Action::RestoreStreams(i),
        ),
    ensures
        inv(advance(m, event)),
{
    let b = absorb(m, event);
    lemma_advance_shape(m, event);
    assert(settled(b.slots[i as int]));
    lemma_begin_stage_inv(b, i + 1);
}

proof fn lemma_step_in_shell(m: Machine, event: Event, i: usize)
    requires
        inv(m),
        m.pending == Some(Action::SaveStreams(i)) || m.pending == Some(Action::RunInShell(i)),
    ensures
        inv(advance(m, event)),
{
    let b = absorb(m, event);
    lemma_advance_shape(m, event);
    if m.pending == Some(Action::SaveStreams(i)) && event != Event::Done {
        assert(all_settled(b));
    } else {
        assert(launching(advance(m, event), i));
    }
}

proof fn lemma_step_drop_capture(m: Machine, event: Event, i: usize)
    requires
        inv(m),
        m.pending == Some(Action::DropCapture(i)),
    ensures
        inv(advance(m, event)),
{
    let b = absorb(m, event);
    lemma_advance_shape(m, event);
    assert(settled(b.slots[i as int]));
    assert(all_settled(b));
}

proof fn lemma_step_close_pipe(m: Machine, event: Event, k: usize)
    requires
        inv(m),
        m.pending == Some(Action::ClosePipe(k)),
    ensures
        inv(advance(m, event)),
{
    let b = absorb(m, event);
    lemma_advance_shape(m, event);
    assert(all_settled(b));
    assert(closed_below(b, k + 1));
    lemma_close_from_inv(b, k + 1);
}

proof fn lemma_step_wait(m: Machine, event: Event, i: usize)
    requires
        inv(m),
        m.pending == Some(Action::Wait(i)),
    ensures
        inv(advance(m, event)),
{
    let b = absorb(m, event);
    lemma_advance_shape(m, event);
    assert(pipes_closed(b));
    assert(settled(m.slots[i as int]));
    assert forall|j: int| 0 <= j < i && j < b.slots.len() implies over(#[trigger] b.slots[j]) by {
        assert(over(m.slots[j]));
    }
    assert forall|j: int| i + 1 <= j < b.slots.len() implies settled(#[trigger] b.slots[j]) by {
        assert(settled(m.slots[j]));
    }
    if b.slots[i as int].capture_read {
    } else {
        assert(over(b.slots[i as int]));
        lemma_reap_from_inv(b, i + 1);
    }
}

proof fn lemma_step_drain(m: Machine, event: Event, i: usize)
    requires
        inv(m),
        m.pending == Some(Action::Drain(i)),
    ensures
        inv(advance(m, event)),
{
    let b = absorb(m, event);
    lemma_advance_shape(m, event);
    assert(pipes_closed(b));
    assert(over(b.slots[i as int]));
    assert forall|j: int| 0 <= j < i && j < b.slots.len() implies over(#[trigger] b.slots[j]) by {
        assert(over(m.slots[j]));
    }
    assert forall|j: int| i + 1 <= j < b.slots.len() implies settled(#[trigger] b.slots[j]) by {
        assert(settled(m.slots[j]));
    }
    lemma_reap_from_inv(b, i + 1);
}

/// Every step keeps the books in order.
pub proof fn lemma_advance_inv(m: Machine, event: Event)
    requires
        inv(m),
    ensures
        inv(advance(m, event)),
        advance(m, event).launches == m.launches,
{
    lemma_advance_shape(m, event);
    match m.pending {
        None => lemma_step_first(m, event),
        Some(Action::OpenPipe(k)) => lemma_step_open_pipe(m, event, k),
        Some(Action::Precreate(i)) => lemma_step_precreate(m, event, i),
        Some(Action::Resolve(i)) => lemma_step_resolve(m, event, i),
        Some(Action::ReportNotFound(_)) => lemma_step_report(m, event),
        Some(Action::OpenCapture(i)) => lemma_step_open_capture(m, event, i),
        Some(Action::Spawn(i)) => lemma_step_spawn(m, event, i),
        Some(Action::CloseCaptureWrite(i)) => lemma_step_launched(m, event, i),
        Some(Action::DropCapture(i)) => lemma_step_drop_capture(m, event, i),
        Some(Action::SaveStreams(i)) => lemma_step_in_shell(m, event, i),
        Some(Action::RunInShell(i)) => lemma_step_in_shell(m, event, i),
        Some(Action::RestoreStreams(i)) => lemma_step_launched(m, event, i),
        Some(Action::ReportFailure) => lemma_step_report(m, event),
        Some(Action::ClosePipe(k)) => lemma_step_close_pipe(m, event, k),
        Some(Action::Wait(i)) => lemma_step_wait(m, event, i),
        Some(Action::Drain(i)) => lemma_step_drain(m, event, i),
        Some(Action::Finish) => {},
    }
}

/// The machine after a whole sequence of answers.
pub open spec fn run(m: Machine, events: Seq<Event>) -> Machine
    decreases events.len(),
{
    if events.len() == 0 {
        m
    } else {
        advance(run(m, events.drop_last()), events.last())
    }
}

/// The books are in order at every point of every execution.
pub proof fn lemma_run_inv(launches: Seq<Launch>, events: Seq<Event>)
    requires
        launches.len() <= usize::MAX,
    ensures
        inv(run(start(launches), events)),
        run(start(launches), events).launches == launches,
        run(start(launches), events).slots.len() == launches.len(),
    decreases events.len(),
{
    if events.len() == 0 {
        lemma_start_inv(launches);
    } else {
        lemma_run_inv(launches, events.drop_last());
        lemma_advance_inv(run(start(launches), events.drop_last()), events.last());
    }
}

/// No descriptor leaks: when an execution is over, whatever was answered on
/// the way, the shell holds no pipe and no capture pipe open, as before the
/// execution began.
pub proof fn lemma_no_descriptor_leaks(launches: Seq<Launch>, events: Seq<Event>)
    requires
        launches.len() <= usize::MAX,
        run(start(launches), events).pending == Some(Action::Finish),
    ensures
        holds_nothing(start(launches)),
        holds_nothing(run(start(launches), events)),
{
    lemma_run_inv(launches, events);
    let m = run(start(launches), events);
    assert forall|j: int| 0 <= j < m.slots.len() implies !(#[trigger] m.slots[j]).capture_read
        && !m.slots[j].capture_write by {
        assert(over(m.slots[j]));
    }
}

/// How often the machine asked to wait for the child of stage `i`.
pub open spec fn waits_asked(m: Machine, events: Seq<Event>, i: usize) -> nat
    decreases events.len(),
{
    if events.len() == 0 {
        0
    } else {
        let asked: nat = if run(m, events).pending == Some(Action::Wait(i)) {
            1
        } else {
            0
        };
        waits_asked(m, events.drop_last(), i) + asked
    }
}

/// How often a child of stage `i` was started.
pub open spec fn children_started(m: Machine, events: Seq<Event>, i: usize) -> nat
    decreases events.len(),
{
    if events.len() == 0 {
        0
    } else {
        let started: nat = if run(m, events.drop_last()).pending == Some(Action::Spawn(i))
            && events.last() == Event::Done {
            1
        } else {
            0
        };
        children_started(m, events.drop_last(), i) + started
    }
}

/// At every point, a stage has had at most one child, which is absent from
/// the books exactly if it never started, and has been asked to be waited
/// for exactly if the books say so.
proof fn lemma_counts(launches: Seq<Launch>, events: Seq<Event>, i: usize)
    requires
        launches.len() <= usize::MAX,
        i < launches.len(),
    ensures
        children_started(start(launches), events, i) == (if run(
            start(launches),
            events,
        ).slots[i as int].child == ChildState::Absent {
            0nat
        } else {
            1nat
        }),
        waits_asked(start(launches), events, i) == (if run(
            start(launches),
            events,
        ).slots[i as int].child == ChildState::Reaped || run(start(launches), events).pending
            == Some(Action::Wait(i)) {
            1nat
        } else {
            0nat
        }),
    decreases events.len(),
{
    let m0 = start(launches);
    if events.len() > 0 {
        let before = run(m0, events.drop_last());
        let event = events.last();
        let after = run(m0, events);
        lemma_counts(launches, events.drop_last(), i);
        lemma_run_inv(launches, events.drop_last());
        lemma_run_inv(launches, events);
        let b = absorb(before, event);
        assert(after == handing(b, follow(b, event)));
        match before.pending {
            Some(Action::Wait(w)) => {
                if !b.slots[w as int].capture_read {
                    lemma_reap_from_kind(b, w + 1);
                    if reap_from(b, w + 1) is Wait {
                        let j = reap_from(b, w + 1)->Wait_0;
                        lemma_reap_from_finds_later(b, w + 1, j);
                    }
                }
            },
            Some(Action::Drain(w)) => {
                lemma_reap_from_kind(b, w + 1);
                if reap_from(b, w + 1) is Wait {
                    let j = reap_from(b, w + 1)->Wait_0;
                    lemma_reap_from_finds_later(b, w + 1, j);
                }
            },
            _ => {
                if after.pending == Some(Action::Wait(i)) {
                    assert(after.slots[i as int].child == ChildState::Running);
                }
            },
        }
    }
}

/// Every child is waited for exactly once: when an execution is over, no
/// child still runs, and for each stage the machine asked to wait as often
/// as a child of the stage was started, which is once or never.
pub proof fn lemma_waits_once_per_child(launches: Seq<Launch>, events: Seq<Event>, i: usize)
    requires
        launches.len() <= usize::MAX,
        i < launches.len(),
        run(start(launches), events).pending == Some(Action::Finish),
    ensures
        run(start(launches), events).slots[i as int].child != ChildState::Running,
        waits_asked(start(launches), events, i) == children_started(start(launches), events, i),
        children_started(start(launches), events, i) <= 1,
{
    lemma_run_inv(launches, events);
    lemma_counts(launches, events, i);
    let m = run(start(launches), events);
    assert(over(m.slots[i as int]));
}

/// How far an execution has come: a number that every step raises until the
/// execution is over.
pub open spec fn progress(m: Machine) -> int {
    let p = m.pipes.len() as int;
    let n = m.launches.len() as int;
    match m.pending {
        None => 0,
        Some(Action::OpenPipe(k)) => 1 + k,
        Some(Action::Precreate(i)) => 1 + p + 5 * i,
        Some(Action::Resolve(i)) => 2 + p + 5 * i,
        Some(Action::OpenCapture(i)) => 3 + p + 5 * i,
        Some(Action::Spawn(i)) => 4 + p + 5 * i,
        Some(Action::SaveStreams(i)) => 2 + p + 5 * i,
        Some(Action::RunInShell(i)) => 3 + p + 5 * i,
        Some(Action::RestoreStreams(i)) => 4 + p + 5 * i,
        Some(Action::CloseCaptureWrite(i)) => 5 + p + 5 * i,
        Some(Action::DropCapture(i)) => 5 + p + 5 * i,
        Some(Action::ReportNotFound(_)) => 1 + p + 5 * n,
        Some(Action::ReportFailure) => 1 + p + 5 * n,
        Some(Action::ClosePipe(k)) => 2 + p + 5 * n + k,
        Some(Action::Wait(i)) => 2 + 2 * p + 5 * n + 2 * i,
        Some(Action::Drain(i)) => 3 + 2 * p + 5 * n + 2 * i,
        Some(Action::Finish) => step_bound(m.launches),
    }
}

/// The number of steps within which every execution of these stages is over.
pub open spec fn step_bound(launches: Seq<Launch>) -> int {
    let n = launches.len() as int;
    let p = if n > 0 {
        n - 1
    } else {
        0
    };
    2 + 2 * p + 7 * n
}

proof fn lemma_reap_progress(m: Machine, from: int)
    requires
        shaped(m),
        0 <= from <= m.slots.len(),
    ensures
        progress(handing(m, reap_from(m, from))) >= 2 + 2 * m.pipes.len() + 5 * m.launches.len() + 2
            * from,
    decreases m.slots.len() - from,
{
    if from < m.slots.len() && m.slots[from].child != ChildState::Running {
        lemma_reap_progress(m, from + 1);
    }
}

proof fn lemma_close_progress(m: Machine, from: int)
    requires
        shaped(m),
        0 <= from <= m.pipes.len(),
    ensures
        progress(handing(m, close_from(m, from))) >= 2 + m.pipes.len() + 5 * m.launches.len()
            + from,
    decreases m.pipes.len() - from,
{
    if from >= m.pipes.len() {
        lemma_reap_progress(m, 0);
    } else if !m.pipes[from] {
        lemma_close_progress(m, from + 1);
    }
}

proof fn lemma_begin_progress(m: Machine, i: int)
    requires
        shaped(m),
        0 <= i <= m.launches.len(),
    ensures
        progress(handing(m, crate::executor::begin_stage(m, i))) >= 1 + m.pipes.len() + 5 * i,
{
    if i >= m.launches.len() {
        lemma_close_progress(m, 0);
    }
}

/// Every step of an execution that is not over brings it further.
pub proof fn lemma_step_progress(m: Machine, event: Event)
    requires
        inv(m),
        m.pending != Some(Action::Finish),
    ensures
        progress(advance(m, event)) > progress(m),
{
    let b = absorb(m, event);
    lemma_advance_shape(m, event);
    match m.pending {
        None => {
            lemma_begin_progress(b, 0);
        },
        Some(Action::OpenPipe(k)) => {
            lemma_begin_progress(b, 0);
        },
        Some(Action::Precreate(i)) => {
            lemma_begin_progress(b, i + 1);
        },
        Some(Action::Resolve(i)) => {},
        Some(Action::ReportNotFound(_)) => {
            lemma_close_progress(b, 0);
        },
        Some(Action::OpenCapture(i)) => {},
        Some(Action::Spawn(i)) => {
            lemma_begin_progress(b, i + 1);
        },
        Some(Action::CloseCaptureWrite(i)) => {
            lemma_begin_progress(b, i + 1);
        },
        Some(Action::DropCapture(i)) => {},
        Some(Action::SaveStreams(i)) => {},
        Some(Action::RunInShell(i)) => {},
        Some(Action::RestoreStreams(i)) => {
            lemma_begin_progress(b, i + 1);
        },
        Some(Action::ReportFailure) => {
            lemma_close_progress(b, 0);
        },
        Some(Action::ClosePipe(k)) => {
            lemma_close_progress(b, k + 1);
        },
        Some(Action::Wait(i)) => {
            lemma_reap_progress(b, i + 1);
        },
        Some(Action::Drain(i)) => {
            lemma_reap_progress(b, i + 1);
        },
        Some(Action::Finish) => {},
    }
}

/// No execution has come further than the bound.
proof fn lemma_progress_bounded(m: Machine)
    requires
        inv(m),
    ensures
        progress(m) <= step_bound(m.launches),
        m.pending != Some(Action::Finish) ==> progress(m) < step_bound(m.launches),
{
}

proof fn lemma_run_progress(launches: Seq<Launch>, events: Seq<Event>)
    requires
        launches.len() <= usize::MAX,
    ensures
        run(start(launches), events).pending == Some(Action::Finish) || progress(
            run(start(launches), events),
        ) >= events.len(),
    decreases events.len(),
{
    if events.len() > 0 {
        let before = run(start(launches), events.drop_last());
        lemma_run_progress(launches, events.drop_last());
        lemma_run_inv(launches, events.drop_last());
        if before.pending != Some(Action::Finish) {
            lemma_step_progress(before, events.last());
        }
    }
}

/// Every execution ends: whatever is answered, after as many steps as the
/// bound says nothing is left to do.
pub proof fn lemma_execution_ends(launches: Seq<Launch>, events: Seq<Event>)
    requires
        launches.len() <= usize::MAX,
        events.len() >= step_bound(launches),
    ensures
        run(start(launches), events).pending == Some(Action::Finish),
{
    lemma_run_progress(launches, events);
    lemma_run_inv(launches, events);
    lemma_progress_bounded(run(start(launches), events));
}

} // verus!
