//! The execution of a planned pipeline, as seen from the shell process.
//!
//! The shell cannot create a pipe, start a child or wait for one without the
//! operating system, so the execution is a machine: it hands out one action
//! at a time, the caller performs it and reports how it went, and the machine
//! decides what comes next. The machine keeps the books on every descriptor
//! it had opened and every child it had started, and closes and waits for all
//! of them on every path, also after a failure.

use vstd::prelude::*;
use crate::pipeline::{plan_of, plan_pipeline, plan_view, Launch, StagePlan};
use crate::redirect::SyntaxError;

verus! {

/// How the last action went.
#[derive(Clone, Copy, PartialEq, Eq, Debug, Structural)]
pub enum Event {
    /// The action was carried out. For `Resolve`: the command was found.
    Done,
    /// The action could not be carried out. For `Resolve`: no such command.
    Failed,
}

/// What the caller is asked to do next. Stages and pipes are named by their
/// index in the plan; pipe `k` joins stage `k` to stage `k + 1`.
#[derive(Clone, Copy, PartialEq, Eq, Debug, Structural)]
pub enum Action {
    /// Create pipe `k`.
    OpenPipe(usize),
    /// Create the targets of the redirections of stage `i`, in their order.
    Precreate(usize),
    /// Look the command of stage `i` up.
    Resolve(usize),
    /// Print `<command>: command not found` for stage `i` on standard output.
    ReportNotFound(usize),
    /// Create the pipe that captures the messages of stage `i`.
    OpenCapture(usize),
    /// Start the child of stage `i`, wired as the plan says.
    Spawn(usize),
    /// Close the shell's copy of the write end of the capture pipe of stage `i`.
    CloseCaptureWrite(usize),
    /// Close both ends of the capture pipe of stage `i`, whose child never started.
    DropCapture(usize),
    /// Keep copies of the shell's three standard descriptors, for the builtin
    /// of stage `i` that is about to run in the shell.
    SaveStreams(usize),
    /// Put the streams of stage `i` in place of the standard descriptors and
    /// run its builtin in the shell.
    RunInShell(usize),
    /// Put the kept copies back in place of the standard descriptors and
    /// close them.
    RestoreStreams(usize),
    /// Print `fork failed` on standard error.
    ReportFailure,
    /// Close both ends of pipe `k` in the shell.
    ClosePipe(usize),
    /// Wait for the child of stage `i`.
    Wait(usize),
    /// Relay what the child of stage `i` wrote to its capture pipe, then
    /// close the read end.
    Drain(usize),
    /// Nothing is left to do.
    Finish,
}

/// What became of the child of a stage.
#[derive(Clone, Copy, PartialEq, Eq, Debug, Structural)]
pub enum ChildState {
    /// No child was started.
    Absent,
    /// The child was started and has not been waited for.
    Running,
    /// The child has been waited for.
    Reaped,
}

/// The books on one stage: its child, and which ends of its capture pipe
/// the shell holds open.
#[derive(Clone, Copy, PartialEq, Eq, Debug, Structural)]
pub struct Slot {
    pub child: ChildState,
    pub capture_read: bool,
    pub capture_write: bool,
}

/// The machine as a value of the model: how each stage is launched, which
/// pipes the shell holds open, the books on each stage, whether the shell
/// holds copies of its standard descriptors, and the action that was handed
/// out last.
#[verifier::ext_equal]
pub struct Machine {
    pub launches: Seq<Launch>,
    pub pipes: Seq<bool>,
    pub slots: Seq<Slot>,
    pub saved: bool,
    pub pending: Option<Action>,
}

/// The books on a stage that nothing has happened to.
pub open spec fn fresh_slot() -> Slot {
    Slot { child: ChildState::Absent, capture_read: false, capture_write: false }
}

/// The machine before its first action: one pipe fewer than stages, nothing
/// open, nothing started.
pub open spec fn start(launches: Seq<Launch>) -> Machine {
    Machine {
        launches,
        pipes: Seq::new(
            if launches.len() > 0 {
                (launches.len() - 1) as nat
            } else {
                0
            },
            |k: int| false,
        ),
        slots: Seq::new(launches.len(), |i: int| fresh_slot()),
        saved: false,
        pending: None,
    }
}

/// The books with slot `i` replaced, where there is such a slot.
pub open spec fn with_slot(m: Machine, i: usize, slot: Slot) -> Machine {
    if i < m.slots.len() {
        Machine { slots: m.slots.update(i as int, slot), ..m }
    } else {
        m
    }
}

/// The books with pipe `k` marked, where there is such a pipe.
pub open spec fn with_pipe(m: Machine, k: usize, open: bool) -> Machine {
    if k < m.pipes.len() {
        Machine { pipes: m.pipes.update(k as int, open), ..m }
    } else {
        m
    }
}

/// The books on stage `i`, or fresh ones where there is no such stage.
pub open spec fn slot_of(m: Machine, i: usize) -> Slot {
    if i < m.slots.len() {
        m.slots[i as int]
    } else {
        fresh_slot()
    }
}

/// The books after the pending action went as `event` says.
pub open spec fn absorb(m: Machine, event: Event) -> Machine {
    match m.pending {
        Some(Action::OpenPipe(k)) => if event == Event::Done {
            with_pipe(m, k, true)
        } else {
            m
        },
        Some(Action::ClosePipe(k)) => with_pipe(m, k, false),
        Some(Action::OpenCapture(i)) => if event == Event::Done {
            with_slot(m, i, Slot { capture_read: true, capture_write: true, ..slot_of(m, i) })
        } else {
            m
        },
        Some(Action::Spawn(i)) => if event == Event::Done {
            with_slot(m, i, Slot { child: ChildState::Running, ..slot_of(m, i) })
        } else {
            m
        },
        Some(Action::CloseCaptureWrite(i)) => with_slot(
            m,
            i,
            Slot { capture_write: false, ..slot_of(m, i) },
        ),
        Some(Action::DropCapture(i)) => with_slot(
            m,
            i,
            Slot { capture_read: false, capture_write: false, ..slot_of(m, i) },
        ),
        Some(Action::Wait(i)) => with_slot(m, i, Slot { child: ChildState::Reaped, ..slot_of(m, i) }),
        Some(Action::Drain(i)) => with_slot(m, i, Slot { capture_read: false, ..slot_of(m, i) }),
        Some(Action::SaveStreams(_)) => if event == Event::Done {
            Machine { saved: true, ..m }
        } else {
            m
        },
        Some(Action::RestoreStreams(_)) => Machine { saved: false, ..m },
        _ => m,
    }
}

/// The first child at or after stage `from` that still runs is waited for;
/// when there is none, the execution is over.
pub open spec fn reap_from(m: Machine, from: int) -> Action
    decreases m.slots.len() - from,
{
    if from < 0 || from >= m.slots.len() {
        Action::Finish
    } else if m.slots[from].child == ChildState::Running {
        Action::Wait(from as usize)
    } else {
        reap_from(m, from + 1)
    }
}

/// The first pipe at or after `from` that is open is closed; when there is
/// none, the children are waited for.
pub open spec fn close_from(m: Machine, from: int) -> Action
    decreases m.pipes.len() - from,
{
    if from < 0 || from >= m.pipes.len() {
        reap_from(m, 0)
    } else if m.pipes[from] {
        Action::ClosePipe(from as usize)
    } else {
        close_from(m, from + 1)
    }
}

/// Stage `i` is begun by creating its redirection targets; after the last
/// stage, the pipes are closed.
pub open spec fn begin_stage(m: Machine, i: int) -> Action {
    if 0 <= i < m.launches.len() {
        Action::Precreate(i as usize)
    } else {
        close_from(m, 0)
    }
}

/// How stage `i` is launched once its targets exist. Only a command that
/// stands alone is looked up first, so that the shell can say that it was
/// not found; in a pipeline the child looks it up.
pub open spec fn launch_stage(m: Machine, i: usize) -> Action {
    if i < m.launches.len() {
        match m.launches[i as int] {
            Launch::Nothing => begin_stage(m, i + 1),
            Launch::BuiltinInShell => Action::SaveStreams(i),
            Launch::BuiltinInChild => Action::Spawn(i),
            Launch::External => if m.launches.len() == 1 {
                Action::Resolve(i)
            } else {
                Action::OpenCapture(i)
            },
        }
    } else {
        close_from(m, 0)
    }
}

/// Whether stage `i` is an external command.
pub open spec fn is_external(m: Machine, i: usize) -> bool {
    i < m.launches.len() && m.launches[i as int] == Launch::External
}

/// The action after the pending one, given the books as they now stand and
/// how the pending one went. Any failure to create a pipe, to copy a
/// descriptor or to start a child is reported once, and then all that was
/// opened is closed and all that was started is waited for.
pub open spec fn follow(m: Machine, event: Event) -> Action {
    match m.pending {
        None => if m.pipes.len() > 0 {
            Action::OpenPipe(0)
        } else {
            begin_stage(m, 0)
        },
        Some(Action::OpenPipe(k)) => if event != Event::Done {
            Action::ReportFailure
        } else if k < m.pipes.len() && k + 1 < m.pipes.len() {
            Action::OpenPipe((k + 1) as usize)
        } else {
            begin_stage(m, 0)
        },
        Some(Action::Precreate(i)) => launch_stage(m, i),
        Some(Action::Resolve(i)) => if event == Event::Done {
            Action::OpenCapture(i)
        } else {
            Action::ReportNotFound(i)
        },
        Some(Action::ReportNotFound(_)) => close_from(m, 0),
        Some(Action::OpenCapture(i)) => if event == Event::Done {
            Action::Spawn(i)
        } else {
            Action::ReportFailure
        },
        Some(Action::Spawn(i)) => if event == Event::Done {
            if is_external(m, i) {
                Action::CloseCaptureWrite(i)
            } else {
                begin_stage(m, i + 1)
            }
        } else if is_external(m, i) {
            Action::DropCapture(i)
        } else {
            Action::ReportFailure
        },
        Some(Action::CloseCaptureWrite(i)) => begin_stage(m, i + 1),
        Some(Action::DropCapture(_)) => Action::ReportFailure,
        Some(Action::SaveStreams(i)) => if event == Event::Done {
            Action::RunInShell(i)
        } else {
            Action::ReportFailure
        },
        Some(Action::RunInShell(i)) => Action::RestoreStreams(i),
        Some(Action::RestoreStreams(i)) => begin_stage(m, i + 1),
        Some(Action::ReportFailure) => close_from(m, 0),
        Some(Action::ClosePipe(k)) => close_from(m, k + 1),
        Some(Action::Wait(i)) => if slot_of(m, i).capture_read {
            Action::Drain(i)
        } else {
            reap_from(m, i + 1)
        },
        Some(Action::Drain(i)) => reap_from(m, i + 1),
        Some(Action::Finish) => Action::Finish,
    }
}

/// The machine after the pending action went as `event` says: the books are
/// brought up to date and the next action is handed out. Before the first
/// action the event is not read.
pub open spec fn advance(m: Machine, event: Event) -> Machine {
    let booked = absorb(m, event);
    Machine { pending: Some(follow(booked, event)), ..booked }
}

/// The execution of one command line.
#[derive(Debug)]
pub struct Execution {
    plan: Vec<StagePlan>,
    pipes: Vec<bool>,
    slots: Vec<Slot>,
    saved: bool,
    pending: Option<Action>,
}

/// How each stage of a plan is launched.
pub open spec fn launches_of(plan: Seq<StagePlan>) -> Seq<Launch> {
    Seq::new(plan.len(), |i: int| plan[i].launch)
}

impl View for Execution {
    type V = Machine;

    closed spec fn view(&self) -> Machine {
        Machine {
            launches: launches_of(self.plan@),
            pipes: self.pipes@,
            slots: self.slots@,
            saved: self.saved,
            pending: self.pending,
        }
    }
}

impl Execution {
    /// The stages that are executed.
    pub closed spec fn stages(&self) -> Seq<StagePlan> {
        self.plan@
    }

    /// The execution of `plan`, before its first action.
    pub fn new(plan: Vec<StagePlan>) -> (execution: Execution)
        ensures
            execution@ == start(launches_of(plan@)),
            execution.stages() == plan@,
    {
        let count = plan.len();
        let mut pipes: Vec<bool> = Vec::new();
        let mut slots: Vec<Slot> = Vec::new();
        let mut i: usize = 0;
        while i < count
            invariant
                0 <= i <= count,
                slots@.len() == i,
                pipes@.len() == (if i > 0 { i - 1 } else { 0 }),
                forall|j: int| 0 <= j < slots@.len() ==> slots@[j] == fresh_slot(),
                forall|j: int| 0 <= j < pipes@.len() ==> pipes@[j] == false,
            decreases count - i,
        {
            if i > 0 {
                pipes.push(false);
            }
            slots.push(Slot { child: ChildState::Absent, capture_read: false, capture_write: false });
            i += 1;
        }
        let execution = Execution { plan, pipes, slots, saved: false, pending: None };
        assert(execution@.pipes =~= start(launches_of(plan@)).pipes);
        assert(execution@.slots =~= start(launches_of(plan@)).slots);
        execution
    }

    /// The number of stages.
    pub fn stage_count(&self) -> (count: usize)
        ensures
            count == self.stages().len(),
    {
        self.plan.len()
    }

    /// The plan of stage `i`, if there is such a stage.
    pub fn stage(&self, i: usize) -> (stage: Option<&StagePlan>)
        ensures
            stage == (if i < self.stages().len() {
                Some(&self.stages()[i as int])
            } else {
                None
            }),
    {
        if i < self.plan.len() {
            Some(&self.plan[i])
        } else {
            None
        }
    }

    /// The action that was handed out last, if any.
    pub fn pending(&self) -> (action: Option<Action>)
        ensures
            action == self@.pending,
    {
        self.pending
    }

    /// Whether nothing is left to do.
    pub fn is_finished(&self) -> (done: bool)
        ensures
            done == (self@.pending == Some(Action::Finish)),
    {
        match self.pending {
            Some(Action::Finish) => true,
            _ => false,
        }
    }

    fn reap_from(&self, from: usize) -> (action: Action)
        ensures
            action == reap_from(self@, from as int),
    {
        let mut i: usize = from;
        while i < self.slots.len()
            invariant
                from <= i,
                reap_from(self@, i as int) == reap_from(self@, from as int),
            decreases self.slots.len() - i,
        {
            match self.slots[i].child {
                ChildState::Running => {
                    return Action::Wait(i);
                },
                _ => {},
            }
            i += 1;
        }
        Action::Finish
    }

    fn close_from(&self, from: usize) -> (action: Action)
        ensures
            action == close_from(self@, from as int),
    {
        let mut k: usize = from;
        while k < self.pipes.len()
            invariant
                from <= k,
                close_from(self@, k as int) == close_from(self@, from as int),
            decreases self.pipes.len() - k,
        {
            if self.pipes[k] {
                return Action::ClosePipe(k);
            }
            k += 1;
        }
        self.reap_from(0)
    }

    fn begin_stage(&self, i: usize) -> (action: Action)
        ensures
            action == begin_stage(self@, i as int),
    {
        if i < self.plan.len() {
            Action::Precreate(i)
        } else {
            self.close_from(0)
        }
    }

    fn begin_after(&self, i: usize) -> (action: Action)
        ensures
            action == begin_stage(self@, i + 1),
    {
        if i < self.plan.len() {
            self.begin_stage(i + 1)
        } else {
            self.close_from(0)
        }
    }

    fn launch_stage(&self, i: usize) -> (action: Action)
        ensures
            action == launch_stage(self@, i),
    {
        if i < self.plan.len() {
            match self.plan[i].launch {
                Launch::Nothing => self.begin_stage(i + 1),
                Launch::BuiltinInShell => Action::SaveStreams(i),
                Launch::BuiltinInChild => Action::Spawn(i),
                Launch::External => if self.plan.len() == 1 {
                    Action::Resolve(i)
                } else {
                    Action::OpenCapture(i)
                },
            }
        } else {
            self.close_from(0)
        }
    }

    fn is_external(&self, i: usize) -> (b: bool)
        ensures
            b == is_external(self@, i),
    {
        if i < self.plan.len() {
            match self.plan[i].launch {
                Launch::External => true,
                _ => false,
            }
        } else {
            false
        }
    }

    fn slot_of(&self, i: usize) -> (slot: Slot)
        ensures
            slot == slot_of(self@, i),
    {
        if i < self.slots.len() {
            self.slots[i]
        } else {
            Slot { child: ChildState::Absent, capture_read: false, capture_write: false }
        }
    }

    fn with_slot(self, i: usize, slot: Slot) -> (next: Execution)
        ensures
            next@ == with_slot(self@, i, slot),
            next.stages() == self.stages(),
    {
        let Execution { plan, pipes, mut slots, saved, pending } = self;
        if i < slots.len() {
            slots.set(i, slot);
        }
        Execution { plan, pipes, slots, saved, pending }
    }

    fn with_pipe(self, k: usize, open: bool) -> (next: Execution)
        ensures
            next@ == with_pipe(self@, k, open),
            next.stages() == self.stages(),
    {
        let Execution { plan, mut pipes, slots, saved, pending } = self;
        if k < pipes.len() {
            pipes.set(k, open);
        }
        Execution { plan, pipes, slots, saved, pending }
    }

    fn absorb(self, event: Event) -> (next: Execution)
        ensures
            next@ == absorb(self@, event),
            next.stages() == self.stages(),
    {
        let done = match event {
            Event::Done => true,
            Event::Failed => false,
        };
        match self.pending {
            Some(Action::OpenPipe(k)) => if done {
                self.with_pipe(k, true)
            } else {
                self
            },
            Some(Action::ClosePipe(k)) => self.with_pipe(k, false),
            Some(Action::OpenCapture(i)) => if done {
                let slot = self.slot_of(i);
                self.with_slot(i, Slot { capture_read: true, capture_write: true, ..slot })
            } else {
                self
            },
            Some(Action::Spawn(i)) => if done {
                let slot = self.slot_of(i);
                self.with_slot(i, Slot { child: ChildState::Running, ..slot })
            } else {
                self
            },
            Some(Action::CloseCaptureWrite(i)) => {
                let slot = self.slot_of(i);
                self.with_slot(i, Slot { capture_write: false, ..slot })
            },
            Some(Action::DropCapture(i)) => {
                let slot = self.slot_of(i);
                self.with_slot(i, Slot { capture_read: false, capture_write: false, ..slot })
            },
            Some(Action::Wait(i)) => {
                let slot = self.slot_of(i);
                self.with_slot(i, Slot { child: ChildState::Reaped, ..slot })
            },
            Some(Action::Drain(i)) => {
                let slot = self.slot_of(i);
                self.with_slot(i, Slot { capture_read: false, ..slot })
            },
            Some(Action::SaveStreams(_)) => if done {
                self.with_saved(true)
            } else {
                self
            },
            Some(Action::RestoreStreams(_)) => self.with_saved(false),
            _ => self,
        }
    }

    fn with_saved(self, saved: bool) -> (next: Execution)
        ensures
            next@ == (Machine { saved, ..self@ }),
            next.stages() == self.stages(),
    {
        let Execution { plan, pipes, slots, saved: _, pending } = self;
        Execution { plan, pipes, slots, saved, pending }
    }

    fn follow(&self, event: Event) -> (action: Action)
        ensures
            action == follow(self@, event),
    {
        let done = match event {
            Event::Done => true,
            Event::Failed => false,
        };
        match self.pending {
            None => if self.pipes.len() > 0 {
                Action::OpenPipe(0)
            } else {
                self.begin_stage(0)
            },
            Some(Action::OpenPipe(k)) => if !done {
                Action::ReportFailure
            } else if k < self.pipes.len() && k + 1 < self.pipes.len() {
                Action::OpenPipe(k + 1)
            } else {
                self.begin_stage(0)
            },
            Some(Action::Precreate(i)) => self.launch_stage(i),
            Some(Action::Resolve(i)) => if done {
                Action::OpenCapture(i)
            } else {
                Action::ReportNotFound(i)
            },
            Some(Action::ReportNotFound(_)) => self.close_from(0),
            Some(Action::OpenCapture(i)) => if done {
                Action::Spawn(i)
            } else {
                Action::ReportFailure
            },
            Some(Action::Spawn(i)) => if done {
                if self.is_external(i) {
                    Action::CloseCaptureWrite(i)
                } else {
                    self.begin_after(i)
                }
            } else if self.is_external(i) {
                Action::DropCapture(i)
            } else {
                Action::ReportFailure
            },
            Some(Action::CloseCaptureWrite(i)) => self.begin_after(i),
            Some(Action::DropCapture(_)) => Action::ReportFailure,
            Some(Action::SaveStreams(i)) => if done {
                Action::RunInShell(i)
            } else {
                Action::ReportFailure
            },
            Some(Action::RunInShell(i)) => Action::RestoreStreams(i),
            Some(Action::RestoreStreams(i)) => self.begin_after(i),
            Some(Action::ReportFailure) => self.close_from(0),
            Some(Action::ClosePipe(k)) => if k < self.pipes.len() {
                self.close_from(k + 1)
            } else {
                self.reap_from(0)
            },
            Some(Action::Wait(i)) => if self.slot_of(i).capture_read {
                Action::Drain(i)
            } else if i < self.slots.len() {
                self.reap_from(i + 1)
            } else {
                Action::Finish
            },
            Some(Action::Drain(i)) => if i < self.slots.len() {
                self.reap_from(i + 1)
            } else {
                Action::Finish
            },
            Some(Action::Finish) => Action::Finish,
        }
    }

    /// Takes in how the pending action went and hands out the next one.
    /// The first call starts the execution; its event is not read.
    pub fn step(self, event: Event) -> (next: (Execution, Action))
        ensures
            next.0@ == advance(self@, event),
            next.0@.pending == Some(next.1),
            next.0.stages() == self.stages(),
    {
        let booked = self.absorb(event);
        let action = booked.follow(event);
        let Execution { plan, pipes, slots, saved, pending: _ } = booked;
        (Execution { plan, pipes, slots, saved, pending: Some(action) }, action)
    }
}

/// Begins the execution of a command line: the line is planned, and the
/// machine that will carry the plan out is returned, before its first
/// action. A line that cannot be planned gives its syntax error.
pub fn execute_pipeline(input: &str) -> (result: Result<Execution, SyntaxError>)
    ensures
        match plan_of(input@) {
            Ok(plan) => result is Ok && plan_view(result->Ok_0.stages()) == plan
                && result->Ok_0@ == start(launches_of(result->Ok_0.stages())),
            Err(e) => result == Err::<Execution, SyntaxError>(e),
        },
{
    match plan_pipeline(input) {
        Ok(plan) => Ok(Execution::new(plan)),
        Err(e) => Err(e),
    }
}

} // verus!
