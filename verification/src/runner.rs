//! How a task is run from start to end: what has to be done next after each thing that happened.

use vstd::prelude::*;

use crate::moon::{
    byte_views, device_replies, respond_to_device_queries, run_args, run_command, MsgView,
    OutputMsg,
};
use crate::runs::{target_name, target_of};
use crate::text::texts;

verus! {

/// How far a run has come.
#[derive(Clone, Copy, Debug, PartialEq, Eq, Structural)]
pub enum Stage {
    /// The terminal is being opened.
    Opening,
    /// The process is being started.
    Spawning,
    /// The process is running.
    Waiting,
    /// The process has ended with that code; its last output is being read.
    Draining(i32),
    Ended,
}

/// What happened.
#[derive(Clone, Copy, Debug)]
pub enum RunEvent {
    /// The terminal was opened, or could not be.
    Opened(bool),
    /// The process was started, with that id, or could not be.
    Spawned(Option<u32>),
    /// The process ended, with its exit code where it has one; or there is no knowing.
    Exited(Option<Option<i32>>),
    /// The time for the last output is over.
    Drained,
}

/// What has to be done next.
#[derive(Debug)]
pub enum RunCommand {
    Nothing,
    /// Open a terminal of that size.
    OpenPty { rows: u16, cols: u16 },
    /// Start Moon with those arguments.
    Spawn { args: Vec<String> },
    /// Record the process, forward its output, and wait for its end. The readers are not waited
    /// for: processes that the task has left behind may hold its pipes open.
    Watch { pid: u32 },
    /// Record that there is no process any more, give the readers that long to read the last
    /// output, and stop them.
    Drain { millis: u64 },
    /// Report the exit code.
    Finish { code: Option<i32> },
}

/// What a `RunCommand` holds.
pub ghost enum CommandView {
    Nothing,
    OpenPty { rows: u16, cols: u16 },
    Spawn { args: Seq<Seq<char>> },
    Watch { pid: u32 },
    Drain { millis: u64 },
    Finish { code: Option<i32> },
}

impl View for RunCommand {
    type V = CommandView;

    open spec fn view(&self) -> CommandView {
        match *self {
            RunCommand::Nothing => CommandView::Nothing,
            RunCommand::OpenPty { rows, cols } => CommandView::OpenPty { rows, cols },
            RunCommand::Spawn { args } => CommandView::Spawn { args: texts(args@) },
            RunCommand::Watch { pid } => CommandView::Watch { pid },
            RunCommand::Drain { millis } => CommandView::Drain { millis },
            RunCommand::Finish { code } => CommandView::Finish { code },
        }
    }
}

/// A run of a task.
#[derive(Debug)]
pub struct TaskRun {
    pub target: String,
    pub force: bool,
    pub stage: Stage,
}

/// What a `TaskRun` holds.
pub ghost struct TaskRunView {
    pub target: Seq<char>,
    pub force: bool,
    pub stage: Stage,
}

impl View for TaskRun {
    type V = TaskRunView;

    open spec fn view(&self) -> TaskRunView {
        TaskRunView { target: self.target@, force: self.force, stage: self.stage }
    }
}

/// How long the readers have for the last output, in milliseconds.
pub const DRAIN_MILLIS: u64 = 100;

impl TaskRunView {
    /// A run of which the process is to be started.
    pub open spec fn piped(target: Seq<char>, force: bool) -> TaskRunView {
        TaskRunView { target, force, stage: Stage::Spawning }
    }

    /// A run of which the terminal is to be opened.
    pub open spec fn interactive(target: Seq<char>, force: bool) -> TaskRunView {
        TaskRunView { target, force, stage: Stage::Opening }
    }

    /// At that stage.
    pub open spec fn at(self, stage: Stage) -> TaskRunView {
        TaskRunView { stage, ..self }
    }

    /// The command that starts the process.
    pub open spec fn spawn(self) -> CommandView {
        CommandView::Spawn { args: run_command(self.target, self.force) }
    }

    /// What comes of `event`, and what has to be done then. What cannot be opened, started or
    /// waited for ends the run without an exit code. An event that does not belong to the stage
    /// changes nothing.
    pub open spec fn after(self, event: RunEvent) -> (TaskRunView, CommandView) {
        let failed = (self.at(Stage::Ended), CommandView::Finish { code: None });
        match (self.stage, event) {
            (Stage::Opening, RunEvent::Opened(true)) => (self.at(Stage::Spawning), self.spawn()),
            (Stage::Opening, RunEvent::Opened(false)) => failed,
            (Stage::Spawning, RunEvent::Spawned(Some(pid))) => (
                self.at(Stage::Waiting),
                CommandView::Watch { pid },
            ),
            (Stage::Spawning, RunEvent::Spawned(None)) => failed,
            (Stage::Waiting, RunEvent::Exited(Some(Some(code)))) => (
                self.at(Stage::Draining(code)),
                CommandView::Drain { millis: DRAIN_MILLIS },
            ),
            (Stage::Waiting, RunEvent::Exited(Some(None))) => (
                self.at(Stage::Draining(-1i32)),
                CommandView::Drain { millis: DRAIN_MILLIS },
            ),
            (Stage::Waiting, RunEvent::Exited(None)) => failed,
            (Stage::Draining(code), RunEvent::Drained) => (
                self.at(Stage::Ended),
                CommandView::Finish { code: Some(code) },
            ),
            _ => (self, CommandView::Nothing),
        }
    }
}

/// Begins to run `moon run <project>:<task>` and to stream its output line by line. When `force`
/// is true, Moon is told to skip its cache.
pub fn run_task(project_id: &str, task_id: &str, force: bool) -> (r: (TaskRun, RunCommand))
    ensures
        r.0@ == TaskRunView::piped(target_of(project_id@, task_id@), force),
        r.1@ == r.0@.spawn(),
{
    let target = target_name(project_id, task_id);
    let args = run_args(target.as_str(), force);
    (TaskRun { target, force, stage: Stage::Spawning }, RunCommand::Spawn { args })
}

/// Begins to run `moon run <project>:<task>` in a PTY for true interactive use. The child sees a
/// real terminal, so colors and prompts work. When `force` is true, Moon is told to skip its cache.
pub fn run_task_interactive(
    project_id: &str,
    task_id: &str,
    force: bool,
    rows: u16,
    cols: u16,
) -> (r: (TaskRun, RunCommand))
    ensures
        r.0@ == TaskRunView::interactive(target_of(project_id@, task_id@), force),
        r.1@ == (CommandView::OpenPty { rows, cols }),
{
    let target = target_name(project_id, task_id);
    (TaskRun { target, force, stage: Stage::Opening }, RunCommand::OpenPty { rows, cols })
}

impl TaskRun {
    /// Takes in what happened. Gives what has to be done then.
    pub fn next(&mut self, event: RunEvent) -> (command: RunCommand)
        ensures
            (final(self)@, command@) == old(self)@.after(event),
    {
        match (self.stage, event) {
            (Stage::Opening, RunEvent::Opened(true)) => {
                self.stage = Stage::Spawning;
                RunCommand::Spawn { args: run_args(self.target.as_str(), self.force) }
            },
            (Stage::Spawning, RunEvent::Spawned(Some(pid))) => {
                self.stage = Stage::Waiting;
                RunCommand::Watch { pid }
            },
            (Stage::Waiting, RunEvent::Exited(Some(code))) => {
                self.stage = Stage::Draining(code.unwrap_or(-1));
                RunCommand::Drain { millis: DRAIN_MILLIS }
            },
            (Stage::Opening, RunEvent::Opened(false)) | (
                Stage::Spawning,
                RunEvent::Spawned(None),
            ) | (Stage::Waiting, RunEvent::Exited(None)) => {
                self.stage = Stage::Ended;
                RunCommand::Finish { code: None }
            },
            (Stage::Draining(code), RunEvent::Drained) => {
                self.stage = Stage::Ended;
                RunCommand::Finish { code: Some(code) }
            },
            _ => RunCommand::Nothing,
        }
    }
}

// Reading from the terminal of a task.

/// What to do after a read from the terminal.
#[derive(Debug)]
pub enum ReadStep {
    /// Read again.
    Retry,
    /// Stop reading.
    Stop,
    /// Write the replies to the terminal, hand the message on, and read again.
    Forward { replies: Vec<Vec<u8>>, message: OutputMsg },
}

/// What a `ReadStep` holds.
pub ghost enum ReadStepView {
    Retry,
    Stop,
    Forward { replies: Seq<Seq<u8>>, message: MsgView },
}

impl View for ReadStep {
    type V = ReadStepView;

    open spec fn view(&self) -> ReadStepView {
        match *self {
            ReadStep::Retry => ReadStepView::Retry,
            ReadStep::Stop => ReadStepView::Stop,
            ReadStep::Forward { replies, message } => ReadStepView::Forward {
                replies: byte_views(replies@),
                message: message@,
            },
        }
    }
}

/// What to do after a read that gave `n`, where `buf` begins with the bytes that were read: a
/// read that was interrupted is tried again, an error or the end stops reading.
pub open spec fn read_step(n: int, interrupted: bool, buf: Seq<u8>) -> ReadStepView {
    if n < 0 && interrupted {
        ReadStepView::Retry
    } else if n <= 0 {
        ReadStepView::Stop
    } else {
        ReadStepView::Forward {
            replies: device_replies(buf.take(n)),
            message: MsgView::PtyOutput(buf.take(n)),
        }
    }
}

/// What to do after a read from the terminal that gave `n`.
pub fn after_read(n: isize, interrupted: bool, buf: &[u8]) -> (step: ReadStep)
    requires
        n <= buf.len(),
    ensures
        step@ == read_step(n as int, interrupted, buf@),
{
    if n < 0 && interrupted {
        return ReadStep::Retry;
    }
    if n <= 0 {
        return ReadStep::Stop;
    }
    let raw = vstd::slice::slice_subrange(buf, 0, n as usize);
    assert(raw@ == buf@.take(n as int));
    let replies = respond_to_device_queries(raw);
    let mut bytes: Vec<u8> = Vec::new();
    for i in 0..raw.len()
        invariant
            bytes@ == raw@.take(i as int),
    {
        bytes.push(raw[i]);
    }
    assert(raw@.take(raw.len() as int) == raw@);
    ReadStep::Forward { replies, message: OutputMsg::PtyOutput(bytes) }
}

// Laws.

/// The code that is reported for a process that has ended: -1 where it has none.
pub open spec fn reported(code: Option<i32>) -> i32 {
    match code {
        Some(n) => n,
        None => -1i32,
    }
}

/// A run that is started and ends reports the exit code of its process, with `--force` handed on
/// as it was asked for.
pub proof fn law_piped_run_reports_its_code(
    target: Seq<char>,
    force: bool,
    pid: u32,
    code: Option<i32>,
)
    ensures
        ({
            let run = TaskRunView::piped(target, force);
            let (waiting, watch) = run.after(RunEvent::Spawned(Some(pid)));
            let (draining, drain) = waiting.after(RunEvent::Exited(Some(code)));
            let (ended, finish) = draining.after(RunEvent::Drained);
            &&& run.spawn() == (CommandView::Spawn { args: run_command(target, force) })
            &&& watch == (CommandView::Watch { pid })
            &&& drain == (CommandView::Drain { millis: DRAIN_MILLIS })
            &&& finish == (CommandView::Finish { code: Some(reported(code)) })
        }),
{
}

/// An interactive run opens its terminal before it starts the process, and from there on goes as
/// a piped run does, with `--force` where that was asked for.
pub proof fn law_interactive_run_opens_first(target: Seq<char>, force: bool)
    ensures
        TaskRunView::interactive(target, force).after(RunEvent::Opened(true)) == (
            TaskRunView::piped(target, force),
            TaskRunView::piped(target, force).spawn(),
        ),
        forall|pid: Option<u32>|
            (#[trigger] TaskRunView::interactive(target, force).after(RunEvent::Spawned(pid))).1
                is Nothing,
{
}

/// A run that has ended stays as it is, and asks for nothing more.
pub proof fn law_ended_run_is_over(run: TaskRunView, event: RunEvent)
    requires
        run.stage == Stage::Ended,
    ensures
        run.after(event) == (run, CommandView::Nothing),
{
}

/// An exit code is reported only for a process that has ended, and the run is over then.
pub proof fn law_code_comes_from_the_process(run: TaskRunView, event: RunEvent)
    ensures
        run.after(event).1 matches CommandView::Finish { code } ==> run.after(event).0.stage
            == Stage::Ended && (code matches Some(n) ==> run.stage == Stage::Draining(n)),
        run.after(event).0.stage is Draining && !(run.stage is Draining) ==> run.stage
            == Stage::Waiting && event is Exited,
{
}

/// Whether what happened belongs to the stage that a run is at.
pub open spec fn expected(stage: Stage, event: RunEvent) -> bool {
    match stage {
        Stage::Opening => event is Opened,
        Stage::Spawning => event is Spawned,
        Stage::Waiting => event is Exited,
        Stage::Draining(_) => event is Drained,
        Stage::Ended => false,
    }
}

/// What does not belong to the stage of a run changes nothing and asks for nothing.
pub proof fn law_unexpected_events_change_nothing(run: TaskRunView, event: RunEvent)
    requires
        !expected(run.stage, event),
    ensures
        run.after(event).0 == run,
        run.after(event).1 is Nothing,
{
}

/// A terminal that is open has its process started. A process that has started is watched. One
/// that has ended has a tenth of a second for its last output, and is then reported with its exit
/// code; with -1 where it has none.
pub proof fn law_each_stage_leads_to_the_next(run: TaskRunView, pid: u32, code: i32)
    ensures
        run.stage == Stage::Opening ==> {
            let (next, command) = run.after(RunEvent::Opened(true));
            &&& next == (TaskRunView { stage: Stage::Spawning, ..run })
            &&& command == (CommandView::Spawn { args: run_command(run.target, run.force) })
        },
        run.stage == Stage::Spawning ==> {
            let (next, command) = run.after(RunEvent::Spawned(Some(pid)));
            &&& next == (TaskRunView { stage: Stage::Waiting, ..run })
            &&& command == (CommandView::Watch { pid })
        },
        run.stage == Stage::Waiting ==> {
            let (next, command) = run.after(RunEvent::Exited(Some(Some(code))));
            let (signalled, drain) = run.after(RunEvent::Exited(Some(None)));
            &&& next == (TaskRunView { stage: Stage::Draining(code), ..run })
            &&& command == (CommandView::Drain { millis: 100 })
            &&& signalled == (TaskRunView { stage: Stage::Draining(-1i32), ..run })
            &&& drain == (CommandView::Drain { millis: 100 })
        },
        run.stage == Stage::Draining(code) ==> {
            let (next, command) = run.after(RunEvent::Drained);
            &&& next == (TaskRunView { stage: Stage::Ended, ..run })
            &&& command == (CommandView::Finish { code: Some(code) })
        },
{
}

/// What fails ends the run, and no exit code is reported.
pub proof fn law_failures_end_the_run(run: TaskRunView)
    ensures
        ({
            let over = (TaskRunView { stage: Stage::Ended, ..run }, CommandView::Finish {
                code: None,
            });
            &&& run.stage == Stage::Opening ==> run.after(RunEvent::Opened(false)) == over
            &&& run.stage == Stage::Spawning ==> run.after(RunEvent::Spawned(None)) == over
            &&& run.stage == Stage::Waiting ==> run.after(RunEvent::Exited(None)) == over
        }),
{
}

/// A piped run begins with its process, an interactive one with its terminal; both run the task
/// with the cache or without it as was asked.
pub proof fn law_how_runs_begin(target: Seq<char>, force: bool)
    ensures
        TaskRunView::piped(target, force) == (TaskRunView {
            target,
            force,
            stage: Stage::Spawning,
        }),
        TaskRunView::interactive(target, force) == (TaskRunView {
            target,
            force,
            stage: Stage::Opening,
        }),
        TaskRunView::piped(target, force).spawn() == (CommandView::Spawn {
            args: run_command(target, force),
        }),
{
}

/// A read that gave bytes hands on just those bytes, with the replies to what they ask. One that
/// was interrupted is tried again. The end, or any other error, stops reading.
pub proof fn law_reads(n: int, interrupted: bool, buf: Seq<u8>)
    requires
        n <= buf.len(),
    ensures
        n > 0 ==> read_step(n, interrupted, buf) == (ReadStepView::Forward {
            replies: device_replies(buf.subrange(0, n)),
            message: MsgView::PtyOutput(buf.subrange(0, n)),
        }),
        n == 0 ==> read_step(n, interrupted, buf) is Stop,
        n < 0 && interrupted ==> read_step(n, interrupted, buf) is Retry,
        n < 0 && !interrupted ==> read_step(n, interrupted, buf) is Stop,
{
}

} // verus!
