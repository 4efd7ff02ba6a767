//! The state of the application and what each action does to it.

use std::time::Instant;

use vstd::prelude::*;

use crate::moon::{
    project_views, task_views, OutputMsg, Project, ProjectView, Task, TaskView,
};
use crate::output::{
    can_poll, emulator_can_take, emulator_view, msg_views, no_run, polled, RunView, TaskState,
    MAX_OUTPUT_LINES,
};
use crate::text::texts;

verus! {

#[derive(Debug, Clone, Copy, PartialEq, Eq, Structural)]
pub enum Panel {
    Projects,
    Tasks,
}

#[derive(Debug, Clone, Copy, PartialEq, Eq, Structural)]
pub enum Mode {
    Normal,
    Output,
}

#[derive(Debug, Clone)]
pub enum Action {
    Quit,
    Refresh,
    NavLeft,
    NavRight,
    MoveDown,
    MoveUp,
    JumpTop,
    JumpBottom,
    HalfPageDown,
    HalfPageUp,
    Enter,
    Back,
    ToggleHelp,
    RunAll,
    ForceRun,
    InteractiveRun,
    TaskInfo,
    Reattach,
    Nothing,
}

// Time.

/// A point in time.
#[verifier::external_type_specification]
#[verifier::external_body]
pub struct ExInstant(std::time::Instant);

/// The whole seconds in a span of time.
pub uninterp spec fn whole_seconds(span: std::time::Duration) -> u64;

/// `Instant::now` gives the time of the call, of which nothing is said.
pub assume_specification[ std::time::Instant::now ]() -> std::time::Instant;

/// `Instant::elapsed` gives the time that has passed until the call, of which nothing is said.
pub assume_specification[ std::time::Instant::elapsed ](
    when: &std::time::Instant,
) -> std::time::Duration;

/// `Duration::as_secs` gives the whole seconds, without the rest.
pub assume_specification[ std::time::Duration::as_secs ](span: &std::time::Duration) -> (seconds:
    u64)
    ensures
        seconds == whole_seconds(*span),
;

// The state.

/// The state of the application. The channels that a run is connected by are held by its caller;
/// what stands here is whether there is one.
pub struct App {
    pub running: bool,
    pub panel: Panel,
    pub mode: Mode,
    pub projects: Vec<Project>,
    pub tasks: Vec<Task>,
    pub project_index: usize,
    pub task_index: usize,
    pub status_message: Option<(String, std::time::Instant)>,
    pub g_pressed: bool,
    pub show_help: bool,
    pub show_task_info: bool,
    pub loading_tasks: bool,
    // Output view.
    pub output_lines: Vec<String>,
    pub output_scroll: usize,
    pub output_follow: bool,
    pub output_target: String,
    pub output_finished: bool,
    pub output_exit_code: Option<i32>,
    /// Height (in rows) of the visible output pane, updated on every render.
    pub output_visible_height: usize,
    /// Whether a channel streams task output.
    pub line_rx: bool,
    /// Whether the exit code of the running task is awaited.
    pub exit_code_rx: bool,
    /// Whether input is forwarded to an interactive task's stdin.
    pub stdin_tx: bool,
    /// Terminal emulator for interactive (PTY) task output.
    pub vt: Option<vt100::Parser>,
    /// Lines at the start of `output_lines` that have scrolled off the visible screen of the
    /// emulator. They are kept so that earlier output is not lost when a program takes over the
    /// screen.
    pub pty_scrollback_len: usize,
    pub was_alternate_screen: bool,
    /// Whether the answer to a query for tasks is awaited.
    pub task_rx: bool,
    /// Whether the answer to a query for projects is awaited.
    pub project_rx: bool,
    /// PID of the currently running child process (0 = none).
    pub child_pid: u32,
    /// Size of the terminal, columns first, where it is known.
    pub terminal_size: Option<(u16, u16)>,
    /// Tasks that were detached while still running, with their "project:task".
    pub background_tasks: Vec<(String, TaskState)>,
}

/// A run in the background, with its target.
pub ghost struct DetachedView {
    pub target: Seq<char>,
    pub run: RunView,
}

/// What an `App` holds.
pub ghost struct AppView {
    pub running: bool,
    pub panel: Panel,
    pub mode: Mode,
    pub projects: Seq<ProjectView>,
    pub tasks: Seq<TaskView>,
    pub project_index: int,
    pub task_index: int,
    /// The status message, and when it was set.
    pub status: Option<(Seq<char>, Instant)>,
    pub g_pressed: bool,
    pub show_help: bool,
    pub show_task_info: bool,
    pub loading_tasks: bool,
    /// The "project:task" of the run in the foreground; empty before the first run.
    pub target: Seq<char>,
    /// The run in the foreground.
    pub run: RunView,
    pub visible_height: int,
    pub task_rx: bool,
    pub project_rx: bool,
    pub terminal_size: Option<(u16, u16)>,
    /// The runs in the background.
    pub background: Seq<DetachedView>,
}

/// What the runs in the background hold.
pub open spec fn detached_views(runs: Seq<(String, TaskState)>) -> Seq<DetachedView> {
    runs.map_values(|r: (String, TaskState)| DetachedView { target: r.0@, run: r.1@ })
}

/// A status message, and when it was set.
pub open spec fn status_view(status: Option<(String, Instant)>) -> Option<(Seq<char>, Instant)> {
    match status {
        Some(s) => Some((s.0@, s.1)),
        None => None,
    }
}

impl App {
    /// The run in the foreground.
    pub open spec fn run(&self) -> RunView {
        RunView {
            lines: texts(self.output_lines@),
            scroll: self.output_scroll as int,
            follow: self.output_follow,
            finished: self.output_finished,
            exit_code: self.output_exit_code,
            listening: self.line_rx,
            awaiting: self.exit_code_rx,
            interactive: self.stdin_tx,
            emulator: emulator_view(self.vt),
            scrollback: self.pty_scrollback_len as int,
            alternate: self.was_alternate_screen,
            child_pid: self.child_pid,
        }
    }
}

impl View for App {
    type V = AppView;

    open spec fn view(&self) -> AppView {
        AppView {
            running: self.running,
            panel: self.panel,
            mode: self.mode,
            projects: project_views(self.projects@),
            tasks: task_views(self.tasks@),
            project_index: self.project_index as int,
            task_index: self.task_index as int,
            status: status_view(self.status_message),
            g_pressed: self.g_pressed,
            show_help: self.show_help,
            show_task_info: self.show_task_info,
            loading_tasks: self.loading_tasks,
            target: self.output_target@,
            run: self.run(),
            visible_height: self.output_visible_height as int,
            task_rx: self.task_rx,
            project_rx: self.project_rx,
            terminal_size: self.terminal_size,
            background: detached_views(self.background_tasks@),
        }
    }
}

impl AppView {
    /// What holds of every state: the runs are valid, those in the background are not finished,
    /// and no target occurs twice.
    pub open spec fn valid(self) -> bool {
        &&& self.run.valid()
        &&& self.run.lines.len() <= MAX_OUTPUT_LINES
        &&& forall|i: int|
            0 <= i < self.background.len() ==> {
                &&& (#[trigger] self.background[i]).run.valid()
                &&& self.background[i].run.lines.len() <= MAX_OUTPUT_LINES
                &&& !self.background[i].run.finished
                &&& self.background[i].target != self.target
            }
        &&& forall|i: int, j: int|
            0 <= i < j < self.background.len() ==> (#[trigger] self.background[i]).target != (
            #[trigger] self.background[j]).target
    }

    /// The project that is selected, where there is one.
    pub open spec fn selected_project(self) -> Option<ProjectView> {
        if 0 <= self.project_index < self.projects.len() {
            Some(self.projects[self.project_index])
        } else {
            None
        }
    }

    /// The task that is selected, where there is one.
    pub open spec fn selected_task(self) -> Option<TaskView> {
        if 0 <= self.task_index < self.tasks.len() {
            Some(self.tasks[self.task_index])
        } else {
            None
        }
    }

    /// How many items the list of the active panel has.
    pub open spec fn list_len(self) -> int {
        match self.panel {
            Panel::Projects => self.projects.len() as int,
            Panel::Tasks => self.tasks.len() as int,
        }
    }

    /// Whether the run in the foreground goes on.
    pub open spec fn is_running_task(self) -> bool {
        self.run.listening && !self.run.finished
    }

    /// With that status, set at that time.
    pub open spec fn with_status(self, text: Seq<char>, when: Instant) -> AppView {
        AppView { status: Some((text, when)), ..self }
    }
}

/// What is left of a run once it has been taken out of the foreground.
pub open spec fn emptied(run: RunView) -> RunView {
    RunView {
        lines: seq![],
        listening: false,
        awaiting: false,
        interactive: false,
        emulator: None,
        ..run
    }
}

/// The state at the start.
pub open spec fn at_start() -> AppView {
    AppView {
        running: true,
        panel: Panel::Projects,
        mode: Mode::Normal,
        projects: seq![],
        tasks: seq![],
        project_index: 0,
        task_index: 0,
        status: None,
        g_pressed: false,
        show_help: false,
        show_task_info: false,
        loading_tasks: false,
        target: seq![],
        run: no_run(),
        visible_height: 0,
        task_rx: false,
        project_rx: false,
        terminal_size: None,
        background: seq![],
    }
}

/// The status that shows when it is that many seconds old.
pub open spec fn status_at_age(
    status: Option<(Seq<char>, Instant)>,
    seconds: int,
) -> Option<Seq<char>> {
    match status {
        Some((text, _)) => if seconds < 5 {
            Some(text)
        } else {
            None
        },
        None => None,
    }
}

/// The text of a string slice, where there is one.
pub open spec fn optional_text(s: Option<&str>) -> Option<Seq<char>> {
    match s {
        Some(t) => Some(t@),
        None => None,
    }
}

/// Two states are the same where each part of them is.
pub(crate) proof fn lemma_same(a: AppView, b: AppView)
    requires
        a.running == b.running,
        a.panel == b.panel,
        a.mode == b.mode,
        a.projects == b.projects,
        a.tasks == b.tasks,
        a.project_index == b.project_index,
        a.task_index == b.task_index,
        a.status == b.status,
        a.g_pressed == b.g_pressed,
        a.show_help == b.show_help,
        a.show_task_info == b.show_task_info,
        a.loading_tasks == b.loading_tasks,
        a.target == b.target,
        a.run == b.run,
        a.visible_height == b.visible_height,
        a.task_rx == b.task_rx,
        a.project_rx == b.project_rx,
        a.terminal_size == b.terminal_size,
        a.background == b.background,
    ensures
        a == b,
{
}

pub(crate) proof fn lemma_valid_with_run(app: AppView, run: RunView)
    requires
        app.valid(),
        run.valid(),
        run.lines.len() <= MAX_OUTPUT_LINES,
    ensures
        (AppView { run, ..app }).valid(),
{
}

impl App {
    pub fn new() -> (app: App)
        ensures
            app@ == at_start(),
            app@.valid(),
    {
        let app = App {
            running: true,
            panel: Panel::Projects,
            mode: Mode::Normal,
            projects: Vec::new(),
            tasks: Vec::new(),
            project_index: 0,
            task_index: 0,
            status_message: None,
            g_pressed: false,
            show_help: false,
            show_task_info: false,
            loading_tasks: false,
            output_lines: Vec::new(),
            output_scroll: 0,
            output_follow: true,
            output_target: String::new(),
            output_finished: false,
            output_exit_code: None,
            output_visible_height: 0,
            line_rx: false,
            exit_code_rx: false,
            stdin_tx: false,
            vt: None,
            pty_scrollback_len: 0,
            was_alternate_screen: false,
            task_rx: false,
            project_rx: false,
            child_pid: 0,
            terminal_size: None,
            background_tasks: Vec::new(),
        };
        assert(app@.projects == at_start().projects);
        assert(app@.tasks == at_start().tasks);
        assert(app@.target == at_start().target);
        assert(app@.run.lines == no_run().lines);
        assert(app@.background == at_start().background);
        app
    }

    /// Shows `msg` in the status bar for the next seconds.
    pub fn set_status(&mut self, msg: String)
        ensures
            exists|when: Instant| final(self)@ == #[trigger] old(self)@.with_status(msg@, when),
    {
        self.set_status_at(msg, Instant::now());
    }

    /// Shows `msg` in the status bar for the seconds after `when`.
    pub fn set_status_at(&mut self, msg: String, when: Instant)
        ensures
            final(self)@ == old(self)@.with_status(msg@, when),
            final(self).status_message == Some((msg, when)),
    {
        self.status_message = Some((msg, when));
    }

    /// How old the status message is, in whole seconds, where there is one.
    pub fn status_seconds(&self) -> (seconds: Option<u64>)
        ensures
            seconds is Some == self@.status is Some,
    {
        match &self.status_message {
            Some((_, when)) => {
                let age = when.elapsed();
                Some(age.as_secs())
            },
            None => None,
        }
    }

    /// The status message, where it is less than five seconds old.
    pub fn status_text(&self) -> (text: Option<&str>)
        ensures
            exists|seconds: u64|
                optional_text(text) == #[trigger] status_at_age(self@.status, seconds as int),
    {
        match self.status_seconds() {
            Some(seconds) => self.status_text_after(seconds),
            None => self.status_text_after(0),
        }
    }

    /// The status message as it shows when it is that many whole seconds old.
    pub fn status_text_after(&self, seconds: u64) -> (text: Option<&str>)
        ensures
            optional_text(text) == status_at_age(self@.status, seconds as int),
    {
        match &self.status_message {
            Some((msg, _)) => {
                if seconds < 5 {
                    Some(msg.as_str())
                } else {
                    None
                }
            },
            None => None,
        }
    }

    /// The project that is selected, where there is one.
    pub fn selected_project(&self) -> (project: Option<&Project>)
        ensures
            project is Some == self@.selected_project() is Some,
            project is Some ==> project->0@ == self@.selected_project()->0,
    {
        if self.project_index < self.projects.len() {
            Some(&self.projects[self.project_index])
        } else {
            None
        }
    }

    /// The task that is selected, where there is one.
    pub fn selected_task(&self) -> (task: Option<&Task>)
        ensures
            task is Some == self@.selected_task() is Some,
            task is Some ==> task->0@ == self@.selected_task()->0,
    {
        if self.task_index < self.tasks.len() {
            Some(&self.tasks[self.task_index])
        } else {
            None
        }
    }

    /// How many items the list of the active panel has.
    pub fn list_len(&self) -> (n: usize)
        ensures
            n == self@.list_len(),
    {
        match self.panel {
            Panel::Projects => self.projects.len(),
            Panel::Tasks => self.tasks.len(),
        }
    }

    /// Whether the run in the foreground goes on.
    pub fn is_running_task(&self) -> (b: bool)
        ensures
            b == self@.is_running_task(),
    {
        self.line_rx && !self.output_finished
    }

    /// Takes the run out of the foreground: its output, its channels and its emulator.
    pub(crate) fn take_run(&mut self) -> (state: TaskState)
        ensures
            state@ == old(self)@.run,
            final(self)@ == (AppView { run: emptied(old(self)@.run), ..old(self)@ }),
            final(self).status_message == old(self).status_message,
    {
        let ghost before = self@;
        let mut output_lines: Vec<String> = Vec::new();
        std::mem::swap(&mut output_lines, &mut self.output_lines);
        let state = TaskState {
            output_lines,
            output_scroll: self.output_scroll,
            output_follow: self.output_follow,
            output_finished: self.output_finished,
            output_exit_code: self.output_exit_code,
            line_rx: self.line_rx,
            exit_code_rx: self.exit_code_rx,
            stdin_tx: self.stdin_tx,
            vt: self.vt.take(),
            pty_scrollback_len: self.pty_scrollback_len,
            was_alternate_screen: self.was_alternate_screen,
            child_pid: self.child_pid,
        };
        self.line_rx = false;
        self.exit_code_rx = false;
        self.stdin_tx = false;
        proof {
            let after = self@;
            assert(after.run.lines == Seq::<Seq<char>>::empty());
            lemma_same(after, AppView { run: emptied(before.run), ..before });
        }
        state
    }

    /// Makes `state` the run in the foreground.
    #[verifier::rlimit(60)]
    pub(crate) fn put_run(&mut self, state: TaskState)
        ensures
            final(self)@ == (AppView { run: state@, ..old(self)@ }),
            final(self).status_message == old(self).status_message,
    {
        let ghost before = self@;
        let ghost run = state@;
        self.output_lines = state.output_lines;
        self.output_scroll = state.output_scroll;
        self.output_follow = state.output_follow;
        self.output_finished = state.output_finished;
        self.output_exit_code = state.output_exit_code;
        self.line_rx = state.line_rx;
        self.exit_code_rx = state.exit_code_rx;
        self.stdin_tx = state.stdin_tx;
        self.vt = state.vt;
        self.pty_scrollback_len = state.pty_scrollback_len;
        self.was_alternate_screen = state.was_alternate_screen;
        self.child_pid = state.child_pid;
        proof {
            let after = self@;
            lemma_same(after, AppView { run, ..before });
        }
    }

    /// Whether `poll_output` can take in the messages.
    pub fn can_poll_output(&self, msgs: &Vec<OutputMsg>) -> (ok: bool)
        ensures
            ok == can_poll(self@.run, msg_views(msgs@)),
    {
        match &self.vt {
            Some(vt) => !self.line_rx || emulator_can_take(vt, msgs),
            None => true,
        }
    }

    /// Takes in pending output.
    ///
    /// This is for output mode, and for transitions into it: in normal mode messages are left
    /// where they are.
    pub fn poll_output(&mut self, msgs: Vec<OutputMsg>)
        requires
            old(self)@.valid(),
            can_poll(old(self)@.run, msg_views(msgs@)),
            msgs.len() <= isize::MAX,
        ensures
            final(self)@ == (AppView {
                run: polled(old(self)@.run, msg_views(msgs@)),
                ..old(self)@
            }),
            final(self)@.valid(),
            final(self).status_message == old(self).status_message,
    {
        let ghost before = self@;
        let mut run = self.take_run();
        run.poll(msgs);
        proof {
            lemma_valid_with_run(before, run@);
        }
        self.put_run(run);
    }
}

// Laws.

/// At the start the application runs, with the list of projects active; nothing is listed, nothing
/// runs, and nothing is said.
pub proof fn law_start()
    ensures
        ({
            let app = at_start();
            &&& app.running && app.panel == Panel::Projects && app.mode == Mode::Normal
            &&& app.projects.len() == 0 && app.tasks.len() == 0
            &&& app.project_index == 0 && app.task_index == 0
            &&& app.status is None
            &&& !app.g_pressed && !app.show_help && !app.show_task_info && !app.loading_tasks
            &&& app.target.len() == 0
            &&& app.run.lines.len() == 0 && app.run.follow && app.run.scroll == 0
            &&& !app.run.finished && !app.run.listening && !app.run.awaiting
            &&& !app.run.interactive && app.run.emulator is None && app.run.child_pid == 0
            &&& app.visible_height == 0
            &&& !app.task_rx && !app.project_rx
            &&& app.terminal_size is None
            &&& app.background.len() == 0
        }),
{
}

/// A message shows for less than five seconds.
pub proof fn law_status_fades(text: Seq<char>, when: Instant, seconds: int)
    ensures
        seconds < 5 ==> status_at_age(Some((text, when)), seconds) == Some(text),
        seconds >= 5 ==> status_at_age(Some((text, when)), seconds) is None,
        status_at_age(None, seconds) is None,
{
}

/// Setting the status changes nothing else.
pub proof fn law_status_is_set(app: AppView, text: Seq<char>, when: Instant)
    ensures
        app.with_status(text, when) == (AppView { status: Some((text, when)), ..app }),
{
}

/// The selection is the item at its place in the list, where the list reaches so far.
pub proof fn law_selected_items(app: AppView)
    ensures
        0 <= app.project_index < app.projects.len() ==> app.selected_project() == Some(
            app.projects[app.project_index],
        ),
        app.project_index >= app.projects.len() ==> app.selected_project() is None,
        0 <= app.task_index < app.tasks.len() ==> app.selected_task() == Some(
            app.tasks[app.task_index],
        ),
        app.task_index >= app.tasks.len() ==> app.selected_task() is None,
        app.panel == Panel::Projects ==> app.list_len() == app.projects.len(),
        app.panel == Panel::Tasks ==> app.list_len() == app.tasks.len(),
{
}

/// A task runs from when it is listened to until it has finished.
pub proof fn law_running(app: AppView)
    ensures
        app.is_running_task() <==> app.run.listening && !app.run.finished,
{
}

} // verus!
