//! What the user can ask for, and what each action does to the state.

use std::time::Instant;

use vstd::prelude::*;
use vstd::string::StringExecFns;

use crate::app::{lemma_same, Action, App, AppView, DetachedView, Mode, Panel};
use crate::output::{interactive_run, minus, piped_run, RunView, MAX_OUTPUT_LINES};
use crate::runs::{lemma_place_of, target_name, target_of, Effect, EffectView};

verus! {

impl AppView {
    /// The selection in the list of the active panel.
    pub open spec fn index(self) -> int {
        match self.panel {
            Panel::Projects => self.project_index,
            Panel::Tasks => self.task_index,
        }
    }

    /// With the selection of the active panel at that place.
    pub open spec fn with_index(self, index: int) -> AppView {
        match self.panel {
            Panel::Projects => AppView { project_index: index, ..self },
            Panel::Tasks => AppView { task_index: index, ..self },
        }
    }

    /// Where the selection goes.
    pub open spec fn moved(self, action: Action) -> AppView {
        let len = self.list_len();
        let index = self.index();
        match action {
            Action::MoveDown => if index < len - 1 {
                self.with_index(index + 1)
            } else {
                self
            },
            Action::MoveUp => self.with_index(minus(index, 1)),
            Action::JumpTop => self.with_index(0),
            Action::JumpBottom => if len > 0 {
                self.with_index(len - 1)
            } else {
                self
            },
            Action::HalfPageDown => if len > 0 {
                self.with_index(
                    if index + 10 < len - 1 {
                        index + 10
                    } else {
                        len - 1
                    },
                )
            } else {
                self
            },
            Action::HalfPageUp => self.with_index(minus(index, 10)),
            _ => self,
        }
    }

    /// After the user asks to run the selected task. A task that is interactive is run in a
    /// terminal.
    pub open spec fn selected_run(self, force: bool, when: Instant) -> (AppView, EffectView) {
        match (self.selected_project(), self.selected_task()) {
            (Some(p), Some(t)) => if t.interactive {
                self.terminal_run(p.id, t.id, force, when)
            } else {
                self.task_run(p.id, t.id, force, when)
            },
            _ => (self, EffectView::Nothing),
        }
    }

    /// After the user asks to run the task `ci` of the selected project.
    pub open spec fn ci_run(self, force: bool, when: Instant) -> (AppView, EffectView) {
        match self.selected_project() {
            Some(p) => self.task_run(p.id, "ci"@, force, when),
            None => (self, EffectView::Nothing),
        }
    }

    /// After the user asks to run the selected task in a terminal.
    pub open spec fn selected_terminal_run(self, when: Instant) -> (AppView, EffectView) {
        match (self.selected_project(), self.selected_task()) {
            (Some(p), Some(t)) => self.terminal_run(p.id, t.id, false, when),
            _ => (self, EffectView::Nothing),
        }
    }

    /// With the other view or panel that a simple action leads to.
    pub open spec fn navigated(self, action: Action, when: Instant) -> AppView {
        match action {
            Action::Quit => if self.mode == Mode::Output {
                AppView { mode: Mode::Normal, ..self }
            } else {
                AppView { running: false, ..self }
            },
            Action::Back => if self.mode == Mode::Output {
                AppView { mode: Mode::Normal, ..self }
            } else {
                AppView { panel: Panel::Projects, ..self }
            },
            Action::Refresh => self.with_status("Refreshing..."@, when),
            Action::NavLeft => AppView { panel: Panel::Projects, ..self },
            Action::NavRight => if self.tasks.len() > 0 {
                AppView { panel: Panel::Tasks, ..self }
            } else {
                self
            },
            Action::TaskInfo => if self.panel == Panel::Tasks && self.tasks.len() > 0 {
                AppView { show_task_info: !self.show_task_info, ..self }
            } else {
                self
            },
            Action::ToggleHelp => AppView { show_help: !self.show_help, ..self },
            _ => self,
        }
    }

    /// Whether an action starts a task in a terminal: one that is not running, in the list of
    /// tasks.
    pub open spec fn opens_terminal(self, action: Action) -> bool {
        match (self.selected_project(), self.selected_task()) {
            (Some(p), Some(t)) => self.panel == Panel::Tasks && !self.is_live(
                target_of(p.id, t.id),
            ) && match action {
                Action::InteractiveRun => true,
                Action::Enter | Action::ForceRun => t.interactive,
                _ => false,
            },
            _ => false,
        }
    }

    /// Whether an action sets the status: a refresh does, and asking to run a task that is
    /// selected.
    pub open spec fn sets_status(self, action: Action) -> bool {
        let project = self.selected_project() is Some;
        let task = project && self.selected_task() is Some;
        match action {
            Action::Refresh => true,
            Action::Enter | Action::InteractiveRun => self.panel == Panel::Tasks && task,
            Action::ForceRun => if self.panel == Panel::Tasks {
                task
            } else {
                project
            },
            Action::RunAll => project,
            _ => false,
        }
    }

    /// After an action at that time, and what the caller then has to do.
    pub open spec fn step(self, action: Action, when: Instant) -> (AppView, EffectView) {
        match action {
            Action::Enter => match self.panel {
                Panel::Projects => if self.tasks.len() > 0 {
                    (
                        AppView { panel: Panel::Tasks, task_index: 0, ..self },
                        EffectView::Nothing,
                    )
                } else {
                    (self, EffectView::Nothing)
                },
                Panel::Tasks => self.selected_run(false, when),
            },
            Action::RunAll => self.ci_run(false, when),
            Action::ForceRun => match self.panel {
                Panel::Tasks => self.selected_run(true, when),
                Panel::Projects => self.ci_run(true, when),
            },
            Action::InteractiveRun => match self.panel {
                Panel::Tasks => self.selected_terminal_run(when),
                Panel::Projects => (self, EffectView::Nothing),
            },
            Action::Reattach => if self.is_running_task() || self.run.lines.len() > 0 {
                (self.attached(), EffectView::Drain)
            } else {
                (self, EffectView::Nothing)
            },
            Action::MoveDown | Action::MoveUp | Action::JumpTop | Action::JumpBottom
            | Action::HalfPageDown | Action::HalfPageUp => (
                self.moved(action),
                EffectView::Nothing,
            ),
            _ => (self.navigated(action, when), EffectView::Nothing),
        }
    }
}

pub(crate) proof fn lemma_reattached_valid(app: AppView, target: Seq<char>, when: Instant)
    requires
        app.valid(),
    ensures
        app.reattached(target, when) is Some ==> app.reattached(target, when)->0.valid(),
{
    lemma_place_of(app.background, target);
}

pub(crate) proof fn lemma_started_valid(app: AppView, target: Seq<char>, run: RunView)
    requires
        app.valid(),
        !app.is_live(target),
        run.valid(),
        run.lines.len() <= MAX_OUTPUT_LINES,
    ensures
        app.started(target, run).valid(),
{
    lemma_place_of(app.background, target);
}

pub(crate) proof fn lemma_runs_valid(
    app: AppView,
    project_id: Seq<char>,
    task_id: Seq<char>,
    force: bool,
    when: Instant,
)
    requires
        app.valid(),
    ensures
        app.task_run(project_id, task_id, force, when).0.valid(),
        app.terminal_run(project_id, task_id, force, when).0.valid(),
{
    let target = target_of(project_id, task_id);
    lemma_reattached_valid(app, target, when);
    if !app.is_live(target) {
        lemma_started_valid(app, target, piped_run());
        let (rows, cols) = app.pane_size();
        lemma_started_valid(app, target, interactive_run(rows, cols));
    }
}

/// Every action keeps the state valid: runs in the background are not finished, and no target
/// runs twice.
pub proof fn law_step_keeps_valid(app: AppView, action: Action, when: Instant)
    requires
        app.valid(),
    ensures
        app.step(action, when).0.valid(),
{
    if let (Some(p), Some(t)) = (app.selected_project(), app.selected_task()) {
        lemma_runs_valid(app, p.id, t.id, false, when);
        lemma_runs_valid(app, p.id, t.id, true, when);
    }
    if let Some(p) = app.selected_project() {
        lemma_runs_valid(app, p.id, "ci"@, false, when);
        lemma_runs_valid(app, p.id, "ci"@, true, when);
    }
}

/// A task is started in a terminal exactly where an action opens one, and it is started there with
/// the cache skipped exactly where that was asked for.
pub proof fn law_terminal_is_opened(app: AppView, action: Action, when: Instant)
    ensures
        app.step(action, when).1 is RunInteractive <==> app.opens_terminal(action),
        app.opens_terminal(action) ==> app.step(action, when).1 == (EffectView::RunInteractive {
            project_id: app.selected_project()->0.id,
            task_id: app.selected_task()->0.id,
            force: action is ForceRun,
            rows: app.pane_size().0,
            cols: app.pane_size().1,
        }),
{
}

impl App {
    /// The selection in the list of the active panel.
    fn index(&self) -> (index: usize)
        ensures
            index == self@.index(),
    {
        match self.panel {
            Panel::Projects => self.project_index,
            Panel::Tasks => self.task_index,
        }
    }

    /// Puts the selection of the active panel at that place.
    fn set_index(&mut self, index: usize)
        ensures
            final(self)@ == old(self)@.with_index(index as int),
            final(self).status_message == old(self).status_message,
    {
        match self.panel {
            Panel::Projects => {
                self.project_index = index;
            },
            Panel::Tasks => {
                self.task_index = index;
            },
        }
        proof {
            let after = self@;
            lemma_same(after, old(self)@.with_index(index as int));
        }
    }

    /// Where the selection goes.
    fn move_selection(&self, action: Action) -> (index: usize)
        ensures
            self@.moved(action) == self@.with_index(index as int),
    {
        let len: usize = self.list_len();
        let index: usize = self.index();
        match action {
            Action::MoveDown => {
                if len > 0 && index < len - 1 {
                    index + 1
                } else {
                    index
                }
            },
            Action::MoveUp => index.saturating_sub(1),
            Action::JumpTop => 0,
            Action::JumpBottom => {
                if len > 0 {
                    len - 1
                } else {
                    index
                }
            },
            Action::HalfPageDown => {
                if len == 0 {
                    index
                } else if index < len - 1 && len - 1 - index > 10 {
                    index + 10
                } else {
                    len - 1
                }
            },
            Action::HalfPageUp => index.saturating_sub(10),
            _ => index,
        }
    }

    /// Shows the panels or the output.
    fn set_mode(&mut self, mode: Mode)
        ensures
            final(self)@ == (AppView { mode, ..old(self)@ }),
            final(self).status_message == old(self).status_message,
    {
        self.mode = mode;
        proof {
            let after = self@;
            lemma_same(after, AppView { mode, ..old(self)@ });
        }
    }

    /// Makes `panel` the active one.
    fn set_panel(&mut self, panel: Panel)
        ensures
            final(self)@ == (AppView { panel, ..old(self)@ }),
            final(self).status_message == old(self).status_message,
    {
        self.panel = panel;
        proof {
            let after = self@;
            lemma_same(after, AppView { panel, ..old(self)@ });
        }
    }

    /// Ends the application.
    fn stop(&mut self)
        ensures
            final(self)@ == (AppView { running: false, ..old(self)@ }),
            final(self).status_message == old(self).status_message,
    {
        self.running = false;
        proof {
            let after = self@;
            lemma_same(after, AppView { running: false, ..old(self)@ });
        }
    }

    /// Shows the help, or hides it.
    fn toggle_help(&mut self)
        ensures
            final(self)@ == (AppView { show_help: !old(self)@.show_help, ..old(self)@ }),
            final(self).status_message == old(self).status_message,
    {
        self.show_help = !self.show_help;
        proof {
            let after = self@;
            lemma_same(after, AppView { show_help: !old(self)@.show_help, ..old(self)@ });
        }
    }

    /// Shows the task info, or hides it.
    fn toggle_task_info(&mut self)
        ensures
            final(self)@ == (AppView { show_task_info: !old(self)@.show_task_info, ..old(self)@ }),
            final(self).status_message == old(self).status_message,
    {
        self.show_task_info = !self.show_task_info;
        proof {
            let after = self@;
            lemma_same(after, AppView { show_task_info: !old(self)@.show_task_info, ..old(self)@ });
        }
    }

    /// Leads to the other view or panel that a simple action stands for.
    fn navigate(&mut self, action: Action, when: Instant)
        ensures
            final(self)@ == old(self)@.navigated(action, when),
            !(action is Refresh) ==> final(self).status_message == old(self).status_message,
    {
        match action {
            Action::Quit => {
                if self.mode == Mode::Output {
                    self.set_mode(Mode::Normal);
                } else {
                    self.stop();
                }
            },
            Action::Back => {
                if self.mode == Mode::Output {
                    self.set_mode(Mode::Normal);
                } else {
                    self.set_panel(Panel::Projects);
                }
            },
            Action::Refresh => self.set_status_at(String::from_str("Refreshing..."), when),
            Action::NavLeft => self.set_panel(Panel::Projects),
            Action::NavRight => {
                if self.tasks.len() > 0 {
                    self.set_panel(Panel::Tasks);
                }
            },
            Action::TaskInfo => {
                if self.panel == Panel::Tasks && self.tasks.len() > 0 {
                    self.toggle_task_info();
                }
            },
            Action::ToggleHelp => self.toggle_help(),
            _ => {},
        }
    }

    /// The ids of the selected project and of the selected task, and whether the task is
    /// interactive.
    fn selected_ids(&self) -> (ids: Option<(String, String, bool)>)
        ensures
            ids is Some == (self@.selected_project() is Some && self@.selected_task() is Some),
            ids matches Some(i) ==> i.0@ == self@.selected_project()->0.id && i.1@
                == self@.selected_task()->0.id && i.2 == self@.selected_task()->0.interactive,
    {
        match (self.selected_project(), self.selected_task()) {
            (Some(p), Some(t)) => Some((p.id.clone(), t.id.clone(), t.interactive)),
            _ => None,
        }
    }

    fn run_selected(&mut self, force: bool, when: Instant) -> (effect: Effect)
        requires
            old(self)@.valid(),
            old(self)@.selected_run(force, when).1 is RunInteractive ==> old(self)@.pane_size().0
                >= 1,
        ensures
            (final(self)@, effect@) == old(self)@.selected_run(force, when),
            effect@ is Nothing ==> final(self).status_message == old(self).status_message,
    {
        match self.selected_ids() {
            Some((project, task, interactive)) => {
                // Interactive tasks need a PTY so that Moon gets a real terminal.
                if interactive {
                    self.start_interactive_run(project.as_str(), task.as_str(), force, when)
                } else {
                    self.start_task_run(project.as_str(), task.as_str(), force, when)
                }
            },
            None => Effect::Nothing,
        }
    }

    fn run_selected_task(&mut self, when: Instant) -> (effect: Effect)
        requires
            old(self)@.valid(),
            old(self)@.selected_run(false, when).1 is RunInteractive ==> old(self)@.pane_size().0
                >= 1,
        ensures
            (final(self)@, effect@) == old(self)@.selected_run(false, when),
            effect@ is Nothing ==> final(self).status_message == old(self).status_message,
    {
        self.run_selected(false, when)
    }

    fn force_run_selected_task(&mut self, when: Instant) -> (effect: Effect)
        requires
            old(self)@.valid(),
            old(self)@.selected_run(true, when).1 is RunInteractive ==> old(self)@.pane_size().0
                >= 1,
        ensures
            (final(self)@, effect@) == old(self)@.selected_run(true, when),
            effect@ is Nothing ==> final(self).status_message == old(self).status_message,
    {
        self.run_selected(true, when)
    }

    fn run_ci(&mut self, force: bool, when: Instant) -> (effect: Effect)
        requires
            old(self)@.valid(),
        ensures
            (final(self)@, effect@) == old(self)@.ci_run(force, when),
            effect@ is Nothing ==> final(self).status_message == old(self).status_message,
    {
        let project_id = match self.selected_project() {
            Some(p) => p.id.clone(),
            None => {
                return Effect::Nothing;
            },
        };
        self.start_task_run(project_id.as_str(), "ci", force, when)
    }

    fn run_selected_in_terminal(&mut self, when: Instant) -> (effect: Effect)
        requires
            old(self)@.valid(),
            old(self)@.selected_terminal_run(when).1 is RunInteractive ==> old(self)@.pane_size().0
                >= 1,
        ensures
            (final(self)@, effect@) == old(self)@.selected_terminal_run(when),
            effect@ is Nothing ==> final(self).status_message == old(self).status_message,
    {
        match self.selected_ids() {
            Some((project, task, _)) => {
                self.start_interactive_run(project.as_str(), task.as_str(), false, when)
            },
            None => Effect::Nothing,
        }
    }

    fn enter(&mut self, when: Instant) -> (effect: Effect)
        requires
            old(self)@.valid(),
            old(self)@.step(Action::Enter, when).1 is RunInteractive ==> old(self)@.pane_size().0
                >= 1,
        ensures
            (final(self)@, effect@) == old(self)@.step(Action::Enter, when),
            effect@ is Nothing ==> final(self).status_message == old(self).status_message,
    {
        match self.panel {
            Panel::Projects => {
                if self.tasks.len() > 0 {
                    self.panel = Panel::Tasks;
                    self.task_index = 0;
                }
                proof {
                    let after = self@;
                    lemma_same(after, old(self)@.step(Action::Enter, when).0);
                }
                Effect::Nothing
            },
            Panel::Tasks => self.run_selected_task(when),
        }
    }

    fn reattach(&mut self) -> (effect: Effect)
        ensures
            forall|when: Instant|
                (final(self)@, effect@) == #[trigger] old(self)@.step(Action::Reattach, when),
            final(self).status_message == old(self).status_message,
    {
        if self.is_running_task() || self.output_lines.len() > 0 {
            self.attach();
            Effect::Drain
        } else {
            Effect::Nothing
        }
    }

    /// Whether the run of a task goes on, in the foreground or in the background.
    fn is_live(&self, target: &String) -> (live: bool)
        ensures
            live == self@.is_live(target@),
    {
        (self.output_target == *target && !self.output_finished) || self.find_background(
            target,
        ).is_some()
    }

    /// Whether an action starts a task in a terminal.
    pub fn opens_terminal(&self, action: &Action) -> (opens: bool)
        ensures
            opens == self@.opens_terminal(*action),
    {
        let always = match action {
            Action::InteractiveRun => true,
            Action::Enter | Action::ForceRun => false,
            _ => {
                return false;
            },
        };
        match (self.panel, self.selected_ids()) {
            (Panel::Tasks, Some((project, task, interactive))) => {
                (always || interactive) && !self.is_live(
                    &target_name(project.as_str(), task.as_str()),
                )
            },
            _ => false,
        }
    }

    /// Does what the user asked for. What is left to do is handed back: where pending output is
    /// to be shown, or a task is to be started.
    pub fn handle_action(&mut self, action: Action) -> (effect: Effect)
        requires
            old(self)@.valid(),
            old(self)@.opens_terminal(action) ==> old(self)@.pane_size().0 >= 1,
        ensures
            exists|when: Instant|
                (final(self)@, effect@) == #[trigger] old(self)@.step(action, when),
            final(self)@.valid(),
            !old(self)@.sets_status(action) ==> final(self).status_message == old(
                self,
            ).status_message,
    {
        self.handle_action_at(action, Instant::now())
    }

    /// Does what the user asked for, at that time.
    pub fn handle_action_at(&mut self, action: Action, when: Instant) -> (effect: Effect)
        requires
            old(self)@.valid(),
            old(self)@.opens_terminal(action) ==> old(self)@.pane_size().0 >= 1,
        ensures
            (final(self)@, effect@) == old(self)@.step(action, when),
            final(self)@.valid(),
            !old(self)@.sets_status(action) ==> final(self).status_message == old(
                self,
            ).status_message,
    {
        proof {
            law_step_keeps_valid(self@, action, when);
            law_terminal_is_opened(self@, action, when);
        }
        match action {
            Action::Enter => self.enter(when),
            Action::RunAll => self.run_ci(false, when),
            Action::ForceRun => match self.panel {
                Panel::Tasks => self.force_run_selected_task(when),
                Panel::Projects => self.run_ci(true, when),
            },
            Action::InteractiveRun => match self.panel {
                Panel::Tasks => self.run_selected_in_terminal(when),
                Panel::Projects => Effect::Nothing,
            },
            Action::Reattach => self.reattach(),
            Action::MoveDown | Action::MoveUp | Action::JumpTop | Action::JumpBottom
            | Action::HalfPageDown | Action::HalfPageUp => {
                let index: usize = self.move_selection(action);
                self.set_index(index);
                Effect::Nothing
            },
            _ => {
                self.navigate(action, when);
                Effect::Nothing
            },
        }
    }
}

// Each action.

/// A quit or a step back from the output leads to the panels. From the panels a quit ends the
/// application, and a step back leads to the list of projects. Nothing else changes.
pub proof fn law_quit_and_back(app: AppView, when: Instant)
    ensures
        app.mode == Mode::Normal ==> {
            &&& app.step(Action::Quit, when).0 == (AppView { running: false, ..app })
            &&& app.step(Action::Back, when).0 == (AppView { panel: Panel::Projects, ..app })
        },
        app.mode == Mode::Output ==> {
            &&& app.step(Action::Quit, when).0 == (AppView { mode: Mode::Normal, ..app })
            &&& app.step(Action::Back, when).0 == (AppView { mode: Mode::Normal, ..app })
        },
        app.step(Action::Quit, when).1 is Nothing,
        app.step(Action::Back, when).1 is Nothing,
{
}

/// The panels are side by side: left is the list of projects, right the list of tasks, which can
/// be entered only where it is not empty.
pub proof fn law_left_and_right(app: AppView, when: Instant)
    ensures
        app.step(Action::NavLeft, when).0 == (AppView { panel: Panel::Projects, ..app }),
        app.tasks.len() > 0 ==> app.step(Action::NavRight, when).0 == (AppView {
            panel: Panel::Tasks,
            ..app
        }),
        app.tasks.len() == 0 ==> app.step(Action::NavRight, when).0 == app,
        app.step(Action::NavLeft, when).1 is Nothing,
        app.step(Action::NavRight, when).1 is Nothing,
{
}

/// A refresh is noted in the status, with the time; the help is shown or hidden; the task info is
/// so only in a list of tasks that is not empty; and nothing asked for changes nothing.
pub proof fn law_simple_actions(app: AppView, when: Instant)
    ensures
        app.step(Action::Refresh, when) == (
            AppView { status: Some(("Refreshing..."@, when)), ..app },
            EffectView::Nothing,
        ),
        app.step(Action::ToggleHelp, when) == (
            AppView { show_help: !app.show_help, ..app },
            EffectView::Nothing,
        ),
        app.panel == Panel::Tasks && app.tasks.len() > 0 ==> app.step(Action::TaskInfo, when) == (
            AppView { show_task_info: !app.show_task_info, ..app },
            EffectView::Nothing,
        ),
        app.panel == Panel::Projects || app.tasks.len() == 0 ==> app.step(Action::TaskInfo, when)
            == (app, EffectView::Nothing),
        app.step(Action::Nothing, when) == (app, EffectView::Nothing),
{
}

/// Whether the selection of the active panel, and nothing else, goes to that place.
pub open spec fn selection_goes_to(before: AppView, after: AppView, place: int) -> bool {
    match before.panel {
        Panel::Projects => after == (AppView { project_index: place, ..before }),
        Panel::Tasks => after == (AppView { task_index: place, ..before }),
    }
}

/// Moving goes one item or ten items down or up, or to an end, in the list of the active panel,
/// and never beyond its ends.
pub proof fn law_moves(app: AppView, when: Instant)
    ensures
        ({
            let (here, n) = match app.panel {
                Panel::Projects => (app.project_index, app.projects.len() as int),
                Panel::Tasks => (app.task_index, app.tasks.len() as int),
            };
            &&& selection_goes_to(
                app,
                app.step(Action::MoveDown, when).0,
                if here + 1 < n {
                    here + 1
                } else {
                    here
                },
            )
            &&& selection_goes_to(
                app,
                app.step(Action::MoveUp, when).0,
                if here > 0 {
                    here - 1
                } else {
                    0
                },
            )
            &&& selection_goes_to(app, app.step(Action::JumpTop, when).0, 0)
            &&& selection_goes_to(
                app,
                app.step(Action::JumpBottom, when).0,
                if n > 0 {
                    n - 1
                } else {
                    here
                },
            )
            &&& selection_goes_to(
                app,
                app.step(Action::HalfPageDown, when).0,
                if n == 0 {
                    here
                } else if here + 10 < n - 1 {
                    here + 10
                } else {
                    n - 1
                },
            )
            &&& selection_goes_to(
                app,
                app.step(Action::HalfPageUp, when).0,
                if here > 10 {
                    here - 10
                } else {
                    0
                },
            )
        }),
{
}

/// No move asks for anything to be done.
pub proof fn law_moves_have_no_effect(app: AppView, action: Action, when: Instant)
    requires
        action is MoveDown || action is MoveUp || action is JumpTop || action is JumpBottom
            || action is HalfPageDown || action is HalfPageUp,
    ensures
        app.step(action, when).1 is Nothing,
{
}

/// Whether a new run of `target` is in view, of which nothing has been heard yet: with a terminal
/// of that size, or with its output piped.
pub open spec fn begins(after: AppView, target: Seq<char>, terminal: Option<(u16, u16)>) -> bool {
    &&& after.target == target
    &&& after.mode == Mode::Output
    &&& after.run.lines.len() == 0
    &&& after.run.scroll == 0
    &&& after.run.follow
    &&& !after.run.finished
    &&& after.run.exit_code is None
    &&& after.run.listening
    &&& after.run.awaiting
    &&& after.run.scrollback == 0
    &&& !after.run.alternate
    &&& after.run.child_pid == 0
    &&& match terminal {
        Some((rows, cols)) => {
            &&& after.run.interactive
            &&& after.run.emulator matches Some(emulator) && emulator.rows == rows && emulator.cols
                == cols && emulator.input.len() == 0
        },
        None => !after.run.interactive && after.run.emulator is None,
    }
}

/// Whether no run of that task goes on, in the foreground or in the background.
pub open spec fn not_running(app: AppView, project_id: Seq<char>, task_id: Seq<char>) -> bool {
    let target = project_id + seq![':'] + task_id;
    &&& app.target != target || app.run.finished
    &&& forall|i: int| 0 <= i < app.background.len() ==> (#[trigger] app.background[i]).target
        != target
}

/// Whether nothing else has changed than what is in the foreground, what is in the background and
/// what the status says; and a run that went on before is the last one in the background.
pub open spec fn only_the_run_changes(before: AppView, after: AppView) -> bool {
    &&& after == (AppView {
        target: after.target,
        run: after.run,
        mode: after.mode,
        status: after.status,
        background: after.background,
        ..before
    })
    &&& before.target.len() > 0 && !before.run.finished ==> after.background
        == before.background.push(DetachedView { target: before.target, run: before.run })
    &&& before.target.len() == 0 || before.run.finished ==> after.background == before.background
}

/// Whether a task is started with its output piped, and said to be running.
pub open spec fn starts_piped(
    app: AppView,
    result: (AppView, EffectView),
    project_id: Seq<char>,
    task_id: Seq<char>,
    force: bool,
    when: Instant,
) -> bool {
    let target = project_id + seq![':'] + task_id;
    &&& result.1 == (EffectView::Run { project_id, task_id, force })
    &&& begins(result.0, target, None)
    &&& only_the_run_changes(app, result.0)
    &&& force ==> result.0.status == Some(("Force running "@ + target + "..."@, when))
    &&& !force ==> result.0.status == Some(("Running "@ + target + "..."@, when))
}

/// Whether a task is started in a terminal of the size of the output pane, and said to be so.
pub open spec fn starts_in_terminal(
    app: AppView,
    result: (AppView, EffectView),
    pane: (u16, u16),
    project_id: Seq<char>,
    task_id: Seq<char>,
    force: bool,
    when: Instant,
) -> bool {
    let target = project_id + seq![':'] + task_id;
    &&& result.1 == (EffectView::RunInteractive {
        project_id,
        task_id,
        force,
        rows: pane.0,
        cols: pane.1,
    })
    &&& begins(result.0, target, Some(pane))
    &&& only_the_run_changes(app, result.0)
    &&& result.0.status == Some(("Interactive: "@ + target + "..."@, when))
}

/// The task `ci` of the selected project is run from every panel, where one is selected and it is
/// not running; with the cache by the one action, without it by the other from the projects.
pub proof fn law_ci_is_run_from_every_panel(app: AppView, when: Instant)
    ensures
        app.selected_project() matches Some(project) ==> not_running(app, project.id, "ci"@) ==> {
            &&& starts_piped(app, app.step(Action::RunAll, when), project.id, "ci"@, false, when)
            &&& app.panel == Panel::Projects ==> starts_piped(
                app,
                app.step(Action::ForceRun, when),
                project.id,
                "ci"@,
                true,
                when,
            )
        },
        app.selected_project() is None ==> {
            &&& app.step(Action::RunAll, when) == (app, EffectView::Nothing)
            &&& app.panel == Panel::Projects ==> app.step(Action::ForceRun, when) == (
                app,
                EffectView::Nothing,
            )
        },
{
    if let Some(project) = app.selected_project() {
        lemma_place_of(app.background, target_of(project.id, "ci"@));
    }
}

/// In the list of tasks the selected task is run: with its output piped, or in a terminal if it is
/// interactive; with the cache or without it as was asked.
pub proof fn law_selected_task_is_run(app: AppView, when: Instant)
    requires
        app.panel == Panel::Tasks,
    ensures
        app.selected_project() is None || app.selected_task() is None ==> {
            &&& app.step(Action::Enter, when) == (app, EffectView::Nothing)
            &&& app.step(Action::ForceRun, when) == (app, EffectView::Nothing)
            &&& app.step(Action::InteractiveRun, when) == (app, EffectView::Nothing)
        },
        app.selected_project() is Some && app.selected_task() is Some ==> {
            let p = app.selected_project()->0.id;
            let t = app.selected_task()->0.id;
            let pane = app.pane_size();
            not_running(app, p, t) ==> {
                &&& starts_in_terminal(
                    app,
                    app.step(Action::InteractiveRun, when),
                    pane,
                    p,
                    t,
                    false,
                    when,
                )
                &&& app.selected_task()->0.interactive ==> {
                    &&& starts_in_terminal(app, app.step(Action::Enter, when), pane, p, t, false, when)
                    &&& starts_in_terminal(app, app.step(Action::ForceRun, when), pane, p, t, true, when)
                }
                &&& !app.selected_task()->0.interactive ==> {
                    &&& starts_piped(app, app.step(Action::Enter, when), p, t, false, when)
                    &&& starts_piped(app, app.step(Action::ForceRun, when), p, t, true, when)
                }
            }
        },
{
    if app.selected_project() is Some && app.selected_task() is Some {
        lemma_place_of(
            app.background,
            target_of(app.selected_project()->0.id, app.selected_task()->0.id),
        );
    }
}

/// In the list of projects the selected project is entered: its tasks are shown from the first on,
/// where there are some. A task is not run in a terminal from there.
pub proof fn law_project_is_entered(app: AppView, when: Instant)
    requires
        app.panel == Panel::Projects,
    ensures
        app.tasks.len() > 0 ==> app.step(Action::Enter, when) == (
            AppView { panel: Panel::Tasks, task_index: 0, ..app },
            EffectView::Nothing,
        ),
        app.tasks.len() == 0 ==> app.step(Action::Enter, when) == (app, EffectView::Nothing),
        app.step(Action::InteractiveRun, when) == (app, EffectView::Nothing),
{
}

/// The run in the foreground is shown again where it goes on or has left output: the end of its
/// output comes into view, and what is pending is taken in.
pub proof fn law_run_is_shown_again(app: AppView, when: Instant)
    ensures
        (app.run.listening && !app.run.finished) || app.run.lines.len() > 0 ==> {
            let (after, effect) = app.step(Action::Reattach, when);
            &&& effect is Drain
            &&& after.mode == Mode::Output
            &&& after.run.follow
            &&& app.run.lines.len() > 0 ==> after.run.scroll == app.run.lines.len() - 1
            &&& app.run.lines.len() == 0 ==> after.run.scroll == 0
            &&& after.run == (RunView { follow: true, scroll: after.run.scroll, ..app.run })
            &&& after == (AppView { mode: Mode::Output, run: after.run, ..app })
        },
        !(app.run.listening && !app.run.finished) && app.run.lines.len() == 0 ==> app.step(
            Action::Reattach,
            when,
        ) == (app, EffectView::Nothing),
{
}

/// Which actions set the status, and at what time; the others leave it as it is.
pub proof fn law_who_sets_the_status(app: AppView, action: Action, when: Instant)
    ensures
        app.sets_status(action) ==> (app.step(action, when).0.status matches Some((_, at)) && at
            == when),
        !app.sets_status(action) ==> app.step(action, when).0.status == app.status,
{
}

} // verus!
