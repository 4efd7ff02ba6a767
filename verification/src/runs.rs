//! Starting tasks, putting them into the background and getting back to them.

use std::time::Instant;

use vstd::prelude::*;
use vstd::string::StringExecFns;

use crate::actions::{lemma_reattached_valid, lemma_runs_valid};
use crate::app::{detached_views, emptied, lemma_same, App, AppView, DetachedView, Mode};
use crate::output::{interactive_run, minus, piped_run, RunView, TaskState};

verus! {

/// What the caller has to do after an action.
#[derive(Debug)]
pub enum Effect {
    Nothing,
    /// Hand the pending output of the run in the foreground to `poll_output`.
    Drain,
    /// Start the task with its output piped, as the run in the foreground.
    Run { project_id: String, task_id: String, force: bool },
    /// Start the task in a terminal of that size, as the run in the foreground.
    RunInteractive { project_id: String, task_id: String, force: bool, rows: u16, cols: u16 },
}

/// What an `Effect` holds.
pub ghost enum EffectView {
    Nothing,
    Drain,
    Run { project_id: Seq<char>, task_id: Seq<char>, force: bool },
    RunInteractive {
        project_id: Seq<char>,
        task_id: Seq<char>,
        force: bool,
        rows: u16,
        cols: u16,
    },
}

impl View for Effect {
    type V = EffectView;

    open spec fn view(&self) -> EffectView {
        match *self {
            Effect::Nothing => EffectView::Nothing,
            Effect::Drain => EffectView::Drain,
            Effect::Run { project_id, task_id, force } => EffectView::Run {
                project_id: project_id@,
                task_id: task_id@,
                force,
            },
            Effect::RunInteractive { project_id, task_id, force, rows, cols } => {
                EffectView::RunInteractive {
                    project_id: project_id@,
                    task_id: task_id@,
                    force,
                    rows,
                    cols,
                }
            },
        }
    }
}

/// The name of a task in the workspace.
pub open spec fn target_of(project_id: Seq<char>, task_id: Seq<char>) -> Seq<char> {
    project_id + seq![':'] + task_id
}

/// The name of a task in the workspace.
pub fn target_name(project_id: &str, task_id: &str) -> (target: String)
    ensures
        target@ == target_of(project_id@, task_id@),
{
    let mut target = String::from_str(project_id);
    target.push(':');
    target.append(task_id);
    assert(target@ == target_of(project_id@, task_id@));
    target
}

/// The place of the run with that target, where there is one.
pub open spec fn place_of(runs: Seq<DetachedView>, target: Seq<char>) -> Option<int>
    decreases runs.len(),
{
    if runs.len() == 0 {
        None
    } else if runs.last().target == target {
        Some(runs.len() - 1)
    } else {
        place_of(runs.drop_last(), target)
    }
}

/// The run with its view at the end of the output.
pub open spec fn at_end(run: RunView) -> RunView {
    RunView { follow: true, scroll: minus(run.lines.len() as int, 1), ..run }
}

impl AppView {
    /// With the run in the foreground put into the background, where there is one that is not
    /// finished.
    pub open spec fn saved(self) -> AppView {
        if self.target.len() == 0 || self.run.finished {
            self
        } else {
            AppView {
                run: emptied(self.run),
                background: self.background.push(
                    DetachedView { target: self.target, run: self.run },
                ),
                ..self
            }
        }
    }

    /// With the end of the output in view.
    pub open spec fn attached(self) -> AppView {
        AppView { mode: Mode::Output, run: at_end(self.run), ..self }
    }

    /// Whether the run of `target` goes on, in the foreground or in the background.
    pub open spec fn is_live(self, target: Seq<char>) -> bool {
        ||| self.target == target && !self.run.finished
        ||| place_of(self.background, target) is Some
    }

    /// With the run of `target` in view, where it is running, in the foreground or in the
    /// background.
    pub open spec fn reattached(self, target: Seq<char>, when: Instant) -> Option<AppView> {
        let status = "Re-attached to "@ + target;
        if self.target == target && !self.run.finished {
            Some(self.attached().with_status(status, when))
        } else {
            match place_of(self.background, target) {
                Some(i) => {
                    let saved = self.saved();
                    let restored = AppView {
                        target,
                        run: saved.background[i].run,
                        background: saved.background.remove(i),
                        ..saved
                    };
                    Some(restored.attached().with_status(status, when))
                },
                None => None,
            }
        }
    }

    /// With `run` as a new run of `target` in the foreground.
    pub open spec fn started(self, target: Seq<char>, run: RunView) -> AppView {
        AppView { target, run, mode: Mode::Output, ..self.saved() }
    }

    /// After the user asks to run a task.
    pub open spec fn task_run(
        self,
        project_id: Seq<char>,
        task_id: Seq<char>,
        force: bool,
        when: Instant,
    ) -> (AppView, EffectView) {
        let target = target_of(project_id, task_id);
        match self.reattached(target, when) {
            Some(app) => (app, EffectView::Drain),
            None => {
                let label = if force {
                    "Force running "@
                } else {
                    "Running "@
                };
                let status = label + target + "..."@;
                (
                    self.started(target, piped_run()).with_status(status, when),
                    EffectView::Run { project_id, task_id, force },
                )
            },
        }
    }

    /// The size of the output pane, rows first: the terminal without the title bar, the status
    /// bar and the borders.
    pub open spec fn pane_size(self) -> (u16, u16) {
        let (cols, rows) = match self.terminal_size {
            Some(size) => size,
            None => (80, 24),
        };
        (minus(rows as int, 4) as u16, minus(cols as int, 2) as u16)
    }

    /// After the user asks to run a task in a terminal.
    pub open spec fn terminal_run(
        self,
        project_id: Seq<char>,
        task_id: Seq<char>,
        force: bool,
        when: Instant,
    ) -> (AppView, EffectView) {
        let target = target_of(project_id, task_id);
        match self.reattached(target, when) {
            Some(app) => (app, EffectView::Drain),
            None => {
                let (rows, cols) = self.pane_size();
                let status = "Interactive: "@ + target + "..."@;
                (
                    self.started(target, interactive_run(rows, cols)).with_status(status, when),
                    EffectView::RunInteractive { project_id, task_id, force, rows, cols },
                )
            },
        }
    }
}

pub(crate) proof fn lemma_place_of(runs: Seq<DetachedView>, target: Seq<char>)
    ensures
        place_of(runs, target) matches Some(i) ==> 0 <= i < runs.len() && runs[i].target == target,
        place_of(runs, target) is None ==> forall|i: int|
            0 <= i < runs.len() ==> (#[trigger] runs[i]).target != target,
    decreases runs.len(),
{
    if runs.len() > 0 && runs.last().target != target {
        let front = runs.drop_last();
        lemma_place_of(front, target);
        if place_of(front, target) is None {
            assert forall|i: int| 0 <= i < runs.len() implies (#[trigger] runs[i]).target
                != target by {
                if i < front.len() {
                    assert(front[i].target != target);
                }
            }
        }
    }
}

impl App {
    /// The place of the run with that target, where there is one.
    pub(crate) fn find_background(&self, target: &String) -> (place: Option<usize>)
        ensures
            place is Some == place_of(self@.background, target@) is Some,
            place is Some ==> place->0 == place_of(self@.background, target@)->0,
    {
        let ghost runs = self@.background;
        let mut n: usize = self.background_tasks.len();
        assert(runs.take(n as int) == runs);
        while n > 0
            invariant
                n <= self.background_tasks.len(),
                runs == detached_views(self.background_tasks@),
                runs.len() == self.background_tasks.len(),
                place_of(runs.take(n as int), target@) == place_of(runs, target@),
            decreases n,
        {
            assert(runs.take(n as int).drop_last() == runs.take(n - 1));
            assert(runs[n - 1].target == self.background_tasks@[n - 1].0@);
            if self.background_tasks[n - 1].0 == *target {
                return Some(n - 1);
            }
            n -= 1;
        }
        None
    }

    /// Save the current foreground task's state so that it keeps running in the background while
    /// another task is shown. Does nothing if there is no current task or it has already finished.
    pub fn save_current_task_state(&mut self)
        ensures
            final(self)@ == old(self)@.saved(),
            final(self).status_message == old(self).status_message,
    {
        if self.output_target.as_str().is_empty() || self.output_finished {
            return;
        }
        let ghost before = self@;
        let state = self.take_run();
        let target = self.output_target.clone();
        let ghost detached = DetachedView { target: target@, run: state@ };
        let ghost runs = self.background_tasks@;
        let ghost emptied = self@;
        self.background_tasks.push((target, state));
        proof {
            let after = self@;
            assert(after.background == detached_views(runs).push(detached));
            lemma_same(after, AppView { background: after.background, ..emptied });
            lemma_same(after, before.saved());
        }
    }

    /// Shows the end of the output.
    pub(crate) fn attach(&mut self)
        ensures
            final(self)@ == old(self)@.attached(),
            final(self).status_message == old(self).status_message,
    {
        let ghost before = self@;
        self.mode = Mode::Output;
        self.output_follow = true;
        self.output_scroll = self.output_lines.len().saturating_sub(1);
        proof {
            let after = self@;
            assert(after.run == at_end(before.run));
            lemma_same(after, before.attached());
        }
    }

    /// Shows the end of the output and says so.
    fn attach_to(&mut self, target: &String, when: Instant)
        ensures
            final(self)@ == old(self)@.attached().with_status("Re-attached to "@ + target@, when),
    {
        self.attach();
        let mut status = String::from_str("Re-attached to ");
        status.append(target.as_str());
        self.set_status_at(status, when);
    }

    /// Takes the run at that place out of the background, as the run of `target` in the
    /// foreground.
    fn restore(&mut self, place: usize, target: &String)
        requires
            place < old(self).background_tasks.len(),
        ensures
            final(self)@ == (AppView {
                target: target@,
                run: old(self)@.background[place as int].run,
                background: old(self)@.background.remove(place as int),
                ..old(self)@
            }),
            final(self).status_message == old(self).status_message,
    {
        let ghost before = self@;
        let ghost runs = self.background_tasks@;
        let (_, state) = self.background_tasks.remove(place);
        self.output_target = target.clone();
        let ghost run = state@;
        let ghost removed = self@;
        proof {
            assert(run == before.background[place as int].run);
            assert(detached_views(runs.remove(place as int)) == before.background.remove(
                place as int,
            ));
            lemma_same(
                removed,
                AppView {
                    target: target@,
                    background: before.background.remove(place as int),
                    ..before
                },
            );
        }
        self.put_run(state);
    }

    /// Check if the given target is already running (foreground or background) and re-attach if
    /// so. The caller then has to hand over the pending output.
    pub fn try_reattach(&mut self, target: &String, when: Instant) -> (found: bool)
        requires
            old(self)@.valid(),
        ensures
            found == old(self)@.reattached(target@, when) is Some,
            found ==> final(self)@ == old(self)@.reattached(target@, when)->0,
            final(self)@.valid(),
            !found ==> final(self)@ == old(self)@,
            !found ==> final(self).status_message == old(self).status_message,
    {
        proof {
            lemma_reattached_valid(self@, target@, when);
        }
        // Already the foreground task and still running.
        if self.output_target == *target && !self.output_finished {
            self.attach_to(target, when);
            return true;
        }
        let ghost before = self@;
        // Check whether the task was sent to the background while still running.
        match self.find_background(target) {
            Some(place) => {
                proof {
                    lemma_place_of(before.background, target@);
                }
                // Push the current foreground task (if any) into the background.
                self.save_current_task_state();
                assert(self@.background.len() == self.background_tasks.len());
                self.restore(place, target);
                self.attach_to(target, when);
                true
            },
            None => false,
        }
    }

    /// Makes `state` a new run of `target` in the foreground, and keeps the run that was there,
    /// if it goes on, in the background.
    fn start(&mut self, target: &String, state: TaskState)
        ensures
            final(self)@ == old(self)@.started(target@, state@),
            final(self).status_message == old(self).status_message,
    {
        let ghost before = self@;
        let ghost run = state@;
        self.save_current_task_state();
        self.put_run(state);
        self.output_target = target.clone();
        self.mode = Mode::Output;
        proof {
            let after = self@;
            lemma_same(after, before.started(target@, run));
        }
    }

    /// Starts a task with its output piped, or shows its run where it is running.
    pub fn start_task_run(
        &mut self,
        project_id: &str,
        task_id: &str,
        force: bool,
        when: Instant,
    ) -> (effect: Effect)
        requires
            old(self)@.valid(),
        ensures
            (final(self)@, effect@) == old(self)@.task_run(project_id@, task_id@, force, when),
            final(self)@.valid(),
    {
        proof {
            lemma_runs_valid(self@, project_id@, task_id@, force, when);
        }
        let target = target_name(project_id, task_id);
        if self.try_reattach(&target, when) {
            return Effect::Drain;
        }
        self.start(&target, TaskState::piped());
        let mut status = if force {
            String::from_str("Force running ")
        } else {
            String::from_str("Running ")
        };
        status.append(target.as_str());
        status.append("...");
        self.set_status_at(status, when);
        Effect::Run {
            project_id: String::from_str(project_id),
            task_id: String::from_str(task_id),
            force,
        }
    }

    /// Starts a task in a terminal of the size of the output pane, or shows its run where it is
    /// running.
    pub fn start_interactive_run(
        &mut self,
        project_id: &str,
        task_id: &str,
        force: bool,
        when: Instant,
    ) -> (effect: Effect)
        requires
            old(self)@.valid(),
            !old(self)@.is_live(target_of(project_id@, task_id@)) ==> old(self)@.pane_size().0 >= 1,
        ensures
            (final(self)@, effect@) == old(self)@.terminal_run(
                project_id@,
                task_id@,
                force,
                when,
            ),
            final(self)@.valid(),
    {
        proof {
            lemma_runs_valid(self@, project_id@, task_id@, force, when);
        }
        let target = target_name(project_id, task_id);
        if self.try_reattach(&target, when) {
            return Effect::Drain;
        }
        // The emulator matches the output pane, so that the program renders for that width.
        let (term_cols, term_rows): (u16, u16) = match self.terminal_size {
            Some(size) => size,
            None => (80, 24),
        };
        let cols: u16 = term_cols.saturating_sub(2);
        let rows: u16 = term_rows.saturating_sub(4);
        self.start(&target, TaskState::interactive(rows, cols));
        let mut status = String::from_str("Interactive: ");
        status.append(target.as_str());
        status.append("...");
        self.set_status_at(status, when);
        Effect::RunInteractive {
            project_id: String::from_str(project_id),
            task_id: String::from_str(task_id),
            force,
            rows,
            cols,
        }
    }
}

// Laws.

/// A task is named by its project and its id, with a colon between them.
pub proof fn law_target(project_id: Seq<char>, task_id: Seq<char>)
    ensures
        ({
            let target = target_of(project_id, task_id);
            let n = project_id.len() as int;
            &&& target.len() == n + 1 + task_id.len()
            &&& target.take(n) == project_id
            &&& target[n] == ':'
            &&& target.skip(n + 1) == task_id
        }),
{
    let target = target_of(project_id, task_id);
    let n = project_id.len() as int;
    assert(target.take(n) == project_id);
    assert(target.skip(n + 1) == task_id);
}

/// The output pane is what the two bars and the border leave of the terminal; a terminal of
/// unknown size counts as one of 80 columns and 24 rows.
pub proof fn law_pane_size(app: AppView)
    ensures
        app.terminal_size is None ==> app.pane_size() == (20u16, 78u16),
        app.terminal_size matches Some((cols, rows)) ==> {
            &&& rows >= 4 ==> app.pane_size().0 == rows - 4
            &&& rows < 4 ==> app.pane_size().0 == 0
            &&& cols >= 2 ==> app.pane_size().1 == cols - 2
            &&& cols < 2 ==> app.pane_size().1 == 0
        },
{
}

/// A run that goes on is kept whole in the background, after the others, when it leaves the
/// foreground; a run that has finished is not kept, and neither is none.
pub proof fn law_what_is_kept_in_the_background(app: AppView)
    ensures
        app.target.len() > 0 && !app.run.finished ==> {
            let after = app.saved();
            &&& after.background.len() == app.background.len() + 1
            &&& after.background.drop_last() == app.background
            &&& after.background.last().target == app.target
            &&& after.background.last().run == app.run
            &&& after.run.lines.len() == 0
            &&& after.run == (RunView {
                lines: after.run.lines,
                listening: false,
                awaiting: false,
                interactive: false,
                emulator: None,
                ..app.run
            })
            &&& after == (AppView { run: after.run, background: after.background, ..app })
        },
        app.target.len() == 0 || app.run.finished ==> app.saved() == app,
{
    if app.target.len() > 0 && !app.run.finished {
        assert(app.saved().background.drop_last() == app.background);
    }
}

/// Getting back to a run says so, brings the end of its output into view, and takes it out of the
/// background, where it was there.
pub proof fn law_getting_back(app: AppView, target: Seq<char>, when: Instant)
    ensures
        app.reattached(target, when) is Some <==> app.is_live(target),
        app.reattached(target, when) matches Some(after) ==> {
            &&& after.status == Some(("Re-attached to "@ + target, when))
            &&& after.mode == Mode::Output
            &&& after.target == target
            &&& after.run.follow
            &&& after.run.lines.len() > 0 ==> after.run.scroll == after.run.lines.len() - 1
            &&& after.run.lines.len() == 0 ==> after.run.scroll == 0
            &&& after == (AppView {
                target: after.target,
                run: after.run,
                mode: after.mode,
                status: after.status,
                background: after.background,
                ..app
            })
            &&& app.target == target && !app.run.finished ==> after.background == app.background
                && after.run.lines == app.run.lines
        },
{
}

/// A task runs in the foreground while its run has not finished, or in the background.
pub proof fn law_live(app: AppView, target: Seq<char>)
    ensures
        app.is_live(target) <==> {
            ||| app.target == target && !app.run.finished
            ||| exists|i: int|
                0 <= i < app.background.len() && (#[trigger] app.background[i]).target == target
        },
{
    lemma_place_of(app.background, target);
}

} // verus!
