//! What comes in from outside: the end of a run, the answers to queries, and process ids.

use std::time::Instant;

use vstd::prelude::*;
use vstd::string::StringExecFns;

use crate::app::{
    detached_views, lemma_same, lemma_valid_with_run, App, AppView, DetachedView,
};
use crate::moon::{
    project_views, projects_query, projects_query_args, task_views, tasks_query, tasks_query_args,
    MsgView, OutputMsg, Project, ProjectView, Task, TaskView,
};
use crate::output::{can_poll, msg_views, polled, RunView, TaskState};
use crate::runs::{lemma_place_of, place_of};
use crate::text::{signed_dec, signed_decimal, texts};

verus! {

/// What has come in since the last look: the exit code of the run in the foreground with its
/// pending output, and the answers to queries.
#[derive(Debug)]
pub struct Updates {
    pub exit: Option<(Option<i32>, Vec<OutputMsg>)>,
    pub tasks: Option<Vec<Task>>,
    pub projects: Option<Vec<Project>>,
}

/// What `Updates` hold.
pub ghost struct UpdatesView {
    pub exit: Option<(Option<i32>, Seq<MsgView>)>,
    pub tasks: Option<Seq<TaskView>>,
    pub projects: Option<Seq<ProjectView>>,
}

impl View for Updates {
    type V = UpdatesView;

    open spec fn view(&self) -> UpdatesView {
        UpdatesView {
            exit: match self.exit {
                Some((code, msgs)) => Some((code, msg_views(msgs@))),
                None => None,
            },
            tasks: match self.tasks {
                Some(tasks) => Some(task_views(tasks@)),
                None => None,
            },
            projects: match self.projects {
                Some(projects) => Some(project_views(projects@)),
                None => None,
            },
        }
    }
}

/// The exit code as a number: -1 where there is none.
pub open spec fn exit_number(code: Option<i32>) -> int {
    match code {
        Some(n) => n as int,
        None => -1,
    }
}

/// How a run ended: whether it succeeded, and its exit code.
pub open spec fn outcome(code: Option<i32>) -> Seq<char> {
    (if exit_number(code) == 0 {
        "done"@
    } else {
        "FAILED"@
    }) + ", exit "@ + signed_dec(exit_number(code))
}

/// How a run ended: whether it succeeded, and its exit code.
pub fn outcome_text(code: Option<i32>) -> (text: String)
    ensures
        text@ == outcome(code),
{
    let exit: i32 = code.unwrap_or(-1);
    let mut text = if exit == 0 {
        String::from_str("done")
    } else {
        String::from_str("FAILED")
    };
    text.append(", exit ");
    text.append(signed_decimal(exit).as_str());
    text
}

/// The run once it has ended.
pub open spec fn ended(run: RunView, code: Option<i32>) -> RunView {
    RunView {
        exit_code: code,
        finished: true,
        listening: false,
        awaiting: false,
        interactive: false,
        ..run
    }
}

impl AppView {
    /// After the end of the run in the foreground.
    pub open spec fn after_exit(
        self,
        code: Option<i32>,
        msgs: Seq<MsgView>,
        when: Instant,
    ) -> AppView {
        AppView { run: ended(polled(self.run, msgs), code), ..self }.with_status(
            self.target + " ("@ + outcome(code) + ")"@,
            when,
        )
    }

    /// With the exit of the run taken in, where it is awaited.
    pub open spec fn exit_taken(
        self,
        exit: Option<(Option<i32>, Seq<MsgView>)>,
        when: Instant,
    ) -> AppView {
        match exit {
            Some((code, msgs)) => if self.run.awaiting {
                self.after_exit(code, msgs, when)
            } else {
                self
            },
            None => self,
        }
    }

    /// With the tasks taken in, where they are awaited.
    pub open spec fn tasks_taken(self, tasks: Option<Seq<TaskView>>) -> AppView {
        match tasks {
            Some(tasks) => if self.task_rx {
                AppView { tasks, task_index: 0, loading_tasks: false, task_rx: false, ..self }
            } else {
                self
            },
            None => self,
        }
    }

    /// With the projects taken in, where they are awaited.
    pub open spec fn projects_taken(self, projects: Option<Seq<ProjectView>>) -> AppView {
        match projects {
            Some(projects) => if self.project_rx {
                AppView { projects, project_rx: false, ..self }
            } else {
                self
            },
            None => self,
        }
    }

    /// After the updates.
    pub open spec fn updated(self, updates: UpdatesView, when: Instant) -> AppView {
        self.exit_taken(updates.exit, when).tasks_taken(updates.tasks).projects_taken(
            updates.projects,
        )
    }
}

/// The process ids that are not 0.
pub open spec fn nonzero(pids: Seq<u32>) -> Seq<u32>
    decreases pids.len(),
{
    if pids.len() == 0 {
        seq![]
    } else if pids.last() != 0 {
        nonzero(pids.drop_last()).push(pids.last())
    } else {
        nonzero(pids.drop_last())
    }
}

impl AppView {
    /// The process of each run: that in the foreground, then those in the background.
    pub open spec fn pids(self) -> Seq<u32> {
        seq![self.run.child_pid] + self.background.map_values(|d: DetachedView| d.run.child_pid)
    }

    /// With `pid` as the process of the run of `target`, where there is such a run.
    pub open spec fn with_pid(self, target: Seq<char>, pid: u32) -> AppView {
        if self.target == target {
            AppView { run: RunView { child_pid: pid, ..self.run }, ..self }
        } else {
            match place_of(self.background, target) {
                Some(i) => AppView {
                    background: self.background.update(
                        i,
                        DetachedView {
                            target,
                            run: RunView { child_pid: pid, ..self.background[i].run },
                        },
                    ),
                    ..self
                },
                None => self,
            }
        }
    }
}

proof fn lemma_pid_valid(app: AppView, target: Seq<char>, pid: u32)
    requires
        app.valid(),
    ensures
        app.with_pid(target, pid).valid(),
{
    lemma_place_of(app.background, target);
}

/// Replaces the process of one run.
fn replace_pid(runs: &mut Vec<(String, TaskState)>, i: usize, pid: u32)
    requires
        i < old(runs).len(),
    ensures
        detached_views(final(runs)@) == detached_views(old(runs)@).update(
            i as int,
            DetachedView {
                target: detached_views(old(runs)@)[i as int].target,
                run: RunView { child_pid: pid, ..detached_views(old(runs)@)[i as int].run },
            },
        ),
{
    let ghost before = detached_views(runs@);
    let (name, mut state) = runs.remove(i);
    state.child_pid = pid;
    let ghost next = DetachedView { target: name@, run: state@ };
    runs.insert(i, (name, state));
    assert(detached_views(runs@) == before.update(i as int, next));
}

impl App {
    /// Marks that a query for the tasks of a project is under way. Gives the arguments with which
    /// Moon is called.
    pub fn spawn_task_query(&mut self, project_id: &str) -> (args: Vec<String>)
        ensures
            final(self)@ == (AppView { task_rx: true, loading_tasks: true, ..old(self)@ }),
            texts(args@) == tasks_query(project_id@),
            final(self).status_message == old(self).status_message,
    {
        self.task_rx = true;
        self.loading_tasks = true;
        proof {
            let after = self@;
            lemma_same(after, AppView { task_rx: true, loading_tasks: true, ..old(self)@ });
        }
        tasks_query_args(project_id)
    }

    /// Marks that a query for the projects is under way. Gives the arguments with which Moon is
    /// called.
    pub fn spawn_project_query(&mut self) -> (args: Vec<String>)
        ensures
            final(self)@ == (AppView { project_rx: true, ..old(self)@ }),
            texts(args@) == projects_query(),
            final(self).status_message == old(self).status_message,
    {
        self.project_rx = true;
        proof {
            let after = self@;
            lemma_same(after, AppView { project_rx: true, ..old(self)@ });
        }
        projects_query_args()
    }

    /// Takes in the end of the run in the foreground, with the output that is still pending.
    fn finish_run(&mut self, code: Option<i32>, msgs: Vec<OutputMsg>, when: Instant)
        requires
            old(self)@.valid(),
            can_poll(old(self)@.run, msg_views(msgs@)),
            msgs.len() <= isize::MAX,
        ensures
            final(self)@ == old(self)@.after_exit(code, msg_views(msgs@), when),
            final(self)@.valid(),
    {
        let ghost before = self@;
        let ghost views = msg_views(msgs@);
        self.poll_output(msgs);
        let mut state = self.take_run();
        let ghost last = state@;
        state.output_exit_code = code;
        state.output_finished = true;
        state.line_rx = false;
        state.exit_code_rx = false;
        state.stdin_tx = false;
        proof {
            assert(state@ == ended(last, code));
            assert(last == polled(before.run, views));
        }
        self.put_run(state);
        let mut status = self.output_target.clone();
        status.append(" (");
        status.append(outcome_text(code).as_str());
        status.append(")");
        self.set_status_at(status, when);
        proof {
            lemma_valid_with_run(before, ended(last, code));
        }
    }

    /// Takes in what has come in since the last look. Gives whether the projects were updated.
    pub fn poll_async(&mut self, updates: Updates) -> (projects_updated: bool)
        requires
            old(self)@.valid(),
            updates.exit matches Some(exit) ==> exit.1.len() <= isize::MAX && (
            old(self)@.run.awaiting ==> can_poll(old(self)@.run, msg_views(exit.1@))),
        ensures
            exists|when: Instant| final(self)@ == #[trigger] old(self)@.updated(updates@, when),
            final(self)@.valid(),
            projects_updated == (old(self)@.project_rx && updates.projects is Some),
            !(old(self)@.run.awaiting && updates.exit is Some) ==> final(self).status_message
                == old(self).status_message,
    {
        self.poll_async_at(updates, Instant::now())
    }

    /// Takes in what has come in since the last look, at that time. Gives whether the projects
    /// were updated.
    pub fn poll_async_at(&mut self, updates: Updates, when: Instant) -> (projects_updated: bool)
        requires
            old(self)@.valid(),
            updates.exit matches Some(exit) ==> exit.1.len() <= isize::MAX && (
            old(self)@.run.awaiting ==> can_poll(old(self)@.run, msg_views(exit.1@))),
        ensures
            final(self)@ == old(self)@.updated(updates@, when),
            final(self)@.valid(),
            projects_updated == (old(self)@.project_rx && updates.projects is Some),
            !(old(self)@.run.awaiting && updates.exit is Some) ==> final(self).status_message
                == old(self).status_message,
    {
        if let Some((code, msgs)) = updates.exit {
            if self.exit_code_rx {
                self.finish_run(code, msgs, when);
            }
        }
        self.take_tasks(updates.tasks);
        self.take_projects(updates.projects)
    }

    /// Takes in the answer to a query for tasks, where it is awaited.
    fn take_tasks(&mut self, tasks: Option<Vec<Task>>)
        requires
            old(self)@.valid(),
        ensures
            final(self)@ == old(self)@.tasks_taken(
                match tasks {
                    Some(tasks) => Some(task_views(tasks@)),
                    None => None,
                },
            ),
            final(self)@.valid(),
            final(self).status_message == old(self).status_message,
    {
        if let Some(tasks) = tasks {
            if self.task_rx {
                let ghost views = task_views(tasks@);
                self.tasks = tasks;
                self.task_index = 0;
                self.loading_tasks = false;
                self.task_rx = false;
                proof {
                    let after = self@;
                    lemma_same(after, old(self)@.tasks_taken(Some(views)));
                }
            }
        }
    }

    /// Takes in the answer to a query for projects, where it is awaited. Gives whether it was.
    fn take_projects(&mut self, projects: Option<Vec<Project>>) -> (taken: bool)
        requires
            old(self)@.valid(),
        ensures
            final(self)@ == old(self)@.projects_taken(
                match projects {
                    Some(projects) => Some(project_views(projects@)),
                    None => None,
                },
            ),
            final(self)@.valid(),
            taken == (old(self)@.project_rx && projects is Some),
            final(self).status_message == old(self).status_message,
    {
        if let Some(projects) = projects {
            if self.project_rx {
                let ghost views = project_views(projects@);
                self.projects = projects;
                self.project_rx = false;
                proof {
                    let after = self@;
                    lemma_same(after, old(self)@.projects_taken(Some(views)));
                }
                return true;
            }
        }
        false
    }

    /// Returns the PIDs of all live child processes (foreground + background).
    pub fn all_child_pids(&self) -> (pids: Vec<u32>)
        ensures
            pids@ == nonzero(self@.pids()),
    {
        let ghost all = self@.pids();
        let mut pids: Vec<u32> = Vec::new();
        assert(all.take(1).drop_last() == Seq::<u32>::empty());
        assert(all.take(1).last() == self.child_pid);
        assert(nonzero(Seq::<u32>::empty()) == Seq::<u32>::empty());
        if self.child_pid != 0 {
            pids.push(self.child_pid);
        }
        assert(pids@ == nonzero(all.take(1)));
        for i in 0..self.background_tasks.len()
            invariant
                all == self@.pids(),
                pids@ == nonzero(all.take(i + 1)),
        {
            let pid: u32 = self.background_tasks[i].1.child_pid;
            assert(all.take(i + 2).drop_last() == all.take(i + 1));
            assert(all.take(i + 2).last() == pid);
            if pid != 0 {
                pids.push(pid);
            }
        }
        assert(all.take(all.len() as int) == all);
        pids
    }

    /// Records the process of the run of `target`: 0 once it has ended.
    pub fn record_child_pid(&mut self, target: &String, pid: u32)
        requires
            old(self)@.valid(),
        ensures
            final(self)@ == old(self)@.with_pid(target@, pid),
            final(self)@.valid(),
            final(self).status_message == old(self).status_message,
    {
        proof {
            lemma_pid_valid(self@, target@, pid);
        }
        if self.output_target == *target {
            self.set_foreground_pid(pid);
            return;
        }
        match self.find_background(target) {
            Some(i) => {
                proof {
                    lemma_place_of(self@.background, target@);
                }
                self.set_background_pid(i, pid);
            },
            None => {},
        }
    }

    fn set_foreground_pid(&mut self, pid: u32)
        ensures
            final(self)@ == (AppView {
                run: RunView { child_pid: pid, ..old(self)@.run },
                ..old(self)@
            }),
            final(self).status_message == old(self).status_message,
    {
        self.child_pid = pid;
        proof {
            let after = self@;
            lemma_same(
                after,
                AppView { run: RunView { child_pid: pid, ..old(self)@.run }, ..old(self)@ },
            );
        }
    }

    fn set_background_pid(&mut self, i: usize, pid: u32)
        requires
            i < old(self)@.background.len(),
        ensures
            final(self)@ == (AppView {
                background: old(self)@.background.update(
                    i as int,
                    DetachedView {
                        target: old(self)@.background[i as int].target,
                        run: RunView { child_pid: pid, ..old(self)@.background[i as int].run },
                    },
                ),
                ..old(self)@
            }),
            final(self).status_message == old(self).status_message,
    {
        replace_pid(&mut self.background_tasks, i, pid);
        proof {
            let after = self@;
            let before = old(self)@;
            lemma_same(after, AppView { background: after.background, ..before });
        }
    }
}

// Laws.

/// A run is reported as done exactly where its exit code is 0, and as failed in every other case,
/// also where there is no exit code.
pub proof fn law_done_means_zero(code: Option<i32>)
    ensures
        outcome(code).len() > 0,
        outcome(code)[0] == 'd' <==> code == Some(0i32),
        outcome(code)[0] == 'F' <==> code != Some(0i32),
{
    reveal_strlit("done");
    reveal_strlit("FAILED");
}

/// Updates change the run in the foreground only, and the runs in the background not at all.
pub proof fn law_updates_keep_the_background(app: AppView, updates: UpdatesView, when: Instant)
    ensures
        app.updated(updates, when).background == app.background,
        app.updated(updates, when).target == app.target,
        app.updated(updates, when).mode == app.mode,
{
}

/// Once a run has ended nothing more of it is taken in.
pub proof fn law_ended_run_is_closed(
    app: AppView,
    code: Option<i32>,
    msgs: Seq<MsgView>,
    when: Instant,
    later: Instant,
)
    ensures
        ({
            let after = app.after_exit(code, msgs, when);
            &&& !after.is_running_task()
            &&& !after.run.awaiting
            &&& after.exit_taken(Some((code, msgs)), later) == after
            &&& after.run.lines == polled(app.run, msgs).lines
        }),
{
}

/// How a run ended is told by its exit code: -1 where it has none.
pub proof fn law_outcome(code: Option<i32>)
    ensures
        code == Some(0i32) ==> outcome(code) == "done"@ + ", exit "@ + seq!['0'],
        code matches Some(n) ==> n != 0 ==> outcome(code) == "FAILED"@ + ", exit "@ + signed_dec(
            n as int,
        ),
        code is None ==> outcome(code) == "FAILED"@ + ", exit "@ + seq!['-', '1'],
{
    reveal_with_fuel(crate::text::dec, 2);
    assert(signed_dec(0) == seq!['0']);
    assert(signed_dec(-1) == seq!['-', '1']);
}

/// The end of a run is noted with its exit code, once all that it has sent is taken in; what it is
/// connected by is given up, and the status says how it ended. Nothing else changes.
pub proof fn law_end_of_a_run(app: AppView, code: Option<i32>, msgs: Seq<MsgView>, when: Instant)
    ensures
        ({
            let after = app.after_exit(code, msgs, when);
            &&& after.run == (RunView {
                finished: true,
                exit_code: code,
                listening: false,
                awaiting: false,
                interactive: false,
                ..polled(app.run, msgs)
            })
            &&& after.status == Some((app.target + " ("@ + outcome(code) + ")"@, when))
            &&& after == (AppView { run: after.run, status: after.status, ..app })
            &&& app.exit_taken(Some((code, msgs)), when) == (if app.run.awaiting {
                after
            } else {
                app
            })
            &&& app.exit_taken(None, when) == app
        }),
{
}

/// Answers are taken in where they are awaited, and only once: tasks are then selected from the
/// first on, and the selected project stays.
pub proof fn law_answers(app: AppView, tasks: Seq<TaskView>, projects: Seq<ProjectView>)
    ensures
        app.task_rx ==> app.tasks_taken(Some(tasks)) == (AppView {
            tasks,
            task_index: 0,
            loading_tasks: false,
            task_rx: false,
            ..app
        }),
        !app.task_rx ==> app.tasks_taken(Some(tasks)) == app,
        app.tasks_taken(None) == app,
        app.project_rx ==> app.projects_taken(Some(projects)) == (AppView {
            projects,
            project_rx: false,
            ..app
        }),
        !app.project_rx ==> app.projects_taken(Some(projects)) == app,
        app.projects_taken(None) == app,
{
}

/// All that has come in is taken in together.
pub proof fn law_updates_are_all_taken(app: AppView, updates: UpdatesView, when: Instant)
    ensures
        ({
            let after = app.updated(updates, when);
            &&& updates.exit matches Some((code, _)) ==> app.run.awaiting ==> after.run.finished
                && after.run.exit_code == code
            &&& !app.run.awaiting || updates.exit is None ==> after.run == app.run && after.status
                == app.status
            &&& app.task_rx && updates.tasks is Some ==> after.tasks == updates.tasks->0
                && after.task_index == 0 && !after.loading_tasks
            &&& !app.task_rx || updates.tasks is None ==> after.tasks == app.tasks
                && after.task_index == app.task_index
            &&& app.project_rx && updates.projects is Some ==> after.projects
                == updates.projects->0
            &&& !app.project_rx || updates.projects is None ==> after.projects == app.projects
            &&& after.project_index == app.project_index
        }),
{
}

/// The processes are those of the run in the foreground, then of those in the background, in their
/// order; and those that are reported keep that order.
pub proof fn law_processes(app: AppView, pids: Seq<u32>, pid: u32)
    ensures
        app.pids().len() == app.background.len() + 1,
        app.pids()[0] == app.run.child_pid,
        forall|i: int|
            0 <= i < app.background.len() ==> (#[trigger] app.background[i]).run.child_pid
                == app.pids()[i + 1],
        nonzero(Seq::<u32>::empty()).len() == 0,
        pid != 0 ==> nonzero(pids.push(pid)) == nonzero(pids).push(pid),
        nonzero(pids.push(0)) == nonzero(pids),
{
    assert(pids.push(pid).drop_last() == pids);
    assert(pids.push(0).drop_last() == pids);
}

/// A process is recorded for the run that it belongs to, and nothing else changes.
pub proof fn law_process_is_recorded(app: AppView, target: Seq<char>, pid: u32)
    requires
        app.valid(),
    ensures
        ({
            let after = app.with_pid(target, pid);
            &&& app.target == target ==> after == (AppView {
                run: RunView { child_pid: pid, ..app.run },
                ..app
            })
            &&& app.target != target ==> after.run == app.run && after.background.len()
                == app.background.len()
            &&& app.target != target ==> forall|i: int|
                #![trigger app.background[i]]
                #![trigger after.background[i]]
                0 <= i < app.background.len() ==> after.background[i] == (
                if app.background[i].target == target {
                    DetachedView {
                        target,
                        run: RunView { child_pid: pid, ..app.background[i].run },
                    }
                } else {
                    app.background[i]
                })
        }),
{
    lemma_place_of(app.background, target);
}

} // verus!
