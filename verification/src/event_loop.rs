//! What the event loop decides between looking for updates, drawing and reading keys.

use std::time::Instant;

use vstd::prelude::*;
use vstd::string::StringExecFns;

use crate::app::{status_at_age, Action, App, AppView, Mode};
use crate::moon::{projects_query, tasks_query};
use crate::text::texts;

verus! {

/// The arguments of a query, where there is one.
pub open spec fn query_view(args: Option<Vec<String>>) -> Option<Seq<Seq<char>>> {
    match args {
        Some(a) => Some(texts(a@)),
        None => None,
    }
}

impl AppView {
    /// Whether the status says that a refresh is under way, when it is that many seconds old.
    pub open spec fn refreshing(self, seconds: int) -> bool {
        status_at_age(self.status, seconds) == Some("Refreshing..."@)
    }

    /// With a query for the tasks of the selected project under way, where one is selected.
    pub open spec fn querying_tasks(self) -> AppView {
        match self.selected_project() {
            Some(_) => AppView { task_rx: true, loading_tasks: true, ..self },
            None => self,
        }
    }

    /// The query for the tasks of the selected project, where one is selected.
    pub open spec fn selected_query(self) -> Option<Seq<Seq<char>>> {
        match self.selected_project() {
            Some(p) => Some(tasks_query(p.id)),
            None => None,
        }
    }

    /// After projects have come in: the tasks of the selected one are queried, and a refresh is
    /// over.
    pub open spec fn with_new_projects(self, seconds: int, when: Instant) -> AppView {
        if self.refreshing(seconds) {
            self.querying_tasks().with_status("Refreshed."@, when)
        } else {
            self.querying_tasks()
        }
    }

    /// How long to wait for a key, in milliseconds: short while the output of a running task is
    /// in view.
    pub open spec fn wait_millis(self) -> u64 {
        if self.mode == Mode::Output && self.is_running_task() {
            16
        } else {
            100
        }
    }
}

impl AppView {
    /// After the keys that were pending, where `last` was the selected project before them and the
    /// status is that many seconds old: tasks are queried if the selection has changed, and
    /// projects if a refresh was asked for.
    pub open spec fn after_keys(self, last: int, seconds: int) -> AppView {
        let selected = if self.project_index != last {
            self.querying_tasks()
        } else {
            self
        };
        if self.refreshing(seconds) {
            AppView { project_rx: true, ..selected }
        } else {
            selected
        }
    }

    /// The query for tasks after the keys that were pending, where there is one.
    pub open spec fn tasks_wanted(self, last: int) -> Option<Seq<Seq<char>>> {
        if self.project_index != last {
            self.selected_query()
        } else {
            None
        }
    }

    /// The query for projects after the keys that were pending, where there is one.
    pub open spec fn projects_wanted(self, seconds: int) -> Option<Seq<Seq<char>>> {
        if self.refreshing(seconds) {
            Some(projects_query())
        } else {
            None
        }
    }
}

/// What the event loop remembers: the project that was selected when it last looked.
#[derive(Debug)]
pub struct EventLoop {
    pub last_project_index: usize,
}

/// The queries that are to be sent.
#[derive(Debug)]
pub struct Queries {
    pub tasks: Option<Vec<String>>,
    pub projects: Option<Vec<String>>,
}

impl App {
    /// Whether pending output is to be taken in: only while it is in view. In normal mode no work
    /// is done for it, so that the panels stay responsive whatever the volume of output is.
    pub fn wants_output(&self) -> (wanted: bool)
        ensures
            wanted == (self@.mode == Mode::Output),
    {
        self.mode == Mode::Output
    }

    /// How long to wait for a key, in milliseconds.
    pub fn poll_timeout(&self) -> (millis: u64)
        ensures
            millis == self@.wait_millis(),
    {
        if self.mode == Mode::Output && self.is_running_task() {
            16
        } else {
            100
        }
    }

    /// Whether the status says that a refresh is under way, when it is that old.
    pub fn is_refreshing(&self, seconds: u64) -> (refreshing: bool)
        ensures
            refreshing == self@.refreshing(seconds as int),
    {
        match self.status_text_after(seconds) {
            Some(text) => {
                let text = String::from_str(text);
                text == String::from_str("Refreshing...")
            },
            None => false,
        }
    }

    /// Marks that the tasks of the selected project are queried. Gives the query.
    fn query_selected(&mut self) -> (query: Option<Vec<String>>)
        ensures
            final(self)@ == old(self)@.querying_tasks(),
            query_view(query) == old(self)@.selected_query(),
            final(self).status_message == old(self).status_message,
    {
        let id = match self.selected_project() {
            Some(p) => p.id.clone(),
            None => {
                return None;
            },
        };
        Some(self.spawn_task_query(id.as_str()))
    }

    /// What follows once projects have come in, where the status message is that old. Gives the
    /// query for the tasks of the selected project.
    pub fn on_projects_updated(&mut self, seconds: u64) -> (query: Option<Vec<String>>)
        ensures
            exists|when: Instant|
                final(self)@ == #[trigger] old(self)@.with_new_projects(seconds as int, when),
            query_view(query) == old(self)@.selected_query(),
            old(self)@.valid() ==> final(self)@.valid(),
            !old(self)@.refreshing(seconds as int) ==> final(self).status_message == old(
                self,
            ).status_message,
    {
        self.on_projects_updated_at(seconds, Instant::now())
    }

    /// What follows once projects have come in, at that time, where the status message is that
    /// many seconds old. Gives the query for the tasks of the selected project.
    pub fn on_projects_updated_at(&mut self, seconds: u64, when: Instant) -> (query: Option<
        Vec<String>,
    >)
        ensures
            final(self)@ == old(self)@.with_new_projects(seconds as int, when),
            query_view(query) == old(self)@.selected_query(),
            old(self)@.valid() ==> final(self)@.valid(),
            !old(self)@.refreshing(seconds as int) ==> final(self).status_message == old(
                self,
            ).status_message,
    {
        let query = self.query_selected();
        if self.is_refreshing(seconds) {
            self.set_status_at(String::from_str("Refreshed."), when);
        }
        query
    }
}

impl EventLoop {
    /// At the start.
    pub fn new(app: &App) -> (event_loop: EventLoop)
        ensures
            event_loop.last_project_index == app@.project_index,
    {
        EventLoop { last_project_index: app.project_index }
    }

    /// What follows once the pending keys have been handled, where the status message is that
    /// old: if another project is selected its tasks are queried, and if a refresh was asked for
    /// the projects are.
    pub fn after_keys(&mut self, app: &mut App, seconds: u64) -> (queries: Queries)
        ensures
            final(self).last_project_index == old(app)@.project_index,
            final(app)@ == old(app)@.after_keys(
                old(self).last_project_index as int,
                seconds as int,
            ),
            query_view(queries.tasks) == old(app)@.tasks_wanted(old(self).last_project_index as int),
            query_view(queries.projects) == old(app)@.projects_wanted(seconds as int),
            ({
                let changed = old(app)@.project_index != old(self).last_project_index;
                let selected = if changed {
                    old(app)@.querying_tasks()
                } else {
                    old(app)@
                };
                &&& query_view(queries.tasks) == (if changed {
                    old(app)@.selected_query()
                } else {
                    None
                })
                &&& query_view(queries.projects) == (if old(app)@.refreshing(seconds as int) {
                    Some(projects_query())
                } else {
                    None
                })
                &&& final(app)@ == (if old(app)@.refreshing(seconds as int) {
                    AppView { project_rx: true, ..selected }
                } else {
                    selected
                })
            }),
            old(app)@.valid() ==> final(app)@.valid(),
            final(app).status_message == old(app).status_message,
    {
        let mut tasks: Option<Vec<String>> = None;
        if app.project_index != self.last_project_index {
            self.last_project_index = app.project_index;
            tasks = app.query_selected();
        }
        let projects = if app.is_refreshing(seconds) {
            Some(app.spawn_project_query())
        } else {
            None
        };
        Queries { tasks, projects }
    }
}

// Laws.

/// A refresh comes to an end: once the projects have come in, the status does not ask for them
/// again.
pub proof fn law_refresh_ends(app: AppView, seconds: int, when: Instant, later: int)
    requires
        app.refreshing(seconds),
    ensures
        !app.with_new_projects(seconds, when).refreshing(later),
{
    reveal_strlit("Refreshing...");
    reveal_strlit("Refreshed.");
    assert("Refreshing..."@.len() != "Refreshed."@.len());
}

/// Asking for a refresh has the projects queried, as long as the status shows.
pub proof fn law_refresh_queries_projects(app: AppView, when: Instant, seconds: int)
    ensures
        app.step(Action::Refresh, when).0.refreshing(seconds) <==> seconds < 5,
{
}

/// Keys are waited for no longer than 16 milliseconds while the output of a running task is in
/// view, and no longer than 100 otherwise.
pub proof fn law_waiting(app: AppView)
    ensures
        app.mode == Mode::Output && app.run.listening && !app.run.finished ==> app.wait_millis()
            == 16,
        app.mode == Mode::Normal || !app.run.listening || app.run.finished ==> app.wait_millis()
            == 100,
{
}

/// A refresh is under way while the status says so, which it does for less than five seconds.
pub proof fn law_refreshing(app: AppView, seconds: int)
    ensures
        app.refreshing(seconds) <==> (app.status matches Some((text, _)) && text == "Refreshing..."@
            && seconds < 5),
{
}

/// Where a project is selected its tasks are asked for by its id, and noted as loading; where none
/// is, nothing is asked.
pub proof fn law_selected_project_is_queried(app: AppView)
    ensures
        app.selected_project() matches Some(project) ==> {
            &&& app.selected_query() == Some(
                seq!["query"@, "tasks"@, "--project"@, project.id],
            )
            &&& app.querying_tasks() == (AppView { task_rx: true, loading_tasks: true, ..app })
        },
        app.selected_project() is None ==> app.selected_query() is None && app.querying_tasks()
            == app,
{
}

/// Once projects have come in a refresh is said to be over, and any other status stays.
pub proof fn law_new_projects(app: AppView, seconds: int, when: Instant)
    ensures
        app.refreshing(seconds) ==> app.with_new_projects(seconds, when).status == Some(
            ("Refreshed."@, when),
        ),
        !app.refreshing(seconds) ==> app.with_new_projects(seconds, when).status == app.status,
        ({
            let after = app.with_new_projects(seconds, when);
            &&& app.selected_project() is Some ==> after == (AppView {
                task_rx: true,
                loading_tasks: true,
                status: after.status,
                ..app
            })
            &&& app.selected_project() is None ==> after == (AppView { status: after.status, ..app })
        }),
{
}

/// Tasks are asked for when another project has been selected, and only then; projects when a
/// refresh shows in the status, and only then. Nothing else changes by it.
pub proof fn law_what_is_asked_after_keys(app: AppView, last: int, seconds: int)
    ensures
        app.tasks_wanted(last) is Some <==> app.project_index != last && app.selected_project()
            is Some,
        app.tasks_wanted(last) matches Some(query) ==> query == seq![
            "query"@,
            "tasks"@,
            "--project"@,
            app.selected_project()->0.id,
        ],
        app.projects_wanted(seconds) is Some <==> app.refreshing(seconds),
        app.projects_wanted(seconds) matches Some(query) ==> query == seq!["query"@, "projects"@],
        app.after_keys(last, seconds) == (AppView {
            task_rx: app.task_rx || app.tasks_wanted(last) is Some,
            loading_tasks: app.loading_tasks || app.tasks_wanted(last) is Some,
            project_rx: app.project_rx || app.projects_wanted(seconds) is Some,
            ..app
        }),
{
}

} // verus!
