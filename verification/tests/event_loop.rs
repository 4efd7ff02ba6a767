use moon_tui::app::{Action, App, Mode};
use moon_tui::event_loop::EventLoop;
use moon_tui::moon::Project;

fn with_projects() -> App {
    let mut app = App::new();
    for id in ["web", "api"] {
        app.projects.push(Project { id: id.into(), tags: vec![] });
    }
    app
}

#[test]
fn output_is_polled_only_while_it_shows() {
    let mut app = App::new();
    assert!(!app.wants_output());
    assert_eq!(app.poll_timeout(), 100);
    app.mode = Mode::Output;
    assert!(app.wants_output());
    assert_eq!(app.poll_timeout(), 100);
    app.line_rx = true;
    assert_eq!(app.poll_timeout(), 16);
    app.output_finished = true;
    assert_eq!(app.poll_timeout(), 100);
    app.output_finished = false;
    app.mode = Mode::Normal;
    assert_eq!(app.poll_timeout(), 100);
}

#[test]
fn a_change_of_project_queries_its_tasks() {
    let mut app = with_projects();
    let mut events = EventLoop::new(&app);
    let queries = events.after_keys(&mut app, 0);
    assert!(queries.tasks.is_none() && queries.projects.is_none());
    app.handle_action(Action::MoveDown);
    let queries = events.after_keys(&mut app, 0);
    assert_eq!(queries.tasks, Some(["query", "tasks", "--project", "api"].map(String::from).into()));
    assert!(queries.projects.is_none());
    assert!(app.loading_tasks && app.task_rx);
    assert_eq!(events.last_project_index, 1);
    assert!(events.after_keys(&mut app, 0).tasks.is_none());
    app.project_index = 9;
    assert!(events.after_keys(&mut app, 0).tasks.is_none());
    assert_eq!(events.last_project_index, 9);
}

#[test]
fn a_refresh_runs_to_its_end() {
    let mut app = with_projects();
    let mut events = EventLoop::new(&app);
    app.handle_action(Action::Refresh);
    assert_eq!(app.status_text(), Some("Refreshing..."));
    assert!(app.is_refreshing(4));
    assert!(!app.is_refreshing(5));
    assert!(events.after_keys(&mut app, 5).projects.is_none());
    assert!(!app.project_rx);
    let queries = events.after_keys(&mut app, 0);
    assert_eq!(queries.projects, Some(["query", "projects"].map(String::from).into()));
    assert!(app.project_rx);
    let query = app.on_projects_updated(0);
    assert_eq!(query, Some(["query", "tasks", "--project", "web"].map(String::from).into()));
    assert_eq!(app.status_text(), Some("Refreshed."));
    assert!(!app.is_refreshing(0));
    assert!(events.after_keys(&mut app, 0).projects.is_none());
}

#[test]
fn the_end_of_a_refresh_is_timed() {
    let when = std::time::Instant::now();
    let mut app = with_projects();
    app.handle_action(Action::Refresh);
    app.on_projects_updated_at(0, when);
    assert_eq!(app.status_message, Some(("Refreshed.".to_string(), when)));
}

#[test]
fn new_projects_leave_another_status() {
    let mut app = App::new();
    app.set_status("busy".into());
    assert_eq!(app.on_projects_updated(0), None);
    assert_eq!(app.status_text(), Some("busy"));
    assert!(!app.task_rx);
}
