use std::time::{Duration, Instant};

use moon_tui::app::{Action, App, Mode, Panel};
use moon_tui::moon::{OutputMsg, Project, Task};
use moon_tui::runs::Effect;
use moon_tui::updates::Updates;

fn test_task(id: &str, interactive: bool) -> Task {
    Task {
        id: id.into(),
        command: "cargo".into(),
        args: vec![id.into()],
        script: String::new(),
        target: format!("@test:{id}"),
        toolchains: vec!["rust".into()],
        interactive,
        task_type: "test".into(),
        deps: vec![],
    }
}

fn project(id: &str) -> Project {
    Project { id: id.into(), tags: vec![] }
}

fn workspace() -> App {
    let mut app = App::new();
    app.projects = vec![project("web"), project("api")];
    app.tasks = vec![test_task("build", false), test_task("dev", true), test_task("lint", false)];
    app
}

fn no_updates() -> Updates {
    Updates { exit: None, tasks: None, projects: None }
}

fn line(text: &str) -> OutputMsg {
    OutputMsg::Append(text.into())
}

#[test]
fn app_starts_in_normal_mode() {
    let app = App::new();
    assert!(app.running);
    assert_eq!(app.mode, Mode::Normal);
    assert_eq!(app.panel, Panel::Projects);
}

#[test]
fn quit_action_stops_app() {
    let mut app = App::new();
    app.handle_action(Action::Quit);
    assert!(!app.running);
}

#[test]
fn nav_right_does_nothing_without_tasks() {
    let mut app = App::new();
    app.handle_action(Action::NavRight);
    assert_eq!(app.panel, Panel::Projects);
}

#[test]
fn nav_right_switches_to_tasks_when_available() {
    let mut app = App::new();
    app.tasks = vec![Task {
        id: "test".into(),
        command: "cargo".into(),
        args: vec!["test".into()],
        script: String::new(),
        target: "@test:test".into(),
        toolchains: vec!["rust".into()],
        interactive: false,
        task_type: "test".into(),
        deps: vec![],
    }];
    app.handle_action(Action::NavRight);
    assert_eq!(app.panel, Panel::Tasks);
}

#[test]
fn back_from_tasks_goes_to_projects() {
    let mut app = App::new();
    app.tasks = vec![Task {
        id: "test".into(),
        command: "cargo".into(),
        args: vec!["test".into()],
        script: String::new(),
        target: "@test:test".into(),
        toolchains: vec!["rust".into()],
        interactive: false,
        task_type: "test".into(),
        deps: vec![],
    }];
    app.panel = Panel::Tasks;
    app.handle_action(Action::Back);
    assert_eq!(app.panel, Panel::Projects);
}

#[test]
fn move_down_clamps_to_list_length() {
    let mut app = App::new();
    app.projects = vec![
        Project { id: "a".into(), tags: vec![] },
        Project { id: "b".into(), tags: vec![] },
    ];
    app.handle_action(Action::MoveDown);
    assert_eq!(app.project_index, 1);
    app.handle_action(Action::MoveDown);
    assert_eq!(app.project_index, 1); // clamped
}

#[test]
fn toggle_help() {
    let mut app = App::new();
    assert!(!app.show_help);
    app.handle_action(Action::ToggleHelp);
    assert!(app.show_help);
    app.handle_action(Action::ToggleHelp);
    assert!(!app.show_help);
}

#[test]
fn quit_in_output_mode_returns_to_panels() {
    let mut app = App::new();
    app.mode = Mode::Output;
    app.handle_action(Action::Quit);
    assert!(app.running);
    assert_eq!(app.mode, Mode::Normal);
    app.mode = Mode::Output;
    app.panel = Panel::Tasks;
    app.handle_action(Action::Back);
    assert_eq!(app.mode, Mode::Normal);
    assert_eq!(app.panel, Panel::Tasks);
}

#[test]
fn half_pages_and_jumps() {
    let mut app = App::new();
    for i in 0..25 {
        app.projects.push(project(&format!("p{i}")));
    }
    app.handle_action(Action::HalfPageDown);
    assert_eq!(app.project_index, 10);
    app.handle_action(Action::HalfPageDown);
    app.handle_action(Action::HalfPageDown);
    assert_eq!(app.project_index, 24);
    app.handle_action(Action::HalfPageUp);
    assert_eq!(app.project_index, 14);
    app.handle_action(Action::HalfPageUp);
    app.handle_action(Action::HalfPageUp);
    assert_eq!(app.project_index, 0);
    app.handle_action(Action::JumpBottom);
    assert_eq!(app.project_index, 24);
    app.handle_action(Action::MoveUp);
    assert_eq!(app.project_index, 23);
    app.handle_action(Action::JumpTop);
    assert_eq!(app.project_index, 0);
    app.handle_action(Action::MoveUp);
    assert_eq!(app.project_index, 0);
}

#[test]
fn moves_in_an_empty_list_do_nothing() {
    let mut app = App::new();
    for action in [
        Action::MoveDown,
        Action::JumpBottom,
        Action::HalfPageDown,
        Action::RunAll,
        Action::ForceRun,
        Action::InteractiveRun,
        Action::TaskInfo,
        Action::Reattach,
        Action::Enter,
        Action::Nothing,
    ] {
        let effect = app.handle_action(action);
        assert!(matches!(effect, Effect::Nothing));
    }
    assert_eq!(app.project_index, 0);
    assert!(!app.show_task_info);
    assert_eq!(app.mode, Mode::Normal);
}

#[test]
fn a_selection_beyond_the_list_is_brought_back() {
    let mut app = workspace();
    app.project_index = 7;
    assert!(app.selected_project().is_none());
    app.handle_action(Action::MoveDown);
    assert_eq!(app.project_index, 7);
    app.handle_action(Action::HalfPageDown);
    assert_eq!(app.project_index, 1);
}

#[test]
fn enter_opens_the_tasks_then_runs_one() {
    let mut app = workspace();
    app.task_index = 2;
    let effect = app.handle_action(Action::Enter);
    assert!(matches!(effect, Effect::Nothing));
    assert_eq!(app.panel, Panel::Tasks);
    assert_eq!(app.task_index, 0);
    assert_eq!(app.list_len(), 3);
    match app.handle_action(Action::Enter) {
        Effect::Run { project_id, task_id, force } => {
            assert_eq!(project_id, "web");
            assert_eq!(task_id, "build");
            assert!(!force);
        }
        other => panic!("unexpected {other:?}"),
    }
    assert_eq!(app.mode, Mode::Output);
    assert_eq!(app.output_target, "web:build");
    assert!(app.is_running_task());
    assert_eq!(app.status_text(), Some("Running web:build..."));
}

#[test]
fn force_run_passes_force_and_ci_from_projects() {
    let mut app = workspace();
    match app.handle_action(Action::ForceRun) {
        Effect::Run { project_id, task_id, force } => {
            assert_eq!((project_id.as_str(), task_id.as_str(), force), ("web", "ci", true));
        }
        other => panic!("unexpected {other:?}"),
    }
    assert_eq!(app.status_text_after(0), Some("Force running web:ci..."));
    let mut app = workspace();
    match app.handle_action(Action::RunAll) {
        Effect::Run { project_id, task_id, force } => {
            assert_eq!((project_id.as_str(), task_id.as_str(), force), ("web", "ci", false));
        }
        other => panic!("unexpected {other:?}"),
    }
    let mut app = workspace();
    app.panel = Panel::Tasks;
    app.task_index = 2;
    match app.handle_action(Action::ForceRun) {
        Effect::Run { project_id, task_id, force } => {
            assert_eq!((project_id.as_str(), task_id.as_str(), force), ("web", "lint", true));
        }
        other => panic!("unexpected {other:?}"),
    }
}

#[test]
fn interactive_tasks_get_a_terminal_of_the_pane_size() {
    let mut app = workspace();
    app.panel = Panel::Tasks;
    app.task_index = 1;
    match app.handle_action(Action::Enter) {
        Effect::RunInteractive { project_id, task_id, force, rows, cols } => {
            assert_eq!((project_id.as_str(), task_id.as_str(), force), ("web", "dev", false));
            assert_eq!((rows, cols), (20, 78));
        }
        other => panic!("unexpected {other:?}"),
    }
    assert!(app.stdin_tx);
    assert!(app.vt.is_some());
    assert_eq!(app.status_text(), Some("Interactive: web:dev..."));

    let mut app = workspace();
    app.terminal_size = Some((120, 40));
    app.panel = Panel::Tasks;
    match app.handle_action(Action::InteractiveRun) {
        Effect::RunInteractive { task_id, rows, cols, .. } => {
            assert_eq!(task_id, "build");
            assert_eq!((rows, cols), (36, 118));
        }
        other => panic!("unexpected {other:?}"),
    }
    let mut app = workspace();
    assert!(matches!(app.handle_action(Action::InteractiveRun), Effect::Nothing));
}

#[test]
fn interactive_tasks_can_be_forced() {
    let mut app = workspace();
    app.panel = Panel::Tasks;
    app.task_index = 1;
    assert!(app.opens_terminal(&Action::ForceRun));
    match app.handle_action(Action::ForceRun) {
        Effect::RunInteractive { project_id, task_id, force, .. } => {
            assert_eq!((project_id.as_str(), task_id.as_str(), force), ("web", "dev", true));
        }
        other => panic!("unexpected {other:?}"),
    }
    // It runs now, so it is not started again.
    assert!(!app.opens_terminal(&Action::ForceRun));
    assert!(matches!(app.handle_action(Action::InteractiveRun), Effect::Drain));
}

#[test]
fn the_status_holds_the_time_at_which_it_was_set() {
    let before = Instant::now() - Duration::from_secs(3);
    let mut app = workspace();
    app.set_status_at("hello".into(), before);
    assert_eq!(app.status_message, Some(("hello".to_string(), before)));
    assert_eq!(app.status_seconds(), Some(3));
    // Moving about leaves it as it is.
    for action in [Action::MoveDown, Action::NavRight, Action::JumpTop, Action::Reattach, Action::Nothing] {
        app.handle_action(action);
        assert_eq!(app.status_message, Some(("hello".to_string(), before)));
    }
    let later = before + Duration::from_secs(1);
    app.handle_action_at(Action::Refresh, later);
    assert_eq!(app.status_message, Some(("Refreshing...".to_string(), later)));
    app.panel = Panel::Tasks;
    app.project_index = 0;
    app.task_index = 0;
    app.handle_action_at(Action::Enter, before);
    assert_eq!(app.status_message, Some(("Running web:build...".to_string(), before)));
    app.poll_async_at(no_updates(), later);
    assert_eq!(app.status_message, Some(("Running web:build...".to_string(), before)));
    app.poll_async_at(Updates { exit: Some((Some(0), vec![])), ..no_updates() }, later);
    assert_eq!(app.status_message, Some(("web:build (done, exit 0)".to_string(), later)));
}

#[test]
fn switching_loses_no_output() {
    let when = Instant::now();
    let mut app = workspace();
    assert!(!app.try_reattach(&"web:build".to_string(), when));
    app.start_task_run("web", "build", false, when);
    app.poll_output(vec![line("a1")]);
    app.record_child_pid(&"web:build".to_string(), 7);
    app.start_task_run("web", "lint", false, when);
    app.poll_output(vec![line("b1"), line("b2")]);
    assert!(app.try_reattach(&"web:build".to_string(), when));
    app.poll_output(vec![line("a2")]);
    assert_eq!(app.output_target, "web:build");
    assert_eq!(app.output_lines, vec!["a1", "a2"]);
    assert!(app.line_rx && app.exit_code_rx);
    assert_eq!(app.child_pid, 7);
    assert!(app.try_reattach(&"web:lint".to_string(), when));
    assert_eq!(app.output_lines, vec!["b1", "b2"]);
    assert_eq!(app.status_message, Some(("Re-attached to web:lint".to_string(), when)));
}

#[test]
fn a_second_task_sends_the_first_to_the_background() {
    let mut app = workspace();
    app.panel = Panel::Tasks;
    app.handle_action(Action::Enter);
    app.poll_output(vec![line("one"), line("two")]);
    app.record_child_pid(&"web:build".to_string(), 41);
    app.handle_action(Action::Quit);
    app.task_index = 2;
    assert!(matches!(app.handle_action(Action::Enter), Effect::Run { .. }));
    assert_eq!(app.output_target, "web:lint");
    assert!(app.output_lines.is_empty());
    assert_eq!(app.background_tasks.len(), 1);
    assert_eq!(app.background_tasks[0].0, "web:build");
    app.record_child_pid(&"web:lint".to_string(), 42);
    assert_eq!(app.all_child_pids(), vec![42, 41]);

    // Asking for the first again brings its run back, without starting anything.
    app.task_index = 0;
    assert!(matches!(app.handle_action(Action::ForceRun), Effect::Drain));
    assert_eq!(app.output_target, "web:build");
    assert_eq!(app.output_lines, vec!["one", "two"]);
    assert_eq!(app.output_scroll, 1);
    assert_eq!(app.status_text(), Some("Re-attached to web:build"));
    assert_eq!(app.child_pid, 41);
    app.poll_output(vec![line("three")]);
    assert_eq!(app.output_lines, vec!["one", "two", "three"]);
    assert_eq!(app.output_scroll, 2);
    assert_eq!(app.background_tasks.len(), 1);
    assert_eq!(app.background_tasks[0].0, "web:lint");
    app.record_child_pid(&"web:lint".to_string(), 0);
    assert_eq!(app.all_child_pids(), vec![41]);
}

#[test]
fn a_finished_task_is_started_again() {
    let mut app = workspace();
    app.panel = Panel::Tasks;
    app.handle_action(Action::Enter);
    app.poll_async(Updates { exit: Some((Some(0), vec![line("last")])), ..no_updates() });
    assert!(app.output_finished);
    assert!(!app.is_running_task());
    assert_eq!(app.output_lines, vec!["last"]);
    assert_eq!(app.status_text(), Some("web:build (done, exit 0)"));
    assert!(matches!(app.handle_action(Action::Enter), Effect::Run { .. }));
    assert!(app.output_lines.is_empty());
    assert!(app.background_tasks.is_empty());
}

#[test]
fn exits_are_reported() {
    for (code, text) in [
        (Some(0), "web:build (done, exit 0)"),
        (Some(2), "web:build (FAILED, exit 2)"),
        (Some(-7), "web:build (FAILED, exit -7)"),
        (None, "web:build (FAILED, exit -1)"),
    ] {
        let mut app = workspace();
        app.panel = Panel::Tasks;
        app.handle_action(Action::Enter);
        app.poll_async(Updates { exit: Some((code, vec![])), ..no_updates() });
        assert_eq!(app.status_text(), Some(text));
        assert_eq!(app.output_exit_code, code);
        assert!(!app.line_rx && !app.exit_code_rx && !app.stdin_tx);
    }
    // Nothing is awaited before the first run.
    let mut app = workspace();
    app.poll_async(Updates { exit: Some((Some(0), vec![line("x")])), ..no_updates() });
    assert!(!app.output_finished);
    assert!(app.output_lines.is_empty());
}

#[test]
fn answers_are_taken_in_where_they_are_awaited() {
    let mut app = App::new();
    let updated = app.poll_async(Updates {
        projects: Some(vec![project("web")]),
        tasks: Some(vec![test_task("build", false)]),
        ..no_updates()
    });
    assert!(!updated);
    assert!(app.projects.is_empty() && app.tasks.is_empty());

    assert_eq!(app.spawn_project_query(), vec!["query", "projects"]);
    assert_eq!(app.spawn_task_query("web"), vec!["query", "tasks", "--project", "web"]);
    assert!(app.loading_tasks && app.task_rx && app.project_rx);
    app.task_index = 4;
    let updated = app.poll_async(Updates {
        projects: Some(vec![project("web")]),
        tasks: Some(vec![test_task("build", false)]),
        ..no_updates()
    });
    assert!(updated);
    assert_eq!(app.selected_project().map(|p| p.id.as_str()), Some("web"));
    assert_eq!(app.selected_task().map(|t| t.id.as_str()), Some("build"));
    assert!(!app.loading_tasks && !app.task_rx && !app.project_rx);
    assert_eq!(app.task_index, 0);
}

#[test]
fn status_shows_for_less_than_five_seconds() {
    let mut app = App::new();
    assert_eq!(app.status_text(), None);
    assert_eq!(app.status_seconds(), None);
    app.set_status("hello".into());
    assert_eq!(app.status_text(), Some("hello"));
    assert_eq!(app.status_seconds(), Some(0));
    assert_eq!(app.status_text_after(4), Some("hello"));
    assert_eq!(app.status_text_after(5), None);
}

#[test]
fn an_old_status_does_not_show() {
    let mut app = App::new();
    let before = std::time::Instant::now() - std::time::Duration::from_millis(6500);
    app.status_message = Some(("old".into(), before));
    assert_eq!(app.status_seconds(), Some(6));
    assert_eq!(app.status_text(), None);
}

#[test]
fn task_info_toggles_only_on_tasks() {
    let mut app = workspace();
    app.handle_action(Action::TaskInfo);
    assert!(!app.show_task_info);
    app.panel = Panel::Tasks;
    app.handle_action(Action::TaskInfo);
    assert!(app.show_task_info);
    app.handle_action(Action::TaskInfo);
    assert!(!app.show_task_info);
}

#[test]
fn reattach_shows_output_that_is_there() {
    let mut app = workspace();
    app.panel = Panel::Tasks;
    app.handle_action(Action::Enter);
    app.poll_output(vec![line("a"), line("b"), line("c")]);
    app.handle_action(Action::Quit);
    app.output_follow = false;
    app.output_scroll = 0;
    assert!(matches!(app.handle_action(Action::Reattach), Effect::Drain));
    assert_eq!(app.mode, Mode::Output);
    assert!(app.output_follow);
    assert_eq!(app.output_scroll, 2);
}

#[test]
fn output_is_capped_at_the_last_lines() {
    let mut app = workspace();
    app.panel = Panel::Tasks;
    app.handle_action(Action::Enter);
    app.poll_output((0..10_005).map(|i| line(&format!("{i}"))).collect());
    assert_eq!(app.output_lines.len(), 10_000);
    assert_eq!(app.output_lines[0], "5");
    assert_eq!(app.output_lines[9_999], "10004");
    assert_eq!(app.output_scroll, 9_999);
    app.output_follow = false;
    app.output_scroll = 3;
    app.poll_output(vec![line("x"), line("y")]);
    assert_eq!(app.output_lines[0], "7");
    assert_eq!(app.output_scroll, 1);
}

#[test]
fn batches_give_the_same_as_one() {
    let all: Vec<String> = (0..12_000).map(|i| format!("line {i}")).collect();
    let mut once = workspace();
    once.panel = Panel::Tasks;
    once.handle_action(Action::Enter);
    once.output_follow = false;
    once.output_scroll = 2_500;
    once.poll_output(all.iter().map(|l| line(l)).collect());
    let mut parts = workspace();
    parts.panel = Panel::Tasks;
    parts.handle_action(Action::Enter);
    parts.output_follow = false;
    parts.output_scroll = 2_500;
    for chunk in all.chunks(700) {
        parts.poll_output(chunk.iter().map(|l| line(l)).collect());
    }
    assert_eq!(once.output_lines, parts.output_lines);
    assert_eq!(once.output_scroll, parts.output_scroll);
    assert_eq!(once.output_scroll, 500);
}

#[test]
fn actions_that_open_a_terminal_are_told() {
    let mut app = workspace();
    assert!(!app.opens_terminal(&Action::Enter));
    assert!(!app.opens_terminal(&Action::InteractiveRun));
    app.panel = Panel::Tasks;
    assert!(!app.opens_terminal(&Action::Enter));
    assert!(app.opens_terminal(&Action::InteractiveRun));
    assert!(!app.opens_terminal(&Action::RunAll));
    app.task_index = 1;
    assert!(app.opens_terminal(&Action::Enter));
    assert!(app.opens_terminal(&Action::ForceRun));
    app.handle_action(Action::Enter);
    // The task is running by now: it is shown instead.
    assert!(!app.opens_terminal(&Action::Enter));
    assert!(matches!(app.handle_action(Action::InteractiveRun), Effect::Drain));
}
