use moon_tui::ansi::{Color, Modifiers, Span, Style};
use moon_tui::app::{Action, App, Mode, Panel};
use moon_tui::moon::{Project, Task};
use moon_tui::ui::{
    areas_of, can_draw, column_shares, draw, info_line, lay_out, render, render_help,
    render_output, render_project_list, render_status_bar, render_task_info, render_task_list,
    render_title_bar, row_shares, Areas, MainPart, Rect, Share,
};

const BRAND: Color = Color::Rgb(212, 146, 125);
const GOLD: Color = Color::Rgb(229, 196, 145);

fn text(line: &[Span]) -> String {
    line.iter().map(|s| s.content.as_str()).collect()
}

fn area(width: u16, height: u16) -> Rect {
    Rect { x: 0, y: 0, width, height }
}

fn fg(color: Color) -> Style {
    Style { fg: Some(color), ..Style::plain() }
}

fn bold(color: Color) -> Style {
    fg(color).add_modifier(Modifiers::bold())
}

fn task(id: &str) -> Task {
    Task {
        id: id.into(),
        command: "cargo".into(),
        args: vec![id.into()],
        script: String::new(),
        target: format!("web:{id}"),
        toolchains: vec!["rust".into(), "node".into()],
        interactive: false,
        task_type: "".into(),
        deps: vec![],
    }
}

fn workspace() -> App {
    let mut app = App::new();
    app.projects = vec![
        Project { id: "web".into(), tags: vec!["ui".into(), "ts".into()] },
        Project { id: "api".into(), tags: vec![] },
    ];
    app.tasks = vec![task("build"), task("lint")];
    app
}

#[test]
fn title_bar() {
    let line = render_title_bar();
    assert_eq!(text(&line), " moon-tui \u{2014} workspace task runner");
    assert_eq!(line[0].style, bold(BRAND));
    assert_eq!(line[1].style, fg(Color::DarkGray));
}

#[test]
fn status_bar() {
    let mut app = workspace();
    assert_eq!(text(&render_status_bar(&app, 0)), " Projects | ? help | q quit");
    app.panel = Panel::Tasks;
    app.line_rx = true;
    assert_eq!(
        text(&render_status_bar(&app, 0)),
        " Tasks | \u{25cf} running (o: view) | ? help | q quit"
    );
    app.stdin_tx = true;
    assert_eq!(
        text(&render_status_bar(&app, 0)),
        " Tasks | \u{25cf} interactive (o: resume) | ? help | q quit"
    );
    app.set_status("Refreshed.".into());
    assert_eq!(text(&render_status_bar(&app, 4)), "Refreshed.");
    assert!(text(&render_status_bar(&app, 5)).starts_with(" Tasks"));
}

#[test]
fn project_list() {
    let mut app = workspace();
    let pane = render_project_list(&app);
    assert_eq!(pane.title, " Projects (2) ");
    assert_eq!(pane.border, BRAND);
    assert_eq!(text(&pane.lines[0]), "\u{25b8} web [ui, ts]");
    assert_eq!(pane.lines[0][1].style, bold(GOLD));
    assert_eq!(pane.lines[0][2].style, fg(Color::DarkGray));
    assert_eq!(text(&pane.lines[1]), "  api");
    assert_eq!(pane.lines[1][0].style, fg(Color::Gray));
    app.panel = Panel::Tasks;
    let pane = render_project_list(&app);
    assert_eq!(pane.border, Color::DarkGray);
    assert_eq!(pane.lines[0][0].style, fg(Color::White));
}

#[test]
fn task_list() {
    let mut app = workspace();
    app.task_index = 1;
    let pane = render_task_list(&app);
    assert_eq!(pane.title, " Tasks \u{2014} web (2) ");
    assert_eq!(pane.border, Color::DarkGray);
    assert_eq!(text(&pane.lines[1]), "  lint  (cargo lint)");
    assert_eq!(pane.lines[1][1].style, fg(Color::Gray));
    app.panel = Panel::Tasks;
    app.tasks[0].command = String::new();
    app.tasks[0].args = vec![];
    let pane = render_task_list(&app);
    assert_eq!(pane.border, BRAND);
    assert_eq!(text(&pane.lines[0]), "  build");
    assert_eq!(text(&pane.lines[1]), "\u{25b8} lint  (cargo lint)");
    assert_eq!(pane.lines[1][0].style, bold(GOLD));
    app.projects.clear();
    assert_eq!(render_task_list(&app).title, " Tasks \u{2014} none (2) ");
}

#[test]
fn output_titles_and_borders() {
    let mut app = workspace();
    app.output_target = "web:build".into();
    let pane = render_output(&mut app, 12);
    assert_eq!(pane.title, " Output \u{2014} web:build (running...) ");
    assert_eq!(pane.border, BRAND);
    assert_eq!(text(&pane.lines[0]), "Waiting for output...");
    assert_eq!(app.output_visible_height, 10);
    app.stdin_tx = true;
    assert_eq!(
        render_output(&mut app, 12).title,
        " Interactive \u{2014} web:build (Esc: detach) "
    );
    app.output_finished = true;
    let pane = render_output(&mut app, 1);
    assert_eq!(pane.title, " Output \u{2014} web:build (FAILED, exit -1) ");
    assert_eq!(pane.border, Color::Red);
    assert_eq!(text(&pane.lines[0]), "No output.");
    assert_eq!(app.output_visible_height, 0);
    app.output_exit_code = Some(0);
    let pane = render_output(&mut app, 12);
    assert_eq!(pane.title, " Output \u{2014} web:build (done, exit 0) ");
    assert_eq!(pane.border, Color::Green);
}

#[test]
fn the_window_follows_or_scrolls() {
    let mut app = workspace();
    app.output_lines = (0..50).map(|i| format!("\x1b[31m{i}\x1b[0m")).collect();
    let pane = render_output(&mut app, 12);
    assert_eq!(pane.lines.len(), 10);
    assert_eq!(text(&pane.lines[0]), "40");
    assert_eq!(text(&pane.lines[9]), "49");
    assert_eq!(pane.lines[9][0].style, fg(Color::Red));
    app.output_follow = false;
    app.output_scroll = 7;
    assert_eq!(text(&render_output(&mut app, 12).lines[0]), "7");
    app.output_scroll = 45;
    assert_eq!(text(&render_output(&mut app, 12).lines[0]), "40");
    assert_eq!(render_output(&mut app, 100).lines.len(), 50);
    assert!(render_output(&mut app, 2).lines.is_empty());
}

#[test]
fn help_is_centered() {
    let (rect, pane) = render_help(area(100, 40));
    assert_eq!(rect, Rect { x: 24, y: 6, width: 52, height: 27 });
    assert_eq!(pane.title, " Help ");
    assert_eq!(pane.lines.len(), 23);
    assert_eq!(text(&pane.lines[0]), " Keybindings ");
    assert_eq!(pane.lines[0][0].style, bold(BRAND));
    assert!(pane.lines[1].is_empty());
    assert_eq!(text(&pane.lines[3]), "  h/l  Switch panel (projects/tasks)");
    assert_eq!(text(&pane.lines[12]), "  I      Run interactive (Esc detach)");
    assert_eq!(text(&pane.lines[22]), "  ?    Toggle this help");
    assert_eq!(pane.lines[22][0].style, fg(GOLD));
    let (rect, _) = render_help(area(30, 10));
    assert_eq!(rect, Rect { x: 0, y: 0, width: 30, height: 10 });
}

#[test]
fn task_info() {
    let mut app = workspace();
    app.tasks[0].deps = vec!["api:build".into(), "lib:build".into()];
    let (rect, pane) = render_task_info(&app, area(101, 40)).unwrap();
    assert_eq!(rect, Rect { x: 15, y: 12, width: 70, height: 16 });
    assert_eq!(pane.title, " Task Info ");
    let lines: Vec<String> = pane.lines.iter().map(|l| text(l)).collect();
    assert_eq!(
        lines,
        vec![
            " web:build ",
            "",
            "  Task          build",
            "  Project       web",
            "  Command       cargo build",
            "  Type          \u{2014}",
            "  Toolchains    rust, node",
            "  Interactive   no",
            "",
            "  Dependencies",
            "    \u{2192} api:build",
            "    \u{2192} lib:build",
            "",
            "  i/Esc Close",
        ]
    );
    app.projects.clear();
    app.tasks[0].deps.clear();
    app.tasks[0].interactive = true;
    let (rect, pane) = render_task_info(&app, area(60, 8)).unwrap();
    assert_eq!(rect, Rect { x: 0, y: 0, width: 60, height: 8 });
    assert_eq!(text(&pane.lines[3]), "  Project       ?");
    assert_eq!(text(&pane.lines[7]), "  Interactive   yes");
    assert_eq!(pane.lines.len(), 10);
    app.task_index = 5;
    assert!(render_task_info(&app, area(60, 8)).is_none());
}

#[test]
fn labels_are_padded() {
    for label in ["", "Task", "exactly-14-chr", "longer than fourteen", "caf\u{e9}"] {
        let line = info_line(label, "v");
        assert_eq!(line[0].content, format!("  {label:<14}"));
        assert_eq!(line[1].content, "v");
    }
    assert_eq!(info_line("x", "")[1].content, "\u{2014}");
}

#[test]
fn the_terminal_is_divided() {
    let areas = lay_out(area(100, 30));
    assert_eq!(areas.title, Rect { x: 0, y: 0, width: 100, height: 1 });
    assert_eq!(areas.main, Rect { x: 0, y: 1, width: 100, height: 28 });
    assert_eq!(areas.status, Rect { x: 0, y: 29, width: 100, height: 1 });
    assert_eq!(areas.left, Rect { x: 0, y: 1, width: 40, height: 28 });
    assert_eq!(areas.right, Rect { x: 40, y: 1, width: 60, height: 28 });
    for (w, h) in [(0, 0), (1, 1), (3, 2), (200, 60), (7, 5)] {
        let areas = lay_out(area(w, h));
        assert_eq!((areas.title.x, areas.title.width), (0, w));
        assert_eq!(areas.left.height, areas.main.height);
    }
}

#[test]
fn parts_lie_within_the_terminal() {
    let lies = |whole: Rect, part: Rect| {
        let end = |start: u16, size: u16| u32::from(start) + u32::from(size);
        whole.x <= part.x
            && end(part.x, part.width) <= end(whole.x, whole.width)
            && whole.y <= part.y
            && end(part.y, part.height) <= end(whole.y, whole.height)
    };
    for (x, y) in [(0, 0), (3, 7), (65_500, 65_530)] {
        for width in [0, 1, 2, 3, 5, 9, 80, 81, 333, 65_535] {
            for height in [0, 1, 2, 3, 4, 5, 24, 25, 999] {
                let whole = Rect { x, y, width, height };
                let areas = lay_out(whole);
                for part in [areas.title, areas.main, areas.status] {
                    assert!(lies(whole, part), "{part:?} in {whole:?}");
                    assert_eq!((part.x, part.width), (x, width));
                }
                for part in [areas.left, areas.right] {
                    assert!(lies(areas.main, part), "{part:?} in {whole:?}");
                    assert_eq!((part.y, part.height), (areas.main.y, areas.main.height));
                }
            }
        }
    }
}

fn divided(whole: Rect) -> Areas {
    let main = Rect { y: whole.y + 1, height: whole.height - 2, ..whole };
    let left = ((40 * u32::from(whole.width) + 50) / 100) as u16;
    Areas {
        whole,
        title: Rect { height: 1, ..whole },
        main,
        status: Rect { y: whole.y + whole.height - 1, height: 1, ..whole },
        left: Rect { width: left, ..main },
        right: Rect { x: whole.x + left, width: whole.width - left, ..main },
    }
}

#[test]
fn the_division_is_exact() {
    for n in 2..700 {
        for whole in [
            Rect { x: 0, y: 0, width: n, height: 24 },
            Rect { x: 0, y: 0, width: 80, height: n },
            Rect { x: n / 3, y: n / 7, width: n, height: n },
        ] {
            assert_eq!(lay_out(whole), divided(whole));
        }
    }
    for n in [0, 1, 1_000, 12_345, 33_333, 65_533, 65_534, 65_535] {
        for whole in [
            Rect { x: 0, y: 0, width: n, height: 2 },
            Rect { x: 0, y: 0, width: 1, height: n.max(2) },
            Rect { x: 65_535 - n, y: 0, width: n, height: 3 },
            Rect { x: 1, y: 65_535 - n.max(2), width: 2, height: n.max(2) },
        ] {
            assert_eq!(lay_out(whole), divided(whole));
        }
    }
}

#[test]
fn parts_follow_each_other_without_gaps() {
    for (x, y) in [(0, 0), (3, 7), (65_500, 65_530), (65_535, 65_535)] {
        for width in [0, 1, 2, 3, 30, 35, 36, 65_535] {
            for height in [0, 1, 2, 4, 5, 6, 999] {
                let areas = lay_out(Rect { x, y, width, height });
                let bottom = |r: Rect| u32::from(r.y) + u32::from(r.height);
                let end = |r: Rect| u32::from(r.x) + u32::from(r.width);
                assert_eq!(areas.title.y, y);
                assert_eq!(bottom(areas.title), u32::from(areas.main.y));
                assert_eq!(bottom(areas.main), u32::from(areas.status.y));
                assert_eq!(bottom(areas.status), (u32::from(y) + u32::from(height)).min(65_535));
                let room = (u32::from(x) + u32::from(width)).min(65_535) - u32::from(x);
                assert_eq!(areas.left.x, x);
                assert_eq!(u32::from(areas.left.width), (40 * room + 50) / 100);
                assert_eq!(end(areas.left), u32::from(areas.right.x));
                assert_eq!(end(areas.right), u32::from(x) + room);
                if bottom(areas.status) - u32::from(y) >= 2 {
                    assert_eq!((areas.title.height, areas.status.height), (1, 1));
                }
            }
        }
    }
}

#[test]
fn parts_are_assigned_in_the_order_of_the_shares() {
    assert_eq!(row_shares(), vec![Share::Length(1), Share::Min(0), Share::Length(1)]);
    assert_eq!(column_shares(), vec![Share::Percentage(40), Share::Percentage(60)]);
    let rows = vec![area(1, 1), area(2, 2), area(3, 3)];
    let columns = vec![area(4, 4), area(5, 5)];
    let areas = areas_of(area(9, 9), &rows, &columns);
    assert_eq!(areas.whole, area(9, 9));
    assert_eq!((areas.title, areas.main, areas.status), (area(1, 1), area(2, 2), area(3, 3)));
    assert_eq!((areas.left, areas.right), (area(4, 4), area(5, 5)));
}

#[test]
fn everything_is_drawn() {
    let mut app = workspace();
    let drawing = render(&mut app, area(80, 24));
    assert_eq!(drawing.areas, lay_out(area(80, 24)));
    assert!(matches!(&drawing.main, MainPart::Panels { projects, .. } if projects.lines.len() == 2));
    assert!(drawing.help.is_none() && drawing.info.is_none());
    assert_eq!(app.output_visible_height, 0);

    app.handle_action(Action::ToggleHelp);
    app.panel = Panel::Tasks;
    app.handle_action(Action::TaskInfo);
    app.mode = Mode::Output;
    app.output_lines = vec!["x".into()];
    let drawing = render(&mut app, area(80, 24));
    assert!(matches!(&drawing.main, MainPart::Output(pane) if text(&pane.lines[0]) == "x"));
    assert!(drawing.help.is_some() && drawing.info.is_some());
    assert_eq!(app.output_visible_height, 20);
    app.set_status("soon gone".into());
    let drawing = draw(&mut app, lay_out(area(80, 24)), 9);
    assert_eq!(text(&drawing.status), " Tasks | ? help | q quit");
}

#[test]
fn what_cannot_be_drawn_is_told() {
    let mut app = workspace();
    assert!(can_draw(&app));
    app.show_task_info = true;
    app.tasks[0].deps = vec![String::new(); 65_521];
    assert!(can_draw(&app));
    app.tasks[0].deps.push(String::new());
    assert!(!can_draw(&app));
    app.show_task_info = false;
    assert!(can_draw(&app));
}
