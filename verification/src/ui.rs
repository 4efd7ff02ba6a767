//! What is drawn: the bars, the lists, the output and the overlays, as styled text in areas.

use ratatui::layout::{self, Constraint, Layout};
use vstd::prelude::*;
use vstd::string::StringExecFns;

use crate::ansi::{
    after_return, ansi_to_spans, law_spans_show_the_text, shown_text, span_views,
    spans_from, without_escapes, Color, Modifiers, Span, SpanView, Style,
};
use crate::app::{lemma_same, status_at_age, App, AppView, Mode, Panel};
use crate::keys::lesser;
use crate::moon::{Project, ProjectView, Task, TaskView};
use crate::output::{minus, RunView};
use crate::terminal::spaces;
use crate::text::{dec, decimal, join, joined, texts};
use crate::updates::{outcome, outcome_text};

verus! {

/// A part of the terminal.
#[derive(Clone, Copy, Debug, PartialEq, Eq, Structural)]
pub struct Rect {
    pub x: u16,
    pub y: u16,
    pub width: u16,
    pub height: u16,
}

/// Lines of styled text with a border and a title.
#[derive(Debug)]
pub struct Pane {
    pub title: String,
    pub border: Color,
    pub lines: Vec<Vec<Span>>,
}

/// What a `Pane` holds.
pub ghost struct PaneView {
    pub title: Seq<char>,
    pub border: Color,
    pub lines: Seq<Seq<SpanView>>,
}

/// What the lines hold.
pub open spec fn line_views(lines: Seq<Vec<Span>>) -> Seq<Seq<SpanView>> {
    lines.map_values(|l: Vec<Span>| span_views(l@))
}

impl View for Pane {
    type V = PaneView;

    open spec fn view(&self) -> PaneView {
        PaneView { title: self.title@, border: self.border, lines: line_views(self.lines@) }
    }
}

// Colors and text.

/// Terracotta.
pub open spec fn brand_color() -> Color {
    Color::Rgb(212, 146, 125)
}

/// Gold.
pub open spec fn highlight_color() -> Color {
    Color::Rgb(229, 196, 145)
}

/// In that color.
pub open spec fn colored(color: Color) -> Style {
    Style { fg: Some(color), ..Style::unchanged() }
}

/// Bold, in that color.
pub open spec fn bold(color: Color) -> Style {
    colored(color).adding(Modifiers::only_bold())
}

fn brand() -> (color: Color)
    ensures
        color == brand_color(),
{
    Color::Rgb(212, 146, 125)
}

fn highlight() -> (color: Color)
    ensures
        color == highlight_color(),
{
    Color::Rgb(229, 196, 145)
}

fn in_color(color: Color) -> (style: Style)
    ensures
        style == colored(color),
{
    Style { fg: Some(color), ..Style::plain() }
}

fn in_bold(color: Color) -> (style: Style)
    ensures
        style == bold(color),
{
    in_color(color).add_modifier(Modifiers::bold())
}

/// A piece of text in one style.
pub open spec fn piece(content: Seq<char>, style: Style) -> SpanView {
    SpanView { content, style }
}

fn span(content: &str, style: Style) -> (s: Span)
    ensures
        s@ == piece(content@, style),
{
    Span { content: String::from_str(content), style }
}

fn line1(a: Span) -> (line: Vec<Span>)
    ensures
        span_views(line@) == seq![a@],
{
    let mut line: Vec<Span> = Vec::new();
    line.push(a);
    assert(span_views(line@) == seq![a@]);
    line
}

fn line2(a: Span, b: Span) -> (line: Vec<Span>)
    ensures
        span_views(line@) == seq![a@, b@],
{
    let mut line: Vec<Span> = Vec::new();
    line.push(a);
    line.push(b);
    assert(span_views(line@) == seq![a@, b@]);
    line
}

fn line3(a: Span, b: Span, c: Span) -> (line: Vec<Span>)
    ensures
        span_views(line@) == seq![a@, b@, c@],
{
    let mut line: Vec<Span> = Vec::new();
    line.push(a);
    line.push(b);
    line.push(c);
    assert(span_views(line@) == seq![a@, b@, c@]);
    line
}

fn add_line(lines: &mut Vec<Vec<Span>>, line: Vec<Span>)
    ensures
        line_views(final(lines)@) == line_views(old(lines)@).push(span_views(line@)),
{
    let ghost before = line_views(lines@);
    let ghost view = span_views(line@);
    lines.push(line);
    assert(line_views(lines@) == before.push(view));
}

// Bars.

/// The title bar.
pub open spec fn title_line() -> Seq<SpanView> {
    seq![
        piece(" moon-tui "@, bold(brand_color())),
        piece("— workspace task runner"@, colored(Color::DarkGray)),
    ]
}

/// The title bar.
pub fn render_title_bar() -> (line: Vec<Span>)
    ensures
        span_views(line@) == title_line(),
{
    line2(
        span(" moon-tui ", in_bold(brand())),
        span("— workspace task runner", in_color(Color::DarkGray)),
    )
}

impl AppView {
    /// The name of the active panel.
    pub open spec fn panel_name(self) -> Seq<char> {
        match self.panel {
            Panel::Projects => "Projects"@,
            Panel::Tasks => "Tasks"@,
        }
    }

    /// What the status bar says of a task that is running.
    pub open spec fn running_note(self) -> Seq<char> {
        if !self.is_running_task() {
            seq![]
        } else if self.run.interactive {
            " | ● interactive (o: resume)"@
        } else {
            " | ● running (o: view)"@
        }
    }

    /// The status bar, where the status message is that many seconds old: the message while it
    /// shows, else the panel, the task that is running and the most important keys.
    pub open spec fn status_bar(self, seconds: int) -> Seq<char> {
        match status_at_age(self.status, seconds) {
            Some(text) => text,
            None => " "@ + self.panel_name() + self.running_note() + " | ? help | q quit"@,
        }
    }
}

/// The status bar, where the status message is that many seconds old.
pub fn render_status_bar(app: &App, seconds: u64) -> (line: Vec<Span>)
    ensures
        span_views(line@) == seq![
            piece(app@.status_bar(seconds as int), colored(Color::DarkGray)),
        ],
{
    if let Some(text) = app.status_text_after(seconds) {
        return line1(span(text, in_color(Color::DarkGray)));
    }
    let mut status = String::from_str(" ");
    status.append(
        match app.panel {
            Panel::Projects => "Projects",
            Panel::Tasks => "Tasks",
        },
    );
    let ghost start = status@;
    if app.is_running_task() {
        status.append(
            if app.stdin_tx {
                " | ● interactive (o: resume)"
            } else {
                " | ● running (o: view)"
            },
        );
    }
    assert(status@ == start + app@.running_note());
    status.append(" | ? help | q quit");
    line1(span(status.as_str(), in_color(Color::DarkGray)))
}

// Lists.

/// The color of a border: that of the active panel stands out.
pub open spec fn border_color(active: bool) -> Color {
    if active {
        brand_color()
    } else {
        Color::DarkGray
    }
}

fn border(active: bool) -> (color: Color)
    ensures
        color == border_color(active),
{
    if active {
        brand()
    } else {
        Color::DarkGray
    }
}

/// What stands before an item.
pub open spec fn marker(selected: bool) -> Seq<char> {
    if selected {
        "▸ "@
    } else {
        "  "@
    }
}

fn marker_text(selected: bool) -> (m: &'static str)
    ensures
        m@ == marker(selected),
{
    if selected {
        "▸ "
    } else {
        "  "
    }
}

/// The tags of a project, where it has some.
pub open spec fn tag_note(tags: Seq<Seq<char>>) -> Seq<char> {
    if tags.len() == 0 {
        seq![]
    } else {
        " ["@ + joined(tags, ", "@) + "]"@
    }
}

/// One project in the list.
pub open spec fn project_item(project: ProjectView, selected: bool, active: bool) -> Seq<SpanView> {
    let style = if selected && active {
        bold(highlight_color())
    } else if selected {
        colored(Color::White)
    } else {
        colored(Color::Gray)
    };
    seq![
        piece(marker(selected), style),
        piece(project.id, style),
        piece(tag_note(project.tags), colored(Color::DarkGray)),
    ]
}

/// The command of a task, where it has one.
pub open spec fn command_note(command: Seq<char>) -> Seq<char> {
    if command.len() == 0 {
        seq![]
    } else {
        "  ("@ + command + ")"@
    }
}

/// One task in the list. The selection shows only while the list is active.
pub open spec fn task_item(task: TaskView, selected: bool, active: bool) -> Seq<SpanView> {
    let style = if selected && active {
        bold(highlight_color())
    } else {
        colored(Color::Gray)
    };
    seq![
        piece(marker(selected && active), style),
        piece(task.id, style),
        piece(command_note(task.command_line()), colored(Color::DarkGray)),
    ]
}

impl AppView {
    /// The list of projects.
    pub open spec fn project_list(self) -> PaneView {
        let active = self.panel == Panel::Projects;
        PaneView {
            title: " Projects ("@ + dec(self.projects.len()) + ") "@,
            border: border_color(active),
            lines: Seq::new(
                self.projects.len(),
                |i: int| project_item(self.projects[i], i == self.project_index, active),
            ),
        }
    }

    /// The id of the selected project, or else `other`.
    pub open spec fn project_name(self, other: Seq<char>) -> Seq<char> {
        match self.selected_project() {
            Some(p) => p.id,
            None => other,
        }
    }

    /// The list of tasks.
    pub open spec fn task_list(self) -> PaneView {
        let active = self.panel == Panel::Tasks;
        PaneView {
            title: " Tasks — "@ + self.project_name("none"@) + " ("@ + dec(self.tasks.len()) + ") "@,
            border: border_color(active),
            lines: Seq::new(
                self.tasks.len(),
                |i: int| task_item(self.tasks[i], i == self.task_index, active),
            ),
        }
    }
}

fn project_line(project: &Project, selected: bool, active: bool) -> (line: Vec<Span>)
    ensures
        span_views(line@) == project_item(project@, selected, active),
{
    let style = if selected && active {
        in_bold(highlight())
    } else if selected {
        in_color(Color::White)
    } else {
        in_color(Color::Gray)
    };
    let mut tags = String::new();
    if project.tags.len() > 0 {
        tags.append(" [");
        tags.append(join(&project.tags, ", ").as_str());
        tags.append("]");
        assert(tags@ == tag_note(project@.tags));
    } else {
        assert(tags@ == tag_note(project@.tags));
    }
    line3(
        span(marker_text(selected), style),
        span(project.id.as_str(), style),
        span(tags.as_str(), in_color(Color::DarkGray)),
    )
}

fn task_line(task: &Task, selected: bool, active: bool) -> (line: Vec<Span>)
    ensures
        span_views(line@) == task_item(task@, selected, active),
{
    let style = if selected && active {
        in_bold(highlight())
    } else {
        in_color(Color::Gray)
    };
    let command = task.full_command();
    let mut note = String::new();
    if !command.as_str().is_empty() {
        note.append("  (");
        note.append(command.as_str());
        note.append(")");
        assert(note@ == command_note(command@));
    } else {
        assert(note@ == command_note(command@));
    }
    line3(
        span(marker_text(selected && active), style),
        span(task.id.as_str(), style),
        span(note.as_str(), in_color(Color::DarkGray)),
    )
}

/// The list of projects.
pub fn render_project_list(app: &App) -> (pane: Pane)
    ensures
        pane@ == app@.project_list(),
{
    let active = app.panel == Panel::Projects;
    let ghost whole = app@.project_list().lines;
    let mut lines: Vec<Vec<Span>> = Vec::new();
    assert(line_views(lines@) == whole.take(0));
    for i in 0..app.projects.len()
        invariant
            active == (app@.panel == Panel::Projects),
            whole == app@.project_list().lines,
            line_views(lines@) == whole.take(i as int),
    {
        let line = project_line(&app.projects[i], i == app.project_index, active);
        add_line(&mut lines, line);
        assert(app@.projects[i as int] == app.projects@[i as int]@);
        assert(whole.take(i + 1) == whole.take(i as int).push(whole[i as int]));
    }
    assert(whole.take(whole.len() as int) == whole);
    let mut title = String::from_str(" Projects (");
    title.append(decimal(app.projects.len() as u64).as_str());
    title.append(") ");
    Pane { title, border: border(active), lines }
}

/// The list of tasks.
pub fn render_task_list(app: &App) -> (pane: Pane)
    ensures
        pane@ == app@.task_list(),
{
    let active = app.panel == Panel::Tasks;
    let ghost whole = app@.task_list().lines;
    let mut lines: Vec<Vec<Span>> = Vec::new();
    assert(line_views(lines@) == whole.take(0));
    for i in 0..app.tasks.len()
        invariant
            active == (app@.panel == Panel::Tasks),
            whole == app@.task_list().lines,
            line_views(lines@) == whole.take(i as int),
    {
        let line = task_line(&app.tasks[i], i == app.task_index, active);
        add_line(&mut lines, line);
        assert(app@.tasks[i as int] == app.tasks@[i as int]@);
        assert(whole.take(i + 1) == whole.take(i as int).push(whole[i as int]));
    }
    assert(whole.take(whole.len() as int) == whole);
    let mut title = String::from_str(" Tasks — ");
    title.append(
        match app.selected_project() {
            Some(p) => p.id.as_str(),
            None => "none",
        },
    );
    title.append(" (");
    title.append(decimal(app.tasks.len() as u64).as_str());
    title.append(") ");
    Pane { title, border: border(active), lines }
}

// Output.

/// The line at which the view of the output starts, where it has that many rows.
pub open spec fn window_start(run: RunView, height: int) -> int {
    let last_page = minus(run.lines.len() as int, height);
    if run.follow {
        last_page
    } else {
        lesser(run.scroll, last_page)
    }
}

/// The lines of output that are in view, where the view has that many rows.
pub open spec fn window(run: RunView, height: int) -> Seq<Seq<char>> {
    let start = window_start(run, height);
    run.lines.subrange(start, lesser(start + height, run.lines.len() as int))
}

/// A line of output, in its colors.
pub open spec fn output_line(line: Seq<char>) -> Seq<SpanView> {
    spans_from(after_return(line), Style::unchanged())
}

/// The rows within a border.
pub open spec fn inner_height(height: u16) -> int {
    minus(height as int, 2)
}

impl AppView {
    /// The title of the output: the task, and how it goes.
    pub open spec fn output_title(self) -> Seq<char> {
        if self.run.finished {
            " Output — "@ + self.target + " ("@ + outcome(self.run.exit_code) + ") "@
        } else if self.run.interactive {
            " Interactive — "@ + self.target + " (Esc: detach) "@
        } else {
            " Output — "@ + self.target + " (running...) "@
        }
    }

    /// The color of the border of the output: green once the task has succeeded, red once it has
    /// not.
    pub open spec fn output_border(self) -> Color {
        if !self.run.finished {
            brand_color()
        } else if self.run.exit_code == Some(0i32) {
            Color::Green
        } else {
            Color::Red
        }
    }

    /// What stands in the output view, where it has that many rows.
    pub open spec fn output_lines(self, height: int) -> Seq<Seq<SpanView>> {
        if self.run.lines.len() == 0 {
            let message = if self.run.finished {
                "No output."@
            } else {
                "Waiting for output..."@
            };
            seq![seq![piece(message, colored(Color::DarkGray))]]
        } else {
            window(self.run, height).map_values(|line: Seq<char>| output_line(line))
        }
    }

    /// The output view, where it has that many rows within its border.
    pub open spec fn output_pane(self, height: int) -> PaneView {
        PaneView {
            title: self.output_title(),
            border: self.output_border(),
            lines: self.output_lines(height),
        }
    }
}

fn output_title_text(app: &App) -> (title: String)
    ensures
        title@ == app@.output_title(),
{
    if !app.output_finished && app.stdin_tx {
        let mut title = String::from_str(" Interactive — ");
        title.append(app.output_target.as_str());
        title.append(" (Esc: detach) ");
        return title;
    }
    let mut title = String::from_str(" Output — ");
    title.append(app.output_target.as_str());
    if app.output_finished {
        title.append(" (");
        title.append(outcome_text(app.output_exit_code).as_str());
        title.append(") ");
    } else {
        title.append(" (running...) ");
    }
    title
}

fn output_border_color(app: &App) -> (color: Color)
    ensures
        color == app@.output_border(),
{
    if !app.output_finished {
        return brand();
    }
    match app.output_exit_code {
        Some(0) => Color::Green,
        _ => Color::Red,
    }
}

/// The lines of output from `start` to `end`, in their colors.
fn shown_lines(output: &Vec<String>, start: usize, end: usize) -> (lines: Vec<Vec<Span>>)
    requires
        start <= end <= output.len(),
    ensures
        line_views(lines@) == texts(output@).subrange(start as int, end as int).map_values(
            |line: Seq<char>| output_line(line),
        ),
{
    let ghost part = texts(output@).subrange(start as int, end as int);
    let ghost whole = part.map_values(|line: Seq<char>| output_line(line));
    let mut lines: Vec<Vec<Span>> = Vec::new();
    assert(line_views(lines@) == whole.take(0));
    for i in start..end
        invariant
            start <= end <= output.len(),
            part == texts(output@).subrange(start as int, end as int),
            whole == part.map_values(|line: Seq<char>| output_line(line)),
            line_views(lines@) == whole.take(i - start),
    {
        assert(part[i - start] == output@[i as int]@);
        let line = ansi_to_spans(output[i].as_str());
        add_line(&mut lines, line);
        assert(whole.take(i - start + 1) == whole.take(i - start).push(whole[i - start]));
    }
    assert(whole.take(whole.len() as int) == whole);
    lines
}

/// The output view, where it has that many rows within its border.
fn output_pane(app: &App, height: usize) -> (pane: Pane)
    ensures
        pane@ == app@.output_pane(height as int),
{
    let title = output_title_text(app);
    let border = output_border_color(app);
    let total: usize = app.output_lines.len();
    assert(app@.run.lines.len() == total);
    if total == 0 {
        let message = span(
            if app.output_finished {
                "No output."
            } else {
                "Waiting for output..."
            },
            in_color(Color::DarkGray),
        );
        let mut lines: Vec<Vec<Span>> = Vec::new();
        add_line(&mut lines, line1(message));
        assert(line_views(lines@) == app@.output_lines(height as int));
        return Pane { title, border, lines };
    }
    let (start, end) = window_of(app, height);
    let lines = shown_lines(&app.output_lines, start, end);
    Pane { title, border, lines }
}

/// The output view in an area of that height. Records how many rows are visible, so that key
/// handlers can clamp the scroll.
pub fn render_output(app: &mut App, height: u16) -> (pane: Pane)
    ensures
        pane@ == old(app)@.output_pane(inner_height(height)),
        final(app)@ == (AppView { visible_height: inner_height(height), ..old(app)@ }),
        final(app).status_message == old(app).status_message,
{
    let inner: usize = height.saturating_sub(2) as usize;
    let pane = output_pane(app, inner);
    app.output_visible_height = inner;
    proof {
        let after = app@;
        lemma_same(after, AppView { visible_height: inner as int, ..old(app)@ });
    }
    pane
}

// Overlays.

/// An overlay of at most that size, in the middle of an area.
pub open spec fn centered(area: Rect, width: int, height: int) -> Rect {
    Rect {
        x: (minus(area.width as int, width) / 2) as u16,
        y: (minus(area.height as int, height) / 2) as u16,
        width: lesser(width, area.width as int) as u16,
        height: lesser(height, area.height as int) as u16,
    }
}

fn center(area: Rect, width: u16, height: u16) -> (popup: Rect)
    ensures
        popup == centered(area, width as int, height as int),
{
    Rect {
        x: area.width.saturating_sub(width) / 2,
        y: area.height.saturating_sub(height) / 2,
        width: if width < area.width {
            width
        } else {
            area.width
        },
        height: if height < area.height {
            height
        } else {
            area.height
        },
    }
}

/// A line without text.
pub open spec fn empty_line() -> Seq<SpanView> {
    seq![]
}

/// A line of plain text.
pub open spec fn plain_line(text: Seq<char>) -> Seq<SpanView> {
    seq![piece(text, Style::unchanged())]
}

/// A line of bold text.
pub open spec fn heading(text: Seq<char>) -> Seq<SpanView> {
    seq![piece(text, bold(brand_color()))]
}

/// A key, and what it does.
pub open spec fn key_line(key: Seq<char>, text: Seq<char>) -> Seq<SpanView> {
    seq![piece(key, colored(highlight_color())), piece(text, Style::unchanged())]
}

fn add_empty(lines: &mut Vec<Vec<Span>>)
    ensures
        line_views(final(lines)@) == line_views(old(lines)@).push(empty_line()),
{
    let line: Vec<Span> = Vec::new();
    assert(span_views(line@) == empty_line());
    add_line(lines, line);
}

fn add_plain(lines: &mut Vec<Vec<Span>>, text: &str)
    ensures
        line_views(final(lines)@) == line_views(old(lines)@).push(plain_line(text@)),
{
    add_line(lines, line1(span(text, Style::plain())));
}

fn add_heading(lines: &mut Vec<Vec<Span>>, text: &str)
    ensures
        line_views(final(lines)@) == line_views(old(lines)@).push(heading(text@)),
{
    add_line(lines, line1(span(text, in_bold(brand()))));
}

fn add_key(lines: &mut Vec<Vec<Span>>, key: &str, text: &str)
    ensures
        line_views(final(lines)@) == line_views(old(lines)@).push(key_line(key@, text@)),
{
    add_line(lines, line2(span(key, in_color(highlight())), span(text, Style::plain())));
}

/// The help on moving around.
pub open spec fn navigation_help() -> Seq<Seq<SpanView>> {
    Seq::empty().push(heading(" Keybindings "@)).push(empty_line()).push(
        plain_line(" Navigation"@),
    ).push(key_line("  h/l  "@, "Switch panel (projects/tasks)"@)).push(
        key_line("  j/k  "@, "Move down/up"@),
    ).push(key_line("  gg/G "@, "Jump to top/bottom"@)).push(
        key_line("  C-d/u"@, "Half page down/up"@),
    ).push(empty_line())
}

/// The help on running tasks, after what stands before it.
pub open spec fn with_action_help(lines: Seq<Seq<SpanView>>) -> Seq<Seq<SpanView>> {
    lines.push(plain_line(" Actions"@)).push(
        key_line("  Enter"@, "  Projects: show tasks / Tasks: run task"@),
    ).push(key_line("  C     "@, " Run CI for selected project"@)).push(
        key_line("  i     "@, " Show task info"@),
    ).push(key_line("  I     "@, " Run interactive (Esc detach)"@)).push(
        key_line("  o     "@, " Reattach to running task"@),
    ).push(key_line("  R     "@, " Force run (skip cache)"@)).push(
        key_line("  r     "@, " Refresh project/task list"@),
    ).push(empty_line())
}

/// The help on the output view, after what stands before it.
pub open spec fn with_output_help(lines: Seq<Seq<SpanView>>) -> Seq<Seq<SpanView>> {
    lines.push(plain_line(" Output view"@)).push(key_line("  j/k  "@, "Scroll output"@)).push(
        key_line("  f    "@, "Toggle follow mode"@),
    ).push(key_line("  Esc/q"@, "Back to panels"@)).push(empty_line()).push(
        key_line("  ?    "@, "Toggle this help"@),
    )
}

/// The help.
pub open spec fn help_pane() -> PaneView {
    PaneView {
        title: " Help "@,
        border: brand_color(),
        lines: with_output_help(with_action_help(navigation_help())),
    }
}

fn navigation_lines() -> (lines: Vec<Vec<Span>>)
    ensures
        line_views(lines@) == navigation_help(),
{
    let mut lines: Vec<Vec<Span>> = Vec::new();
    assert(line_views(lines@) == Seq::<Seq<SpanView>>::empty());
    add_heading(&mut lines, " Keybindings ");
    add_empty(&mut lines);
    add_plain(&mut lines, " Navigation");
    add_key(&mut lines, "  h/l  ", "Switch panel (projects/tasks)");
    add_key(&mut lines, "  j/k  ", "Move down/up");
    add_key(&mut lines, "  gg/G ", "Jump to top/bottom");
    add_key(&mut lines, "  C-d/u", "Half page down/up");
    add_empty(&mut lines);
    lines
}

fn add_action_help(lines: &mut Vec<Vec<Span>>)
    ensures
        line_views(final(lines)@) == with_action_help(line_views(old(lines)@)),
{
    add_plain(lines, " Actions");
    add_key(lines, "  Enter", "  Projects: show tasks / Tasks: run task");
    add_key(lines, "  C     ", " Run CI for selected project");
    add_key(lines, "  i     ", " Show task info");
    add_key(lines, "  I     ", " Run interactive (Esc detach)");
    add_key(lines, "  o     ", " Reattach to running task");
    add_key(lines, "  R     ", " Force run (skip cache)");
    add_key(lines, "  r     ", " Refresh project/task list");
    add_empty(lines);
}

fn add_output_help(lines: &mut Vec<Vec<Span>>)
    ensures
        line_views(final(lines)@) == with_output_help(line_views(old(lines)@)),
{
    add_plain(lines, " Output view");
    add_key(lines, "  j/k  ", "Scroll output");
    add_key(lines, "  f    ", "Toggle follow mode");
    add_key(lines, "  Esc/q", "Back to panels");
    add_empty(lines);
    add_key(lines, "  ?    ", "Toggle this help");
}

/// The help, in the middle of an area.
pub fn render_help(area: Rect) -> (popup: (Rect, Pane))
    ensures
        popup.0 == centered(area, 52, 27),
        popup.1@ == help_pane(),
{
    let mut lines = navigation_lines();
    add_action_help(&mut lines);
    add_output_help(&mut lines);
    (center(area, 52, 27), Pane { title: String::from_str(" Help "), border: brand(), lines })
}

/// A label and a value: the label takes at least fourteen columns, and an empty value shows as a
/// dash.
pub open spec fn info(label: Seq<char>, value: Seq<char>) -> Seq<SpanView> {
    key_line(
        "  "@ + label + spaces(14 - label.len()),
        if value.len() == 0 {
            "—"@
        } else {
            value
        },
    )
}

/// A label and a value.
pub fn info_line(label: &str, value: &str) -> (line: Vec<Span>)
    ensures
        span_views(line@) == info(label@, value@),
{
    let mut text = String::from_str("  ");
    text.append(label);
    let ghost start = text@;
    let mut n: usize = crate::text::chars_of(label).len();
    assert(start + spaces(0) == start);
    let ghost width = label@.len();
    while n < 14
        invariant
            width <= n,
            n <= 14 || n == width,
            text@ == start + spaces(n - width),
        decreases 14 - n,
    {
        text.push(' ');
        n += 1;
        assert(text@ == start + spaces(n - width));
    }
    assert(text@ == start + spaces(14 - width));
    line2(
        span(text.as_str(), in_color(highlight())),
        span(
            if value.is_empty() {
                "—"
            } else {
                value
            },
            Style::plain(),
        ),
    )
}

fn add_info(lines: &mut Vec<Vec<Span>>, label: &str, value: &str)
    ensures
        line_views(final(lines)@) == line_views(old(lines)@).push(info(label@, value@)),
{
    add_line(lines, info_line(label, value));
}

/// What the task info says of the task itself.
pub open spec fn task_facts(task: TaskView, project: Seq<char>) -> Seq<Seq<SpanView>> {
    Seq::empty().push(heading(" "@ + task.target + " "@)).push(empty_line()).push(
        info("Task"@, task.id),
    ).push(info("Project"@, project)).push(info("Command"@, task.command_line())).push(
        info("Type"@, task.task_type),
    ).push(info("Toolchains"@, joined(task.toolchains, ", "@))).push(
        info(
            "Interactive"@,
            if task.interactive {
                "yes"@
            } else {
                "no"@
            },
        ),
    )
}

/// A task that the task depends on.
pub open spec fn dep_line(dep: Seq<char>) -> Seq<SpanView> {
    seq![
        piece("    → "@, colored(Color::DarkGray)),
        piece(dep, colored(highlight_color())),
    ]
}

/// What the task info says of the dependencies, where there are some.
pub open spec fn dep_lines(deps: Seq<Seq<char>>) -> Seq<Seq<SpanView>> {
    if deps.len() == 0 {
        seq![]
    } else {
        seq![empty_line(), heading("  Dependencies"@)] + deps.map_values(
            |dep: Seq<char>| dep_line(dep),
        )
    }
}

/// What the task info says.
pub open spec fn info_lines(task: TaskView, project: Seq<char>) -> Seq<Seq<SpanView>> {
    (task_facts(task, project) + dep_lines(task.deps)).push(empty_line()).push(
        key_line("  i/Esc "@, "Close"@),
    )
}

fn fact_lines(task: &Task, project: &str) -> (lines: Vec<Vec<Span>>)
    ensures
        line_views(lines@) == task_facts(task@, project@),
{
    let mut lines: Vec<Vec<Span>> = Vec::new();
    assert(line_views(lines@) == Seq::<Seq<SpanView>>::empty());
    let mut title = String::from_str(" ");
    title.append(task.target.as_str());
    title.append(" ");
    add_heading(&mut lines, title.as_str());
    add_empty(&mut lines);
    add_info(&mut lines, "Task", task.id.as_str());
    add_info(&mut lines, "Project", project);
    add_info(&mut lines, "Command", task.full_command().as_str());
    add_info(&mut lines, "Type", task.task_type.as_str());
    add_info(&mut lines, "Toolchains", join(&task.toolchains, ", ").as_str());
    add_info(
        &mut lines,
        "Interactive",
        if task.interactive {
            "yes"
        } else {
            "no"
        },
    );
    lines
}

fn add_deps(lines: &mut Vec<Vec<Span>>, deps: &Vec<String>)
    ensures
        line_views(final(lines)@) == line_views(old(lines)@) + dep_lines(texts(deps@)),
{
    let ghost start = line_views(lines@);
    let ghost all = dep_lines(texts(deps@));
    if deps.len() == 0 {
        assert(start + all == start);
        return;
    }
    add_empty(lines);
    add_heading(lines, "  Dependencies");
    assert(line_views(lines@) == start + all.take(2));
    for i in 0..deps.len()
        invariant
            deps.len() > 0,
            all == dep_lines(texts(deps@)),
            line_views(lines@) == start + all.take(i + 2),
    {
        let line = line2(
            span("    → ", in_color(Color::DarkGray)),
            span(deps[i].as_str(), in_color(highlight())),
        );
        add_line(lines, line);
        assert(all[i + 2] == dep_line(deps@[i as int]@));
        assert(all.take(i + 3) == all.take(i + 2).push(all[i + 2]));
        assert(start + all.take(i + 3) == (start + all.take(i + 2)).push(all[i + 2]));
    }
    assert(all.take(all.len() as int) == all);
}

impl AppView {
    /// The task info, with the area that it takes, where a task is selected.
    pub open spec fn info_popup(self, area: Rect) -> Option<(Rect, PaneView)> {
        match self.selected_task() {
            Some(task) => {
                let lines = info_lines(task, self.project_name("?"@));
                Some(
                    (
                        centered(
                            area,
                            70,
                            lesser(lines.len() as int % 65536 + 2, area.height as int),
                        ),
                        PaneView { title: " Task Info "@, border: brand_color(), lines },
                    ),
                )
            },
            None => None,
        }
    }

    /// Whether the height of the task info can be told.
    pub open spec fn info_fits(self) -> bool {
        self.selected_task() matches Some(task) ==> info_lines(
            task,
            self.project_name("?"@),
        ).len() % 65536 <= 65533
    }
}

/// What an optional overlay holds.
pub open spec fn popup_view(popup: Option<(Rect, Pane)>) -> Option<(Rect, PaneView)> {
    match popup {
        Some((area, pane)) => Some((area, pane@)),
        None => None,
    }
}

/// The task info, in the middle of an area.
pub fn render_task_info(app: &App, area: Rect) -> (popup: Option<(Rect, Pane)>)
    requires
        app@.info_fits(),
    ensures
        popup_view(popup) == app@.info_popup(area),
{
    let task = match app.selected_task() {
        Some(t) => t,
        None => {
            return None;
        },
    };
    let project = match app.selected_project() {
        Some(p) => p.id.as_str(),
        None => "?",
    };
    let mut lines = fact_lines(task, project);
    add_deps(&mut lines, &task.deps);
    add_empty(&mut lines);
    add_key(&mut lines, "  i/Esc ", "Close");
    assert(lines.len() == info_lines(task@, project@).len());
    let wanted: u16 = (lines.len() % 65536) as u16 + 2;
    let height: u16 = if wanted < area.height {
        wanted
    } else {
        area.height
    };
    let pane = Pane { title: String::from_str(" Task Info "), border: brand(), lines };
    Some((center(area, 70, height), pane))
}

// Everything.

/// The direction in which an area is split.
#[derive(Clone, Copy, Debug, PartialEq, Eq, Structural)]
pub enum Direction {
    Horizontal,
    Vertical,
}

/// The part of an area that something takes.
#[derive(Clone, Copy, Debug, PartialEq, Eq, Structural)]
pub enum Share {
    /// That many rows or columns.
    Length(u16),
    /// At least that many rows or columns.
    Min(u16),
    /// That many hundredths of the area.
    Percentage(u16),
}

/// Whether `part` spans the whole of `area` across the direction in which it was split.
pub open spec fn spans_across(area: Rect, direction: Direction, part: Rect) -> bool {
    match direction {
        Direction::Vertical => part.x == area.x && part.width == area.width,
        Direction::Horizontal => part.y == area.y && part.height == area.height,
    }
}

/// Whether `part` lies within `area`.
pub open spec fn within(area: Rect, part: Rect) -> bool {
    &&& area.x <= part.x
    &&& part.x + part.width <= area.x + area.width
    &&& area.y <= part.y
    &&& part.y + part.height <= area.y + area.height
}

/// Where an area starts in that direction.
pub open spec fn start_of(direction: Direction, area: Rect) -> int {
    match direction {
        Direction::Vertical => area.y as int,
        Direction::Horizontal => area.x as int,
    }
}

/// How far an area extends in that direction.
pub open spec fn extent_of(direction: Direction, area: Rect) -> int {
    match direction {
        Direction::Vertical => area.height as int,
        Direction::Horizontal => area.width as int,
    }
}

/// Where an area ends in that direction.
pub open spec fn end_of(direction: Direction, area: Rect) -> int {
    start_of(direction, area) + extent_of(direction, area)
}

/// How many rows or columns of an area there are to divide: those up to the last that has a number.
pub open spec fn room(direction: Direction, area: Rect) -> int {
    lesser(end_of(direction, area), 65535) - start_of(direction, area)
}

/// The lengths that are asked for, taken together.
pub open spec fn lengths(shares: Seq<Share>) -> int
    decreases shares.len(),
{
    if shares.len() == 0 {
        0
    } else {
        lengths(shares.drop_last()) + match shares.last() {
            Share::Length(n) => n as int,
            _ => 0,
        }
    }
}

/// The hundredths that are asked for, taken together.
pub open spec fn hundredths(shares: Seq<Share>) -> int
    decreases shares.len(),
{
    if shares.len() == 0 {
        0
    } else {
        hundredths(shares.drop_last()) + match shares.last() {
            Share::Percentage(n) => n as int,
            _ => 0,
        }
    }
}

/// `n` hundredths of `room`, rounded.
pub open spec fn rounded(n: int, room: int) -> int {
    (n * room + 50) / 100
}

/// Whether there are at most three shares, none of which asks for a least extent above zero.
pub open spec fn few_shares(shares: Seq<Share>) -> bool {
    &&& shares.len() <= 3
    &&& forall|i: int|
        0 <= i < shares.len() ==> (#[trigger] shares[i] matches Share::Min(n) ==> n == 0)
}

/// Whether the parts are those into which `area` is split.
///
/// There is one part for each share, in their order. Each lies within the area and spans the whole
/// of it across the direction. The first starts where the area does, and each other one where the
/// one before it ends. Where the lengths fit, each length is the extent of its part. Where there
/// is a `Min`, it takes what is left, so the last part ends where the area does. Where all shares
/// are hundredths, and no more than a hundred, the ends of the parts are at those hundredths.
pub open spec fn splits(
    area: Rect,
    direction: Direction,
    shares: Seq<Share>,
    parts: Seq<Rect>,
) -> bool {
    &&& parts.len() == shares.len()
    &&& forall|i: int|
        0 <= i < parts.len() ==> spans_across(area, direction, #[trigger] parts[i]) && within(
            area,
            parts[i],
        )
    &&& parts.len() > 0 ==> start_of(direction, parts[0]) == start_of(direction, area)
    &&& forall|i: int, j: int|
        0 <= i && j == i + 1 && j < parts.len() ==> end_of(direction, #[trigger] parts[i])
            == start_of(direction, #[trigger] parts[j])
    &&& forall|i: int, j: int|
        0 <= i < j < parts.len() ==> end_of(direction, #[trigger] parts[i]) <= start_of(
            direction,
            #[trigger] parts[j],
        )
    &&& lengths(shares) <= room(direction, area) ==> forall|i: int|
        0 <= i < shares.len() ==> (#[trigger] shares[i] matches Share::Length(n) ==> extent_of(
            direction,
            parts[i],
        ) == n)
    &&& (exists|i: int| 0 <= i < shares.len() && (#[trigger] shares[i]) is Min) ==> end_of(
        direction,
        parts.last(),
    ) == start_of(direction, area) + room(direction, area)
    &&& (forall|i: int| 0 <= i < shares.len() ==> (#[trigger] shares[i]) is Percentage)
        && hundredths(shares) <= 100 ==> forall|i: int|
        0 <= i < parts.len() ==> end_of(direction, #[trigger] parts[i]) == start_of(direction, area)
            + rounded(hundredths(shares.take(i + 1)), room(direction, area))
}

/// `ratatui::layout::Layout::split` divides an area among few shares as `splits` says. The
/// constraints of its solver are weighted so that parts without gaps and overlaps count for more
/// than lengths, lengths for more than hundredths, and these for more than growth. Positions are
/// rounded to whole rows and columns, and capped at the largest number that they can have. Which
/// part gets less where the lengths do not fit is left to the solver, and not said here.
#[verifier::external_body]
fn split(area: Rect, direction: Direction, shares: &Vec<Share>) -> (parts: Vec<Rect>)
    requires
        few_shares(shares@),
    ensures
        splits(area, direction, shares@, parts@),
{
    let Rect { x, y, width, height } = area;
    let direction = match direction {
        Direction::Horizontal => layout::Direction::Horizontal,
        Direction::Vertical => layout::Direction::Vertical,
    };
    let constraints = shares.iter().map(|s| match s {
        Share::Length(n) => Constraint::Length(*n),
        Share::Min(n) => Constraint::Min(*n),
        Share::Percentage(n) => Constraint::Percentage(*n),
    });
    let splitter = Layout::default().direction(direction).constraints(constraints);
    let parts = splitter.split(layout::Rect { x, y, width, height });
    parts.iter().map(|r| Rect { x: r.x, y: r.y, width: r.width, height: r.height }).collect()
}

/// Where things are drawn.
#[derive(Clone, Copy, Debug, PartialEq, Eq, Structural)]
pub struct Areas {
    pub whole: Rect,
    pub title: Rect,
    pub main: Rect,
    pub status: Rect,
    pub left: Rect,
    pub right: Rect,
}

/// Whether the areas are parts of `whole`: the bars and the main part lie within it and go across
/// it, and the lists lie within the main part and have its height.
pub open spec fn lays_out(areas: Areas, whole: Rect) -> bool {
    &&& areas.whole == whole
    &&& splits(
        whole,
        Direction::Vertical,
        shares_of_rows(),
        seq![areas.title, areas.main, areas.status],
    )
    &&& splits(
        areas.main,
        Direction::Horizontal,
        shares_of_columns(),
        seq![areas.left, areas.right],
    )
}

/// The shares of the rows: one for the title, one for the status, and the rest between them for
/// the main part.
pub open spec fn shares_of_rows() -> Seq<Share> {
    seq![Share::Length(1), Share::Min(0), Share::Length(1)]
}

/// The shares of the columns of the main part: two fifths for the projects and three for the
/// tasks.
pub open spec fn shares_of_columns() -> Seq<Share> {
    seq![Share::Percentage(40), Share::Percentage(60)]
}

/// The shares of the rows: one for the title, one for the status, and the rest between them for
/// the main part.
pub fn row_shares() -> (shares: Vec<Share>)
    ensures
        shares@ == shares_of_rows(),
{
    vec![Share::Length(1), Share::Min(0), Share::Length(1)]
}

/// The shares of the columns of the main part: two fifths for the projects and three for the
/// tasks.
pub fn column_shares() -> (shares: Vec<Share>)
    ensures
        shares@ == shares_of_columns(),
{
    vec![Share::Percentage(40), Share::Percentage(60)]
}

/// What each part is for, in the order of the shares.
pub fn areas_of(whole: Rect, rows: &Vec<Rect>, columns: &Vec<Rect>) -> (areas: Areas)
    requires
        rows.len() == 3,
        columns.len() == 2,
    ensures
        areas == (Areas {
            whole,
            title: rows@[0],
            main: rows@[1],
            status: rows@[2],
            left: columns@[0],
            right: columns@[1],
        }),
{
    Areas {
        whole,
        title: rows[0],
        main: rows[1],
        status: rows[2],
        left: columns[0],
        right: columns[1],
    }
}

/// How the terminal is divided where it has room for both bars: a row for the title, a row for the
/// status, and the main part between them; of that, two fifths for the projects and the rest for
/// the tasks.
pub open spec fn divided(whole: Rect) -> Areas {
    let main = Rect { y: (whole.y + 1) as u16, height: (whole.height - 2) as u16, ..whole };
    let left = rounded(40, whole.width as int);
    Areas {
        whole,
        title: Rect { height: 1, ..whole },
        main,
        status: Rect { y: (whole.y + whole.height - 1) as u16, height: 1, ..whole },
        left: Rect { width: left as u16, ..main },
        right: Rect { x: (whole.x + left) as u16, width: (whole.width - left) as u16, ..main },
    }
}

/// Whether a terminal has room for both bars, and all its rows and columns have a number.
pub open spec fn has_room(whole: Rect) -> bool {
    &&& 2 <= whole.height
    &&& whole.x + whole.width <= 65535
    &&& whole.y + whole.height <= 65535
}

/// Divides the terminal: a row for the title, a row for the status, and the main part between
/// them; of that, two fifths for the projects and three for the tasks. Where there are fewer than
/// two rows, which of the bars gets less is left to the layout solver.
pub fn lay_out(whole: Rect) -> (areas: Areas)
    ensures
        lays_out(areas, whole),
        has_room(whole) ==> areas == divided(whole),
{
    let rows = split(whole, Direction::Vertical, &row_shares());
    let columns = split(rows[1], Direction::Horizontal, &column_shares());
    let areas = areas_of(whole, &rows, &columns);
    proof {
        assert(seq![areas.title, areas.main, areas.status] == rows@);
        assert(seq![areas.left, areas.right] == columns@);
        if has_room(whole) {
            law_division_is_exact(areas, whole);
        }
    }
    areas
}

/// The main part of the screen.
#[derive(Debug)]
pub enum MainPart {
    Panels { projects: Pane, tasks: Pane },
    Output(Pane),
}

/// What a `MainPart` holds.
pub ghost enum MainView {
    Panels { projects: PaneView, tasks: PaneView },
    Output(PaneView),
}

impl View for MainPart {
    type V = MainView;

    open spec fn view(&self) -> MainView {
        match *self {
            MainPart::Panels { projects, tasks } => MainView::Panels {
                projects: projects@,
                tasks: tasks@,
            },
            MainPart::Output(pane) => MainView::Output(pane@),
        }
    }
}

/// All that is drawn.
#[derive(Debug)]
pub struct Drawing {
    pub areas: Areas,
    pub title: Vec<Span>,
    pub main: MainPart,
    pub status: Vec<Span>,
    pub help: Option<(Rect, Pane)>,
    pub info: Option<(Rect, Pane)>,
}

/// What a `Drawing` holds.
pub ghost struct DrawingView {
    pub areas: Areas,
    pub title: Seq<SpanView>,
    pub main: MainView,
    pub status: Seq<SpanView>,
    pub help: Option<(Rect, PaneView)>,
    pub info: Option<(Rect, PaneView)>,
}

impl View for Drawing {
    type V = DrawingView;

    open spec fn view(&self) -> DrawingView {
        DrawingView {
            areas: self.areas,
            title: span_views(self.title@),
            main: self.main@,
            status: span_views(self.status@),
            help: popup_view(self.help),
            info: popup_view(self.info),
        }
    }
}

impl AppView {
    /// The main part of the screen, in those areas.
    pub open spec fn main_part(self, areas: Areas) -> MainView {
        match self.mode {
            Mode::Output => MainView::Output(self.output_pane(inner_height(areas.main.height))),
            Mode::Normal => MainView::Panels {
                projects: self.project_list(),
                tasks: self.task_list(),
            },
        }
    }

    /// All that is drawn in those areas, where the status message is that many seconds old.
    pub open spec fn drawing(self, areas: Areas, seconds: int) -> DrawingView {
        DrawingView {
            areas,
            title: title_line(),
            main: self.main_part(areas),
            status: seq![piece(self.status_bar(seconds), colored(Color::DarkGray))],
            help: if self.show_help {
                Some((centered(areas.whole, 52, 27), help_pane()))
            } else {
                None
            },
            info: if self.show_task_info {
                self.info_popup(areas.whole)
            } else {
                None
            },
        }
    }

    /// The state once that is drawn: while the output is in view, its height is recorded.
    pub open spec fn drawn(self, areas: Areas) -> AppView {
        match self.mode {
            Mode::Output => AppView { visible_height: inner_height(areas.main.height), ..self },
            Mode::Normal => self,
        }
    }

    /// Whether all that is in view can be drawn.
    pub open spec fn drawable(self) -> bool {
        self.show_task_info ==> self.info_fits()
    }
}

/// The lines of output that are in view: from the first of them to before the second.
fn window_of(app: &App, height: usize) -> (r: (usize, usize))
    ensures
        r.0 <= r.1 <= app.output_lines.len(),
        app@.run.lines.subrange(r.0 as int, r.1 as int) == window(app@.run, height as int),
{
    let total: usize = app.output_lines.len();
    assert(app@.run.lines.len() == total);
    let last_page: usize = total.saturating_sub(height);
    let start: usize = if app.output_follow || app.output_scroll > last_page {
        last_page
    } else {
        app.output_scroll
    };
    let end: usize = if height < total - start {
        start + height
    } else {
        total
    };
    (start, end)
}

/// How many lines the task info has.
fn info_len(task: &Task) -> (n: u128)
    ensures
        forall|project: Seq<char>| n == (#[trigger] info_lines(task@, project)).len(),
{
    let deps: u128 = task.deps.len() as u128;
    let n: u128 = if deps == 0 {
        10
    } else {
        12 + deps
    };
    assert forall|project: Seq<char>| n == (#[trigger] info_lines(task@, project)).len() by {
        assert(task@.deps.len() == deps);
        assert(task_facts(task@, project).len() == 8);
    }
    n
}

/// Whether all that is in view can be drawn.
pub fn can_draw(app: &App) -> (ok: bool)
    ensures
        ok == app@.drawable(),
{
    if app.show_task_info {
        if let Some(task) = app.selected_task() {
            return info_len(task) % 65536 <= 65533;
        }
    }
    true
}

/// Draws in those areas, where the status message is that many seconds old.
pub fn draw(app: &mut App, areas: Areas, seconds: u64) -> (drawing: Drawing)
    requires
        old(app)@.drawable(),
    ensures
        drawing@ == old(app)@.drawing(areas, seconds as int),
        final(app)@ == old(app)@.drawn(areas),
        old(app)@.valid() ==> final(app)@.valid(),
        final(app).status_message == old(app).status_message,
{
    let title = render_title_bar();
    let status = render_status_bar(app, seconds);
    let help = if app.show_help {
        Some(render_help(areas.whole))
    } else {
        None
    };
    let info = if app.show_task_info {
        render_task_info(app, areas.whole)
    } else {
        None
    };
    let main = match app.mode {
        Mode::Output => MainPart::Output(render_output(app, areas.main.height)),
        Mode::Normal => MainPart::Panels {
            projects: render_project_list(app),
            tasks: render_task_list(app),
        },
    };
    Drawing { areas, title, main, status, help, info }
}

/// Draws the application in a terminal of that size.
pub fn render(app: &mut App, whole: Rect) -> (drawing: Drawing)
    requires
        old(app)@.drawable(),
    ensures
        lays_out(drawing.areas, whole),
        exists|seconds: u64|
            drawing@ == #[trigger] old(app)@.drawing(drawing.areas, seconds as int),
        final(app)@ == old(app)@.drawn(drawing.areas),
        old(app)@.valid() ==> final(app)@.valid(),
        final(app).status_message == old(app).status_message,
{
    let areas = lay_out(whole);
    let seconds: u64 = match app.status_seconds() {
        Some(seconds) => seconds,
        None => 0,
    };
    let drawing = draw(app, areas, seconds);
    assert(drawing@ == old(app)@.drawing(drawing.areas, seconds as int));
    drawing
}

// Laws.

/// Nothing is laid out outside of the terminal: the bars and the main part lie within it and go
/// across it, and the lists lie within the main part and have its height.
pub proof fn law_areas_lie_within(areas: Areas, whole: Rect)
    requires
        lays_out(areas, whole),
    ensures
        within(whole, areas.title),
        within(whole, areas.main),
        within(whole, areas.status),
        within(whole, areas.left),
        within(whole, areas.right),
        within(areas.main, areas.left),
        within(areas.main, areas.right),
        spans_across(whole, Direction::Vertical, areas.title),
        spans_across(whole, Direction::Vertical, areas.main),
        spans_across(whole, Direction::Vertical, areas.status),
        spans_across(areas.main, Direction::Horizontal, areas.left),
        spans_across(areas.main, Direction::Horizontal, areas.right),
{
    let rows = seq![areas.title, areas.main, areas.status];
    let columns = seq![areas.left, areas.right];
    assert(rows[0] == areas.title && rows[1] == areas.main && rows[2] == areas.status);
    assert(columns[0] == areas.left && columns[1] == areas.right);
}

proof fn lemma_shares_of_rows()
    ensures
        lengths(shares_of_rows()) == 2,
        shares_of_rows()[1] is Min,
{
    let shares = shares_of_rows();
    let two = shares.drop_last();
    let one = two.drop_last();
    assert(one.drop_last() == Seq::<Share>::empty());
    assert(lengths(Seq::<Share>::empty()) == 0);
    assert(lengths(one) == 1);
    assert(lengths(two) == 1);
}

proof fn lemma_shares_of_columns()
    ensures
        hundredths(shares_of_columns()) == 100,
        hundredths(shares_of_columns().take(1)) == 40,
        hundredths(shares_of_columns().take(2)) == 100,
{
    let shares = shares_of_columns();
    let one = shares.take(1);
    assert(shares.drop_last() == one);
    assert(shares.take(2) == shares);
    assert(one.drop_last() == Seq::<Share>::empty());
    assert(hundredths(Seq::<Share>::empty()) == 0);
    assert(hundredths(one) == 40);
}

/// Where there is room for both bars the division of the terminal is fixed.
pub proof fn law_division_is_exact(areas: Areas, whole: Rect)
    requires
        lays_out(areas, whole),
        has_room(whole),
    ensures
        areas == divided(whole),
{
    let rows = seq![areas.title, areas.main, areas.status];
    let columns = seq![areas.left, areas.right];
    lemma_shares_of_rows();
    lemma_shares_of_columns();
    assert(rows[0] == areas.title && rows[1] == areas.main && rows[2] == areas.status);
    assert(rows.last() == areas.status);
    assert(shares_of_rows()[0] == Share::Length(1) && shares_of_rows()[2] == Share::Length(1));
    assert(columns[0] == areas.left && columns[1] == areas.right);
    assert(shares_of_columns()[0] is Percentage && shares_of_columns()[1] is Percentage);
}

/// The view of the output stays within it and is as full as it can be.
pub proof fn law_window_in_range(run: RunView, height: int)
    requires
        height >= 0,
        run.scroll >= 0,
    ensures
        0 <= window_start(run, height) <= run.lines.len(),
        window(run, height).len() == lesser(height, run.lines.len() as int),
{
}

/// Output that is followed is in view up to its last line.
pub proof fn law_followed_window_ends_at_the_end(run: RunView, height: int)
    requires
        run.follow,
        height > 0,
        run.lines.len() > 0,
    ensures
        window(run, height).last() == run.lines.last(),
{
}

/// A line that the keys can scroll to is the first in view, once the height was recorded.
pub proof fn law_scroll_is_where_the_view_starts(app: AppView)
    requires
        !app.run.follow,
        app.visible_height > 0,
        0 <= app.run.scroll <= app.last_page(),
    ensures
        window_start(app.run, app.visible_height) == app.run.scroll,
{
}

/// What is shown of a line of output is its text: the escapes are not shown.
pub proof fn law_output_line_shows_text(line: Seq<char>)
    ensures
        shown_text(output_line(line)) == without_escapes(after_return(line), false),
{
    law_spans_show_the_text(after_return(line), Style::unchanged());
}

/// An overlay lies within the area, and leaves as much room before it as after it, or one less.
pub proof fn law_overlay_is_centered(area: Rect, width: int, height: int)
    requires
        width >= 0,
        height >= 0,
    ensures
        ({
            let popup = centered(area, width, height);
            &&& popup.x + popup.width <= area.width
            &&& popup.y + popup.height <= area.height
            &&& 0 <= (area.width - popup.x - popup.width) - popup.x <= 1
            &&& 0 <= (area.height - popup.y - popup.height) - popup.y <= 1
        }),
{
}

/// A project in the list is marked exactly where it is the selected one.
pub proof fn law_selection_is_marked(app: AppView, i: int)
    requires
        0 <= i < app.projects.len(),
    ensures
        app.project_list().lines[i][0].content == "▸ "@ <==> i == app.project_index,
{
    reveal_strlit("▸ ");
    reveal_strlit("  ");
    assert("▸ "@[0] != "  "@[0]);
}

// What is written, and in which colors.

/// Text in that color, bold or not, and in no other way styled.
pub open spec fn styled(fg: Option<Color>, bold: bool) -> Style {
    let none = Modifiers {
        bold: false,
        dim: false,
        italic: false,
        underlined: false,
        reversed: false,
    };
    Style { fg, bg: None, added: Modifiers { bold, ..none }, removed: none }
}

/// Text in the terminal's own color.
pub open spec fn without_color() -> Style {
    styled(None, false)
}

/// Text in terracotta.
pub open spec fn terracotta(bold: bool) -> Style {
    styled(Some(Color::Rgb(212, 146, 125)), bold)
}

/// Text in gold.
pub open spec fn golden(bold: bool) -> Style {
    styled(Some(Color::Rgb(229, 196, 145)), bold)
}

/// The title bar names the program in bold, and says in gray what it is.
pub proof fn law_title_bar()
    ensures
        title_line().len() == 2,
        title_line()[0] == (SpanView { content: " moon-tui "@, style: terracotta(true) }),
        title_line()[1] == (SpanView {
            content: "— workspace task runner"@,
            style: styled(Some(Color::DarkGray), false),
        }),
{
}

/// The status bar shows the message for less than five seconds. Otherwise it names the active
/// panel, says whether a task is running and how to get to it, and names two keys.
pub proof fn law_status_bar(app: AppView, seconds: int)
    ensures
        app.status matches Some((text, _)) ==> seconds < 5 ==> app.status_bar(seconds) == text,
        app.status is None || seconds >= 5 ==> {
            let panel = if app.panel == Panel::Projects {
                "Projects"@
            } else {
                "Tasks"@
            };
            let running = app.run.listening && !app.run.finished;
            &&& !running ==> app.status_bar(seconds) == " "@ + panel + " | ? help | q quit"@
            &&& running && app.run.interactive ==> app.status_bar(seconds) == " "@ + panel
                + " | ● interactive (o: resume)"@ + " | ? help | q quit"@
            &&& running && !app.run.interactive ==> app.status_bar(seconds) == " "@ + panel
                + " | ● running (o: view)"@ + " | ? help | q quit"@
        },
{
    let panel = app.panel_name();
    assert(" "@ + panel + Seq::<char>::empty() == " "@ + panel);
}

/// The list of projects has all of them, in their order, each with its tags; its title counts
/// them, and its border stands out while it is active.
pub proof fn law_project_list(app: AppView, i: int)
    requires
        0 <= i < app.projects.len(),
    ensures
        ({
            let list = app.project_list();
            let line = list.lines[i];
            let tags = app.projects[i].tags;
            &&& list.title == " Projects ("@ + dec(app.projects.len()) + ") "@
            &&& list.lines.len() == app.projects.len()
            &&& app.panel == Panel::Projects ==> list.border == Color::Rgb(212, 146, 125)
            &&& app.panel == Panel::Tasks ==> list.border == Color::DarkGray
            &&& line.len() == 3
            &&& line[0].content == (if i == app.project_index {
                "▸ "@
            } else {
                "  "@
            })
            &&& line[1].content == app.projects[i].id
            &&& tags.len() == 0 ==> line[2].content.len() == 0
            &&& tags.len() > 0 ==> line[2].content == " ["@ + joined(tags, ", "@) + "]"@
            &&& line[0].style == line[1].style
            &&& line[2].style == styled(Some(Color::DarkGray), false)
            &&& i != app.project_index ==> line[1].style == styled(Some(Color::Gray), false)
            &&& i == app.project_index && app.panel == Panel::Projects ==> line[1].style == golden(
                true,
            )
            &&& i == app.project_index && app.panel == Panel::Tasks ==> line[1].style == styled(
                Some(Color::White),
                false,
            )
        }),
{
}

/// The list of tasks has all of them, in their order, each with its command; its title names the
/// project and counts them, and the selection shows only while the list is active.
pub proof fn law_task_list(app: AppView, i: int)
    requires
        0 <= i < app.tasks.len(),
    ensures
        ({
            let list = app.task_list();
            let line = list.lines[i];
            let command = app.tasks[i].command_line();
            let chosen = i == app.task_index && app.panel == Panel::Tasks;
            &&& app.selected_project() matches Some(project) ==> list.title == " Tasks — "@
                + project.id + " ("@ + dec(app.tasks.len()) + ") "@
            &&& app.selected_project() is None ==> list.title == " Tasks — "@ + "none"@ + " ("@ + dec(
                app.tasks.len(),
            ) + ") "@
            &&& list.lines.len() == app.tasks.len()
            &&& app.panel == Panel::Tasks ==> list.border == Color::Rgb(212, 146, 125)
            &&& app.panel == Panel::Projects ==> list.border == Color::DarkGray
            &&& line.len() == 3
            &&& chosen ==> line[0].content == "▸ "@ && line[1].style == golden(true)
            &&& !chosen ==> line[0].content == "  "@ && line[1].style == styled(
                Some(Color::Gray),
                false,
            )
            &&& line[0].style == line[1].style
            &&& line[1].content == app.tasks[i].id
            &&& command.len() == 0 ==> line[2].content.len() == 0
            &&& command.len() > 0 ==> line[2].content == "  ("@ + command + ")"@
            &&& line[2].style == styled(Some(Color::DarkGray), false)
        }),
{
}

/// The lists are empty where there is nothing to list, and say so by their count.
pub proof fn law_empty_lists(app: AppView)
    ensures
        app.projects.len() == 0 ==> app.project_list().lines.len() == 0,
        app.tasks.len() == 0 ==> app.task_list().lines.len() == 0,
        app.project_list().title == " Projects ("@ + dec(app.projects.len()) + ") "@,
        app.tasks.len() == 0 && app.selected_project() is None ==> app.task_list().title
            == " Tasks — "@ + "none"@ + " ("@ + dec(0) + ") "@,
{
}

/// What the output view draws of a run that has output, whether it goes on or not, is its window:
/// as many lines as there is room for, or all there are; the last ones while it is followed, and
/// else those from the line on that was scrolled to, as far as there is a full page.
pub proof fn law_output_view_shows_the_window(app: AppView, height: int)
    requires
        height >= 0,
        app.run.scroll >= 0,
        app.run.lines.len() > 0,
    ensures
        ({
            let n = app.run.lines.len() as int;
            let page = if n > height {
                n - height
            } else {
                0
            };
            let start = if app.run.follow || app.run.scroll > page {
                page
            } else {
                app.run.scroll
            };
            let drawn = app.output_pane(height).lines;
            &&& drawn.len() == (if n < height {
                n
            } else {
                height
            })
            &&& window_start(app.run, height) == start
            &&& window(app.run, height).len() == drawn.len()
            &&& forall|i: int|
                0 <= i < drawn.len() ==> #[trigger] drawn[i] == output_line(app.run.lines[start + i])
            &&& app.run.follow && height > 0 ==> drawn.last() == output_line(app.run.lines.last())
        }),
{
}

/// Each line of output is drawn from the style without a color on, and of a line that was updated
/// in place the last update.
pub proof fn law_output_line(line: Seq<char>)
    ensures
        output_line(line) == spans_from(after_return(line), without_color()),
{
}

/// While there is no output the view says whether there will be some.
pub proof fn law_no_output_yet(app: AppView, height: int)
    requires
        app.run.lines.len() == 0,
    ensures
        app.output_pane(height).lines.len() == 1,
        app.output_pane(height).lines[0].len() == 1,
        app.output_pane(height).lines[0][0].style == styled(Some(Color::DarkGray), false),
        app.run.finished ==> app.output_pane(height).lines[0][0].content == "No output."@,
        !app.run.finished ==> app.output_pane(height).lines[0][0].content
            == "Waiting for output..."@,
{
}

/// The output view names the task, and says that it is running, that it is interactive, or how it
/// has ended; its border is green only after success and red after anything else.
pub proof fn law_output_title(app: AppView, height: int)
    ensures
        ({
            let pane = app.output_pane(height);
            &&& app.run.finished ==> pane.title == " Output — "@ + app.target + " ("@ + outcome(
                app.run.exit_code,
            ) + ") "@
            &&& !app.run.finished && app.run.interactive ==> pane.title == " Interactive — "@
                + app.target + " (Esc: detach) "@
            &&& !app.run.finished && !app.run.interactive ==> pane.title == " Output — "@
                + app.target + " (running...) "@
            &&& !app.run.finished ==> pane.border == Color::Rgb(212, 146, 125)
            &&& app.run.finished && app.run.exit_code == Some(0i32) ==> pane.border == Color::Green
            &&& app.run.finished && app.run.exit_code != Some(0i32) ==> pane.border == Color::Red
        }),
{
}

/// An overlay has the size that it asks for, as far as there is room.
pub proof fn law_overlay_size(area: Rect, width: int, height: int)
    requires
        0 <= width,
        0 <= height,
    ensures
        ({
            let popup = centered(area, width, height);
            &&& width <= area.width ==> popup.width == width
            &&& width > area.width ==> popup.width == area.width
            &&& height <= area.height ==> popup.height == height
            &&& height > area.height ==> popup.height == area.height
        }),
{
}

/// Whether a line names a key in gold and says what it does.
pub open spec fn names_key(line: Seq<SpanView>, key: Seq<char>, text: Seq<char>) -> bool {
    &&& line.len() == 2
    &&& line[0] == (SpanView { content: key, style: golden(false) })
    &&& line[1] == (SpanView { content: text, style: without_color() })
}

/// The help says what each key does.
#[verifier::rlimit(40)]
pub proof fn law_help()
    ensures
        help_pane().title == " Help "@,
        help_pane().border == Color::Rgb(212, 146, 125),
        help_pane().lines.len() == 23,
        help_pane().lines[0] == seq![SpanView { content: " Keybindings "@, style: terracotta(true) }],
        help_pane().lines[1].len() == 0,
        help_pane().lines[2] == seq![SpanView { content: " Navigation"@, style: without_color() }],
        names_key(help_pane().lines[3], "  h/l  "@, "Switch panel (projects/tasks)"@),
        names_key(help_pane().lines[4], "  j/k  "@, "Move down/up"@),
        names_key(help_pane().lines[5], "  gg/G "@, "Jump to top/bottom"@),
        names_key(help_pane().lines[6], "  C-d/u"@, "Half page down/up"@),
        help_pane().lines[7].len() == 0,
        help_pane().lines[8] == seq![SpanView { content: " Actions"@, style: without_color() }],
        names_key(help_pane().lines[9], "  Enter"@, "  Projects: show tasks / Tasks: run task"@),
        names_key(help_pane().lines[10], "  C     "@, " Run CI for selected project"@),
        names_key(help_pane().lines[11], "  i     "@, " Show task info"@),
        names_key(help_pane().lines[12], "  I     "@, " Run interactive (Esc detach)"@),
        names_key(help_pane().lines[13], "  o     "@, " Reattach to running task"@),
        names_key(help_pane().lines[14], "  R     "@, " Force run (skip cache)"@),
        names_key(help_pane().lines[15], "  r     "@, " Refresh project/task list"@),
        help_pane().lines[16].len() == 0,
        help_pane().lines[17] == seq![SpanView { content: " Output view"@, style: without_color() }],
        names_key(help_pane().lines[18], "  j/k  "@, "Scroll output"@),
        names_key(help_pane().lines[19], "  f    "@, "Toggle follow mode"@),
        names_key(help_pane().lines[20], "  Esc/q"@, "Back to panels"@),
        help_pane().lines[21].len() == 0,
        names_key(help_pane().lines[22], "  ?    "@, "Toggle this help"@),
{
}

/// A label stands in gold, in at least sixteen columns, and its value after it; a dash where there
/// is none.
pub proof fn law_labels(label: Seq<char>, value: Seq<char>)
    ensures
        ({
            let line = info(label, value);
            &&& line.len() == 2
            &&& line[0].style == golden(false)
            &&& line[1].style == without_color()
            &&& line[0].content.len() == (if label.len() < 14 {
                16
            } else {
                label.len() + 2
            })
            &&& line[0].content[0] == ' ' && line[0].content[1] == ' '
            &&& line[0].content.subrange(2, label.len() as int + 2) == label
            &&& forall|i: int|
                2 + label.len() <= i < line[0].content.len() ==> #[trigger] line[0].content[i]
                    == ' '
            &&& value.len() > 0 ==> line[1].content == value
            &&& value.len() == 0 ==> line[1].content == "—"@
        }),
{
    reveal_strlit("  ");
    let line = info(label, value);
    assert(line[0].content.subrange(2, label.len() as int + 2) == label);
}

/// The task info names the task, its project, its command, its type, its toolchains, and whether
/// it is interactive; then each task that it depends on, and how to close it.
pub proof fn law_task_info(task: TaskView, project: Seq<char>)
    ensures
        ({
            let lines = info_lines(task, project);
            let n = task.deps.len() as int;
            &&& lines[0] == seq![
                SpanView { content: " "@ + task.target + " "@, style: terracotta(true) },
            ]
            &&& lines[1].len() == 0
            &&& lines[2] == info("Task"@, task.id)
            &&& lines[3] == info("Project"@, project)
            &&& lines[4] == info("Command"@, task.command_line())
            &&& lines[5] == info("Type"@, task.task_type)
            &&& lines[6] == info("Toolchains"@, joined(task.toolchains, ", "@))
            &&& task.interactive ==> lines[7] == info("Interactive"@, "yes"@)
            &&& !task.interactive ==> lines[7] == info("Interactive"@, "no"@)
            &&& n == 0 ==> lines.len() == 10
            &&& n > 0 ==> {
                &&& lines.len() == 12 + n
                &&& lines[8].len() == 0
                &&& lines[9] == seq![
                    SpanView { content: "  Dependencies"@, style: terracotta(true) },
                ]
                &&& forall|i: int|
                    0 <= i < n ==> #[trigger] lines[10 + i] == seq![
                        SpanView {
                            content: "    → "@,
                            style: styled(Some(Color::DarkGray), false),
                        },
                        SpanView { content: task.deps[i], style: golden(false) },
                    ]
            }
            &&& lines[lines.len() - 2].len() == 0
            &&& names_key(lines.last(), "  i/Esc "@, "Close"@)
        }),
{
    let facts = task_facts(task, project);
    assert(facts.len() == 8);
    let all = facts + dep_lines(task.deps);
    let lines = info_lines(task, project);
    assert(forall|i: int| 0 <= i < 8 ==> lines[i] == #[trigger] facts[i]);
    assert(facts[0] == heading(" "@ + task.target + " "@));
    assert(facts[7] == lines[7]);
    assert(facts[1] == lines[1] && facts[2] == lines[2] && facts[3] == lines[3]);
    assert(facts[4] == lines[4] && facts[5] == lines[5] && facts[6] == lines[6]);
    if task.deps.len() > 0 {
        assert(lines[8] == empty_line());
        assert(lines[9] == heading("  Dependencies"@));
        assert forall|i: int| 0 <= i < task.deps.len() implies #[trigger] lines[10 + i] == dep_line(
            task.deps[i],
        ) by {
            assert(dep_lines(task.deps)[2 + i] == dep_line(task.deps[i]));
            assert(all[10 + i] == dep_lines(task.deps)[2 + i]);
        }
    }
}

/// The task info is seventy columns wide and as high as it has lines within its border, as far as
/// there is room.
pub proof fn law_task_info_popup(app: AppView, area: Rect)
    ensures
        app.selected_task() is None ==> app.info_popup(area) is None,
        app.selected_task() matches Some(task) ==> {
            let lines = info_lines(
                task,
                match app.selected_project() {
                    Some(project) => project.id,
                    None => "?"@,
                },
            );
            &&& app.info_popup(area) matches Some((place, pane)) && {
                &&& pane.title == " Task Info "@
                &&& pane.border == Color::Rgb(212, 146, 125)
                &&& pane.lines == lines
                &&& area.width >= 70 ==> place.width == 70
                &&& area.width < 70 ==> place.width == area.width
                &&& lines.len() + 2 <= area.height ==> place.height == lines.len() + 2
                &&& lines.len() < 65534 && lines.len() + 2 > area.height ==> place.height
                    == area.height
            }
        },
{
}

/// What is drawn: the title and the status always, the lists or the output by the mode, the help
/// and the task info while they show, over everything else.
pub proof fn law_what_is_drawn(app: AppView, areas: Areas, seconds: int)
    ensures
        ({
            let drawing = app.drawing(areas, seconds);
            &&& drawing.areas == areas
            &&& drawing.title == title_line()
            &&& drawing.status == seq![
                SpanView {
                    content: app.status_bar(seconds),
                    style: styled(Some(Color::DarkGray), false),
                },
            ]
            &&& app.mode == Mode::Normal ==> drawing.main == (MainView::Panels {
                projects: app.project_list(),
                tasks: app.task_list(),
            })
            &&& app.mode == Mode::Output && areas.main.height >= 2 ==> drawing.main
                == MainView::Output(app.output_pane(areas.main.height - 2))
            &&& app.mode == Mode::Output && areas.main.height < 2 ==> drawing.main
                == MainView::Output(app.output_pane(0))
            &&& !app.show_help ==> drawing.help is None
            &&& app.show_help ==> (drawing.help matches Some((place, pane)) && {
                &&& pane == help_pane()
                &&& areas.whole.width >= 52 ==> place.width == 52
                &&& areas.whole.width < 52 ==> place.width == areas.whole.width
                &&& areas.whole.height >= 27 ==> place.height == 27
                &&& areas.whole.height < 27 ==> place.height == areas.whole.height
            })
            &&& !app.show_task_info ==> drawing.info is None
            &&& app.show_task_info ==> drawing.info == app.info_popup(areas.whole)
        }),
{
}

/// Drawing the output records how many of its lines are in view, so that keys can scroll by pages;
/// nothing else changes by drawing.
pub proof fn law_drawing_records_the_height(app: AppView, areas: Areas)
    ensures
        app.mode == Mode::Normal ==> app.drawn(areas) == app,
        app.mode == Mode::Output && areas.main.height >= 2 ==> app.drawn(areas) == (AppView {
            visible_height: areas.main.height - 2,
            ..app
        }),
        app.mode == Mode::Output && areas.main.height < 2 ==> app.drawn(areas) == (AppView {
            visible_height: 0,
            ..app
        }),
{
}

/// Where there is room, the title takes the first row and the status the last; the lists are side
/// by side between them, the projects in two fifths of the columns.
pub proof fn law_where_things_are(areas: Areas, whole: Rect)
    requires
        lays_out(areas, whole),
        whole.height >= 2,
        whole.x + whole.width <= 65535,
        whole.y + whole.height <= 65535,
    ensures
        areas.title.y == whole.y && areas.title.height == 1,
        areas.main.y == whole.y + 1 && areas.main.height == whole.height - 2,
        areas.status.y == whole.y + whole.height - 1 && areas.status.height == 1,
        areas.title.x == whole.x && areas.title.width == whole.width,
        areas.main.x == whole.x && areas.main.width == whole.width,
        areas.status.x == whole.x && areas.status.width == whole.width,
        areas.left.y == areas.main.y && areas.left.height == areas.main.height,
        areas.right.y == areas.main.y && areas.right.height == areas.main.height,
        areas.left.x == whole.x,
        -2 <= 5 * areas.left.width - 2 * whole.width <= 2,
        areas.right.x == areas.left.x + areas.left.width,
        areas.left.width + areas.right.width == whole.width,
{
    law_division_is_exact(areas, whole);
}

/// However small the terminal is, the parts follow each other without gaps and end where it does.
pub proof fn law_parts_leave_no_gaps(areas: Areas, whole: Rect)
    requires
        lays_out(areas, whole),
        whole.x + whole.width <= 65535,
        whole.y + whole.height <= 65535,
    ensures
        areas.title.y == whole.y,
        areas.main.y == areas.title.y + areas.title.height,
        areas.status.y == areas.main.y + areas.main.height,
        areas.status.y + areas.status.height == whole.y + whole.height,
        areas.left.x == areas.main.x,
        areas.right.x == areas.left.x + areas.left.width,
        areas.right.x + areas.right.width == areas.main.x + areas.main.width,
{
    let rows = seq![areas.title, areas.main, areas.status];
    let columns = seq![areas.left, areas.right];
    lemma_shares_of_rows();
    lemma_shares_of_columns();
    assert(rows[0] == areas.title && rows[1] == areas.main && rows[2] == areas.status);
    assert(rows.last() == areas.status);
    assert(columns[0] == areas.left && columns[1] == areas.right);
    assert(shares_of_columns()[0] is Percentage && shares_of_columns()[1] is Percentage);
}

/// All can be drawn unless the task info shows and has too many lines for its height to be told.
pub proof fn law_what_can_be_drawn(app: AppView)
    ensures
        !app.show_task_info ==> app.drawable(),
        app.selected_task() is None ==> app.drawable(),
        app.selected_task() matches Some(task) ==> task.deps.len() < 60_000 ==> app.drawable(),
{
    if let Some(task) = app.selected_task() {
        law_task_info(task, app.project_name("?"@));
    }
}

} // verus!
