//! Keys: what the user asks for with them, and the bytes that they stand for in a terminal.

use vstd::prelude::*;
use vstd::utf8::encode_utf8;

use crate::app::{lemma_same, Action, App, AppView, Mode};
use crate::output::{minus, RunView};

verus! {

/// A key.
#[derive(Clone, Copy, Debug, PartialEq, Eq, Structural)]
pub enum KeyCode {
    Char(char),
    Enter,
    Backspace,
    Tab,
    Up,
    Down,
    Right,
    Left,
    Home,
    End,
    Delete,
    Esc,
    /// Any other key.
    Other,
}

/// A key that was pressed, and whether the control key was held with it.
#[derive(Clone, Copy, Debug, PartialEq, Eq, Structural)]
pub struct KeyEvent {
    pub code: KeyCode,
    pub control: bool,
}

/// The place of a letter in the alphabet, from 1 on.
pub open spec fn letter_number(c: char) -> Option<u8> {
    if 'a' <= c <= 'z' {
        Some((c as u8 - 96) as u8)
    } else if 'A' <= c <= 'Z' {
        Some((c as u8 - 64) as u8)
    } else {
        None
    }
}

/// The bytes that a key stands for in a terminal.
pub open spec fn key_bytes(key: KeyEvent) -> Option<Seq<u8>> {
    match key.code {
        KeyCode::Char(c) => if key.control {
            match letter_number(c) {
                Some(n) => Some(seq![n]),
                None => None,
            }
        } else {
            Some(encode_utf8(seq![c]))
        },
        KeyCode::Enter => Some(seq![0x0a]),
        KeyCode::Backspace => Some(seq![0x7f]),
        KeyCode::Tab => Some(seq![0x09]),
        KeyCode::Up => Some(seq![0x1b, 0x5b, 0x41]),
        KeyCode::Down => Some(seq![0x1b, 0x5b, 0x42]),
        KeyCode::Right => Some(seq![0x1b, 0x5b, 0x43]),
        KeyCode::Left => Some(seq![0x1b, 0x5b, 0x44]),
        KeyCode::Home => Some(seq![0x1b, 0x5b, 0x48]),
        KeyCode::End => Some(seq![0x1b, 0x5b, 0x46]),
        KeyCode::Delete => Some(seq![0x1b, 0x5b, 0x33, 0x7e]),
        KeyCode::Esc | KeyCode::Other => None,
    }
}

/// What optional bytes hold.
pub open spec fn bytes_view(bytes: Option<Vec<u8>>) -> Option<Seq<u8>> {
    match bytes {
        Some(b) => Some(b@),
        None => None,
    }
}

/// The bytes of one character.
fn char_bytes(c: char) -> (bytes: Vec<u8>)
    ensures
        bytes@ == encode_utf8(seq![c]),
{
    let mut s = String::new();
    s.push(c);
    assert(s@ == seq![c]);
    let encoded = s.as_str().as_bytes();
    let mut bytes: Vec<u8> = Vec::new();
    for i in 0..encoded.len()
        invariant
            bytes@ == encoded@.take(i as int),
    {
        bytes.push(encoded[i]);
    }
    assert(encoded@.take(encoded.len() as int) == encoded@);
    bytes
}

/// Convert a key event to raw terminal bytes for forwarding to a child process's stdin.
pub fn key_to_bytes(key: KeyEvent) -> (bytes: Option<Vec<u8>>)
    ensures
        bytes_view(bytes) == key_bytes(key),
{
    let bytes: Vec<u8> = match key.code {
        KeyCode::Char(c) => {
            if key.control {
                if 'a' <= c && c <= 'z' {
                    vec![c as u8 - 96]
                } else if 'A' <= c && c <= 'Z' {
                    vec![c as u8 - 64]
                } else {
                    return None;
                }
            } else {
                char_bytes(c)
            }
        },
        KeyCode::Enter => vec![0x0a],
        KeyCode::Backspace => vec![0x7f],
        KeyCode::Tab => vec![0x09],
        KeyCode::Up => vec![0x1b, 0x5b, 0x41],
        KeyCode::Down => vec![0x1b, 0x5b, 0x42],
        KeyCode::Right => vec![0x1b, 0x5b, 0x43],
        KeyCode::Left => vec![0x1b, 0x5b, 0x44],
        KeyCode::Home => vec![0x1b, 0x5b, 0x48],
        KeyCode::End => vec![0x1b, 0x5b, 0x46],
        KeyCode::Delete => vec![0x1b, 0x5b, 0x33, 0x7e],
        KeyCode::Esc | KeyCode::Other => {
            return None;
        },
    };
    assert(bytes@ == key_bytes(key)->0);
    Some(bytes)
}

/// The smaller of both.
pub open spec fn lesser(a: int, b: int) -> int {
    if a < b {
        a
    } else {
        b
    }
}

/// What a key asks for among the panels, apart from the key `g`.
pub open spec fn normal_action(key: KeyEvent) -> Action {
    match key.code {
        KeyCode::Char(c) => if c == 'q' || (c == 'c' && key.control) {
            Action::Quit
        } else if c == '?' {
            Action::ToggleHelp
        } else if c == 'h' {
            Action::NavLeft
        } else if c == 'l' {
            Action::NavRight
        } else if c == 'j' {
            Action::MoveDown
        } else if c == 'k' {
            Action::MoveUp
        } else if c == 'G' {
            Action::JumpBottom
        } else if c == 'd' && key.control {
            Action::HalfPageDown
        } else if c == 'u' && key.control {
            Action::HalfPageUp
        } else if c == 'r' {
            Action::Refresh
        } else if c == 'R' {
            Action::ForceRun
        } else if c == 'C' {
            Action::RunAll
        } else if c == 'I' {
            Action::InteractiveRun
        } else if c == 'i' {
            Action::TaskInfo
        } else if c == 'o' {
            Action::Reattach
        } else {
            Action::Nothing
        },
        KeyCode::Left => Action::NavLeft,
        KeyCode::Right => Action::NavRight,
        KeyCode::Down => Action::MoveDown,
        KeyCode::Up => Action::MoveUp,
        KeyCode::Enter => Action::Enter,
        KeyCode::Esc => Action::Back,
        _ => Action::Nothing,
    }
}

/// What came of a key: the state, what the user asks for, and the input for the task.
pub ghost struct KeyOutcome {
    pub app: AppView,
    pub action: Action,
    pub input: Option<Seq<u8>>,
}

/// Whether an overlay that is closed by `own` is closed by the key.
pub open spec fn closes_overlay(key: KeyEvent, own: char) -> bool {
    key.code == KeyCode::Char(own) || key.code == KeyCode::Esc || key.code == KeyCode::Char('q')
}

impl AppView {
    /// With the view of the output at that line.
    pub open spec fn scrolled(self, follow: bool, scroll: int) -> AppView {
        AppView { run: RunView { follow, scroll, ..self.run }, ..self }
    }

    /// With the key `g` counted as pressed or not.
    pub open spec fn with_g(self, g_pressed: bool) -> AppView {
        AppView { g_pressed, ..self }
    }

    /// How many lines of output are in view, at least one.
    pub open spec fn page(self) -> int {
        if self.visible_height > 1 {
            self.visible_height
        } else {
            1
        }
    }

    /// The line at which the last page of the output starts.
    pub open spec fn last_page(self) -> int {
        minus(self.run.lines.len() as int, self.page())
    }

    /// The outcome of a key among the panels. The key `g` twice jumps to the top.
    pub open spec fn normal_key(self, key: KeyEvent) -> KeyOutcome {
        let is_g = key.code == KeyCode::Char('g');
        if is_g && self.g_pressed {
            KeyOutcome { app: self.with_g(false), action: Action::JumpTop, input: None }
        } else if is_g {
            KeyOutcome { app: self.with_g(true), action: Action::Nothing, input: None }
        } else {
            KeyOutcome { app: self.with_g(false), action: normal_action(key), input: None }
        }
    }

    /// Where a key scrolls the output to, where it does.
    pub open spec fn scroll_key(self, key: KeyEvent) -> Option<(bool, int)> {
        let last = self.last_page();
        let here = lesser(self.run.scroll, last);
        match key.code {
            KeyCode::Down | KeyCode::Char('j') => Some((false, lesser(here + 1, last))),
            KeyCode::Up | KeyCode::Char('k') => if self.run.follow {
                Some((false, minus(last, 1)))
            } else {
                Some((false, minus(self.run.scroll, 1)))
            },
            KeyCode::Char('G') => Some((true, last)),
            KeyCode::Char('f') => if self.run.follow {
                Some((false, self.run.scroll))
            } else {
                Some((true, last))
            },
            KeyCode::Char('d') => if key.control {
                Some((false, lesser(here + self.page() / 2, last)))
            } else {
                None
            },
            KeyCode::Char('u') => if key.control {
                Some((false, minus(here, self.page() / 2)))
            } else {
                None
            },
            _ => None,
        }
    }

    /// What a key asks for in the output view, apart from scrolling.
    pub open spec fn output_action(key: KeyEvent) -> Action {
        match key.code {
            KeyCode::Esc | KeyCode::Char('q') => Action::Quit,
            KeyCode::Char('c') => if key.control {
                Action::Quit
            } else {
                Action::Nothing
            },
            KeyCode::Char('?') => Action::ToggleHelp,
            _ => Action::Nothing,
        }
    }

    /// The outcome of a key in the view of output that is not interactive. The key `g` twice
    /// scrolls to the top.
    pub open spec fn viewer_key(self, key: KeyEvent) -> KeyOutcome {
        let is_g = key.code == KeyCode::Char('g');
        let app = if is_g && self.g_pressed {
            self.with_g(false).scrolled(false, 0)
        } else if is_g {
            self.with_g(true)
        } else {
            match self.scroll_key(key) {
                Some((follow, scroll)) => self.with_g(false).scrolled(follow, scroll),
                None => self.with_g(false),
            }
        };
        KeyOutcome { app, action: AppView::output_action(key), input: None }
    }

    /// The outcome of a key in the output view. All keys go to an interactive task, except the
    /// one that detaches from it.
    pub open spec fn output_key(self, key: KeyEvent) -> KeyOutcome {
        if !self.run.interactive {
            self.viewer_key(key)
        } else if key.code == KeyCode::Esc {
            KeyOutcome { app: self, action: Action::Quit, input: None }
        } else {
            KeyOutcome { app: self, action: Action::Nothing, input: key_bytes(key) }
        }
    }

    /// The outcome of a key. An overlay gets all keys while it shows.
    pub open spec fn key(self, key: KeyEvent) -> KeyOutcome {
        if self.show_help {
            KeyOutcome {
                app: self,
                action: if closes_overlay(key, '?') {
                    Action::ToggleHelp
                } else {
                    Action::Nothing
                },
                input: None,
            }
        } else if self.show_task_info {
            KeyOutcome {
                app: self,
                action: if closes_overlay(key, 'i') {
                    Action::TaskInfo
                } else {
                    Action::Nothing
                },
                input: None,
            }
        } else {
            match self.mode {
                Mode::Output => self.output_key(key),
                Mode::Normal => self.normal_key(key),
            }
        }
    }
}

/// What a key asks for among the panels, apart from the key `g`.
fn panel_action(key: KeyEvent) -> (action: Action)
    ensures
        action == normal_action(key),
{
    match key.code {
        KeyCode::Char('q') => Action::Quit,
        KeyCode::Char('c') if key.control => Action::Quit,
        KeyCode::Char('?') => Action::ToggleHelp,
        KeyCode::Char('h') | KeyCode::Left => Action::NavLeft,
        KeyCode::Char('l') | KeyCode::Right => Action::NavRight,
        KeyCode::Char('j') | KeyCode::Down => Action::MoveDown,
        KeyCode::Char('k') | KeyCode::Up => Action::MoveUp,
        KeyCode::Char('G') => Action::JumpBottom,
        KeyCode::Char('d') if key.control => Action::HalfPageDown,
        KeyCode::Char('u') if key.control => Action::HalfPageUp,
        KeyCode::Enter => Action::Enter,
        KeyCode::Esc => Action::Back,
        KeyCode::Char('r') => Action::Refresh,
        KeyCode::Char('R') => Action::ForceRun,
        KeyCode::Char('C') => Action::RunAll,
        KeyCode::Char('I') => Action::InteractiveRun,
        KeyCode::Char('i') => Action::TaskInfo,
        KeyCode::Char('o') => Action::Reattach,
        _ => Action::Nothing,
    }
}

/// What a key asks for in the output view, apart from scrolling.
fn viewer_action(key: KeyEvent) -> (action: Action)
    ensures
        action == AppView::output_action(key),
{
    match key.code {
        KeyCode::Char('q') | KeyCode::Esc => Action::Quit,
        KeyCode::Char('c') if key.control => Action::Quit,
        KeyCode::Char('?') => Action::ToggleHelp,
        _ => Action::Nothing,
    }
}

fn min(a: usize, b: usize) -> (m: usize)
    ensures
        m == lesser(a as int, b as int),
{
    if a < b {
        a
    } else {
        b
    }
}

/// Where a key scrolls an output of `total` lines to, of which `page` are in view.
fn scroll_target(
    key: KeyEvent,
    follow: bool,
    scroll: usize,
    total: usize,
    page: usize,
    Ghost(app): Ghost<AppView>,
) -> (target: Option<(bool, usize)>)
    requires
        app.run.follow == follow,
        app.run.scroll == scroll,
        app.run.lines.len() == total,
        app.page() == page,
    ensures
        target is Some == app.scroll_key(key) is Some,
        target matches Some(t) ==> (t.0, t.1 as int) == app.scroll_key(key)->0,
{
    let last: usize = total.saturating_sub(page);
    let here: usize = min(scroll, last);
    match key.code {
        KeyCode::Char('j') | KeyCode::Down => Some((false, min(here.saturating_add(1), last))),
        KeyCode::Char('k') | KeyCode::Up => {
            if follow {
                Some((false, last.saturating_sub(1)))
            } else {
                Some((false, scroll.saturating_sub(1)))
            }
        },
        KeyCode::Char('G') => Some((true, last)),
        KeyCode::Char('d') if key.control => Some(
            (false, min(here.saturating_add(page / 2), last)),
        ),
        KeyCode::Char('u') if key.control => Some((false, here.saturating_sub(page / 2))),
        KeyCode::Char('f') => {
            if follow {
                Some((false, scroll))
            } else {
                Some((true, last))
            }
        },
        _ => None,
    }
}

impl App {
    /// Counts the key `g` as pressed or not.
    fn set_g(&mut self, g_pressed: bool)
        ensures
            final(self)@ == old(self)@.with_g(g_pressed),
            final(self).status_message == old(self).status_message,
    {
        self.g_pressed = g_pressed;
        proof {
            let after = self@;
            lemma_same(after, old(self)@.with_g(g_pressed));
        }
    }

    /// Puts the view of the output at that line.
    fn scroll_to(&mut self, follow: bool, scroll: usize)
        ensures
            final(self)@ == old(self)@.scrolled(follow, scroll as int),
            final(self).status_message == old(self).status_message,
    {
        self.output_follow = follow;
        self.output_scroll = scroll;
        proof {
            let after = self@;
            assert(after.run == old(self)@.scrolled(follow, scroll as int).run);
            lemma_same(after, old(self)@.scrolled(follow, scroll as int));
        }
    }
}

/// What a key asks for among the panels.
pub fn map_normal_mode(key: KeyEvent, app: &mut App) -> (action: Action)
    ensures
        final(app)@ == old(app)@.normal_key(key).app,
        action == old(app)@.normal_key(key).action,
        final(app).status_message == old(app).status_message,
{
    let was_pressed = app.g_pressed;
    match key.code {
        KeyCode::Char('g') => {
            app.set_g(!was_pressed);
            if was_pressed {
                Action::JumpTop
            } else {
                Action::Nothing
            }
        },
        _ => {
            app.set_g(false);
            panel_action(key)
        },
    }
}

/// Scroll controls for output that is not interactive.
fn map_viewer(key: KeyEvent, app: &mut App) -> (action: Action)
    ensures
        final(app)@ == old(app)@.viewer_key(key).app,
        action == old(app)@.viewer_key(key).action,
        final(app).status_message == old(app).status_message,
{
    let was_pressed = app.g_pressed;
    let total: usize = app.output_lines.len();
    let page: usize = if app.output_visible_height > 1 {
        app.output_visible_height
    } else {
        1
    };
    assert(app@.run.lines.len() == total);
    match key.code {
        KeyCode::Char('g') => {
            app.set_g(!was_pressed);
            if was_pressed {
                app.scroll_to(false, 0);
            }
        },
        _ => {
            let target = scroll_target(
                key,
                app.output_follow,
                app.output_scroll,
                total,
                page,
                Ghost(app@),
            );
            app.set_g(false);
            if let Some((follow, scroll)) = target {
                app.scroll_to(follow, scroll);
            }
        },
    }
    viewer_action(key)
}

/// What a key asks for in the output view, and the bytes that it sends to an interactive task.
pub fn map_output_mode(key: KeyEvent, app: &mut App) -> (r: (Action, Option<Vec<u8>>))
    ensures
        final(app)@ == old(app)@.output_key(key).app,
        r.0 == old(app)@.output_key(key).action,
        bytes_view(r.1) == old(app)@.output_key(key).input,
        final(app).status_message == old(app).status_message,
{
    // Interactive mode: forward all keys to child stdin, except Esc to detach.
    if app.stdin_tx {
        if key.code == KeyCode::Esc {
            return (Action::Quit, None);
        }
        return (Action::Nothing, key_to_bytes(key));
    }
    (map_viewer(key, app), None)
}

/// What the user asks for with a key, and the bytes that it sends to an interactive task.
pub fn map_key_event(key: KeyEvent, app: &mut App) -> (r: (Action, Option<Vec<u8>>))
    ensures
        final(app)@ == old(app)@.key(key).app,
        r.0 == old(app)@.key(key).action,
        bytes_view(r.1) == old(app)@.key(key).input,
        old(app)@.valid() ==> final(app)@.valid(),
        final(app).status_message == old(app).status_message,
{
    proof {
        if app@.valid() {
            law_keys_keep_valid(app@, key);
        }
    }
    // Help overlay intercepts all keys when visible.
    if app.show_help {
        return match key.code {
            KeyCode::Char('?') | KeyCode::Esc | KeyCode::Char('q') => (Action::ToggleHelp, None),
            _ => (Action::Nothing, None),
        };
    }
    // Task info overlay intercepts all keys when visible.
    if app.show_task_info {
        return match key.code {
            KeyCode::Char('i') | KeyCode::Esc | KeyCode::Char('q') => (Action::TaskInfo, None),
            _ => (Action::Nothing, None),
        };
    }
    match app.mode {
        Mode::Output => map_output_mode(key, app),
        Mode::Normal => (map_normal_mode(key, app), None),
    }
}

// Laws.

/// Every key keeps the state valid.
pub proof fn law_keys_keep_valid(app: AppView, key: KeyEvent)
    requires
        app.valid(),
    ensures
        app.key(key).app.valid(),
{
    assert(app.key(key).app.run.scroll >= 0);
    assert(app.key(key).app.run.valid());
}

/// Keys scroll the output and note the key `g`; nothing else of the state changes by a key alone.
pub proof fn law_keys_only_scroll(app: AppView, key: KeyEvent)
    ensures
        app.key(key).app == app.with_g(app.key(key).app.g_pressed).scrolled(
            app.key(key).app.run.follow,
            app.key(key).app.run.scroll,
        ),
{
}

/// A key scrolls to no line beyond the last page, from any line that is not beyond it.
pub proof fn law_scrolling_stays_in_range(app: AppView, key: KeyEvent)
    requires
        0 <= app.run.scroll <= app.last_page(),
    ensures
        0 <= app.viewer_key(key).app.run.scroll <= app.last_page(),
{
}

/// Scrolling up from output that is followed stops following, one line above the last page.
pub proof fn law_scrolling_up_stops_following(app: AppView, key: KeyEvent)
    requires
        app.run.follow,
        key.code == KeyCode::Up || key.code == KeyCode::Char('k'),
    ensures
        !app.viewer_key(key).app.run.follow,
        app.viewer_key(key).app.run.scroll == minus(app.last_page(), 1),
{
}

/// While a task is interactive, every key but the one that detaches goes to the task and to
/// nothing else.
pub proof fn law_interactive_task_gets_the_keys(app: AppView, key: KeyEvent)
    requires
        app.run.interactive,
        key.code != KeyCode::Esc,
    ensures
        app.output_key(key).app == app,
        app.output_key(key).action is Nothing,
        app.output_key(key).input == key_bytes(key),
{
}

/// Only the output view of an interactive task sends input.
pub proof fn law_input_goes_to_interactive_tasks_only(app: AppView, key: KeyEvent)
    requires
        app.key(key).input is Some,
    ensures
        app.run.interactive,
        app.mode == Mode::Output,
        !app.show_help,
        !app.show_task_info,
{
}

/// An overlay gets all keys while it shows: nothing else comes of them than closing it.
pub proof fn law_overlay_gets_the_keys(app: AppView, key: KeyEvent)
    requires
        app.show_help || app.show_task_info,
    ensures
        app.key(key).app == app,
        app.key(key).input is None,
        app.key(key).action is Nothing || app.key(key).action is ToggleHelp || app.key(key).action
            is TaskInfo,
{
}

/// The key `g` twice jumps to the top.
pub proof fn law_g_twice_jumps_to_the_top(app: AppView, first: KeyEvent, second: KeyEvent)
    requires
        !app.g_pressed,
        first.code == KeyCode::Char('g'),
        second.code == KeyCode::Char('g'),
    ensures
        app.normal_key(first).action is Nothing,
        app.normal_key(first).app.normal_key(second).action is JumpTop,
        app.normal_key(first).app.normal_key(second).app == app,
        app.viewer_key(first).app.viewer_key(second).app == app.scrolled(false, 0),
{
}

/// After the key `g` another `g` jumps to the top, and any other key does what it does without it.
/// Either way nothing changes but that `g` does not count as pressed any more.
pub proof fn law_g_leaves_other_keys_alone(app: AppView, key: KeyEvent)
    requires
        app.g_pressed,
    ensures
        ({
            let without = AppView { g_pressed: false, ..app };
            &&& app.normal_key(key).app == without
            &&& app.normal_key(key).input is None
            &&& key.code == KeyCode::Char('g') ==> app.normal_key(key).action is JumpTop
            &&& key.code != KeyCode::Char('g') ==> app.normal_key(key) == without.normal_key(key)
            &&& app.mode == Mode::Normal && !app.show_help && !app.show_task_info ==> app.key(key)
                == app.normal_key(key)
        }),
{
}

/// A letter with the control key is one byte from 1 to 26, and nothing else has bytes with it.
pub proof fn law_control_letters(key: KeyEvent)
    requires
        key.control,
        key.code is Char,
    ensures
        key_bytes(key) matches Some(bytes) ==> bytes.len() == 1 && 1 <= bytes[0] <= 26,
        key_bytes(key) is Some <==> letter_number(key.code->Char_0) is Some,
{
}

// Each key.

/// What a key asks for among the panels, with the control key or without it.
pub open spec fn pressed(app: AppView, code: KeyCode, control: bool) -> Action {
    app.normal_key(KeyEvent { code, control }).action
}

/// Each key among the panels asks for its own action: those that do so with the control key and
/// without it, and those that do so with it only.
pub proof fn law_panel_keys(app: AppView, control: bool)
    ensures
        pressed(app, KeyCode::Char('q'), control) is Quit,
        pressed(app, KeyCode::Char('?'), control) is ToggleHelp,
        pressed(app, KeyCode::Char('h'), control) is NavLeft,
        pressed(app, KeyCode::Left, control) is NavLeft,
        pressed(app, KeyCode::Char('l'), control) is NavRight,
        pressed(app, KeyCode::Right, control) is NavRight,
        pressed(app, KeyCode::Char('j'), control) is MoveDown,
        pressed(app, KeyCode::Down, control) is MoveDown,
        pressed(app, KeyCode::Char('k'), control) is MoveUp,
        pressed(app, KeyCode::Up, control) is MoveUp,
        pressed(app, KeyCode::Char('G'), control) is JumpBottom,
        pressed(app, KeyCode::Enter, control) is Enter,
        pressed(app, KeyCode::Esc, control) is Back,
        pressed(app, KeyCode::Char('r'), control) is Refresh,
        pressed(app, KeyCode::Char('R'), control) is ForceRun,
        pressed(app, KeyCode::Char('C'), control) is RunAll,
        pressed(app, KeyCode::Char('I'), control) is InteractiveRun,
        pressed(app, KeyCode::Char('i'), control) is TaskInfo,
        pressed(app, KeyCode::Char('o'), control) is Reattach,
        pressed(app, KeyCode::Char('c'), true) is Quit,
        pressed(app, KeyCode::Char('c'), false) is Nothing,
        pressed(app, KeyCode::Char('d'), true) is HalfPageDown,
        pressed(app, KeyCode::Char('d'), false) is Nothing,
        pressed(app, KeyCode::Char('u'), true) is HalfPageUp,
        pressed(app, KeyCode::Char('u'), false) is Nothing,
        app.g_pressed ==> pressed(app, KeyCode::Char('g'), control) is JumpTop,
        !app.g_pressed ==> pressed(app, KeyCode::Char('g'), control) is Nothing,
{
}

/// No other key asks for anything among the panels.
pub proof fn law_other_keys_ask_for_nothing(app: AppView, c: char, control: bool)
    ensures
        c != 'q' && c != 'c' && c != '?' && c != 'h' && c != 'l' && c != 'j' && c != 'k' && c != 'g'
            && c != 'G' && c != 'd' && c != 'u' && c != 'r' && c != 'R' && c != 'C' && c != 'I' && c
            != 'i' && c != 'o' ==> pressed(app, KeyCode::Char(c), control) is Nothing,
        pressed(app, KeyCode::Backspace, control) is Nothing,
        pressed(app, KeyCode::Tab, control) is Nothing,
        pressed(app, KeyCode::Home, control) is Nothing,
        pressed(app, KeyCode::End, control) is Nothing,
        pressed(app, KeyCode::Delete, control) is Nothing,
        pressed(app, KeyCode::Other, control) is Nothing,
{
}

/// Among the panels a key changes nothing but whether `g` counts as pressed: that does only after
/// a first `g`.
pub proof fn law_panel_keys_change_nothing_else(app: AppView, key: KeyEvent)
    ensures
        app.normal_key(key).app == (AppView {
            g_pressed: key.code == KeyCode::Char('g') && !app.g_pressed,
            ..app
        }),
        app.normal_key(key).input is None,
{
}

/// The bytes of the keys that are no characters.
pub proof fn law_bytes_of_keys(control: bool)
    ensures
        key_bytes(KeyEvent { code: KeyCode::Enter, control }) == Some(seq![10u8]),
        key_bytes(KeyEvent { code: KeyCode::Backspace, control }) == Some(seq![127u8]),
        key_bytes(KeyEvent { code: KeyCode::Tab, control }) == Some(seq![9u8]),
        key_bytes(KeyEvent { code: KeyCode::Up, control }) == Some(seq![27u8, 91, 65]),
        key_bytes(KeyEvent { code: KeyCode::Down, control }) == Some(seq![27u8, 91, 66]),
        key_bytes(KeyEvent { code: KeyCode::Right, control }) == Some(seq![27u8, 91, 67]),
        key_bytes(KeyEvent { code: KeyCode::Left, control }) == Some(seq![27u8, 91, 68]),
        key_bytes(KeyEvent { code: KeyCode::Home, control }) == Some(seq![27u8, 91, 72]),
        key_bytes(KeyEvent { code: KeyCode::End, control }) == Some(seq![27u8, 91, 70]),
        key_bytes(KeyEvent { code: KeyCode::Delete, control }) == Some(seq![27u8, 91, 51, 126]),
        key_bytes(KeyEvent { code: KeyCode::Esc, control }) is None,
        key_bytes(KeyEvent { code: KeyCode::Other, control }) is None,
{
}

/// A character is sent as it is. With the control key a letter is sent as its place in the
/// alphabet, whether it is small or not, and nothing else is sent.
pub proof fn law_bytes_of_characters(c: char)
    ensures
        key_bytes(KeyEvent { code: KeyCode::Char(c), control: false }) == Some(
            encode_utf8(seq![c]),
        ),
        'a' <= c <= 'z' ==> key_bytes(KeyEvent { code: KeyCode::Char(c), control: true }) == Some(
            seq![(c as u32 - 'a' as u32 + 1) as u8],
        ),
        'A' <= c <= 'Z' ==> key_bytes(KeyEvent { code: KeyCode::Char(c), control: true }) == Some(
            seq![(c as u32 - 'A' as u32 + 1) as u8],
        ),
        !('a' <= c <= 'z') && !('A' <= c <= 'Z') ==> key_bytes(
            KeyEvent { code: KeyCode::Char(c), control: true },
        ) is None,
{
    if 'a' <= c <= 'z' {
        assert((c as u8 - 96) as u8 == (c as u32 - 'a' as u32 + 1) as u8);
    }
    if 'A' <= c <= 'Z' {
        assert((c as u8 - 64) as u8 == (c as u32 - 'A' as u32 + 1) as u8);
    }
}

/// Where the last page of the output starts: as many lines before its end as are in view.
pub open spec fn start_of_last_page(app: AppView) -> int {
    let rows = if app.visible_height > 1 {
        app.visible_height
    } else {
        1
    };
    if app.run.lines.len() > rows {
        app.run.lines.len() - rows
    } else {
        0
    }
}

/// Half of the rows that are in view.
pub open spec fn half_of_the_view(app: AppView) -> int {
    if app.visible_height > 1 {
        app.visible_height / 2
    } else {
        0
    }
}

/// Keys that go down show what is one line or half a page further down, and never what is beyond
/// the last page.
pub proof fn law_keys_that_go_down(app: AppView, key: KeyEvent)
    ensures
        ({
            let after = app.viewer_key(key).app.run;
            let last = start_of_last_page(app);
            let here = if app.run.scroll < last {
                app.run.scroll
            } else {
                last
            };
            &&& key.code == KeyCode::Down || key.code == KeyCode::Char('j') ==> !after.follow
                && after.scroll == (if here < last {
                here + 1
            } else {
                last
            })
            &&& key.code == KeyCode::Char('d') && key.control ==> {
                let further = here + half_of_the_view(app);
                &&& !after.follow
                &&& after.scroll == (if further < last {
                    further
                } else {
                    last
                })
            }
            &&& key.code == KeyCode::Char('G') ==> after.follow && after.scroll == last
        }),
{
}

/// Keys that go up show what is one line or half a page further up, from the last page where the
/// output was followed; and `g` twice shows the top.
pub proof fn law_keys_that_go_up(app: AppView, key: KeyEvent)
    ensures
        ({
            let after = app.viewer_key(key).app.run;
            let last = start_of_last_page(app);
            &&& key.code == KeyCode::Up || key.code == KeyCode::Char('k') ==> {
                let here = if app.run.follow {
                    last
                } else {
                    app.run.scroll
                };
                &&& !after.follow
                &&& after.scroll == (if here > 0 {
                    here - 1
                } else {
                    0
                })
            }
            &&& key.code == KeyCode::Char('u') && key.control ==> {
                let here = if app.run.scroll < last {
                    app.run.scroll
                } else {
                    last
                };
                let further = here - half_of_the_view(app);
                &&& !after.follow
                &&& after.scroll == (if further > 0 {
                    further
                } else {
                    0
                })
            }
            &&& key.code == KeyCode::Char('g') && app.g_pressed ==> !after.follow && after.scroll
                == 0
        }),
{
}

/// The key `f` begins and ends following: to begin brings the last page into view, to end leaves
/// the view where it is.
pub proof fn law_follow_is_toggled(app: AppView, key: KeyEvent)
    requires
        key.code == KeyCode::Char('f'),
    ensures
        app.viewer_key(key).app.run.follow == !app.run.follow,
        app.run.follow ==> app.viewer_key(key).app.run.scroll == app.run.scroll,
        !app.run.follow ==> app.viewer_key(key).app.run.scroll == start_of_last_page(app),
{
}

/// Whether a key moves the view of the output.
pub open spec fn moves_the_view(key: KeyEvent) -> bool {
    match key.code {
        KeyCode::Down | KeyCode::Up => true,
        KeyCode::Char(c) => c == 'j' || c == 'k' || c == 'g' || c == 'G' || c == 'f' || (key.control
            && (c == 'd' || c == 'u')),
        _ => false,
    }
}

/// Other keys leave the view of the output where it is.
pub proof fn law_other_keys_do_not_scroll(app: AppView, key: KeyEvent)
    requires
        !moves_the_view(key),
    ensures
        app.viewer_key(key).app == (AppView { g_pressed: false, ..app }),
{
}

/// In the view of output that is not interactive a key leads away, shows the help, or asks for
/// nothing.
pub proof fn law_keys_in_the_output_view(app: AppView, key: KeyEvent)
    ensures
        ({
            let action = app.viewer_key(key).action;
            &&& app.viewer_key(key).input is None
            &&& action is Quit <==> key.code == KeyCode::Esc || key.code == KeyCode::Char('q') || (
            key.code == KeyCode::Char('c') && key.control)
            &&& action is ToggleHelp <==> key.code == KeyCode::Char('?')
            &&& action is Quit || action is ToggleHelp || action is Nothing
        }),
{
}

/// Who gets a key: the help while it shows, else the task info while it shows, else the view that
/// is in mode; there an interactive task, and only the key Esc leads away from it.
pub proof fn law_who_gets_the_key(app: AppView, key: KeyEvent)
    ensures
        app.show_help ==> {
            let closes = key.code == KeyCode::Char('?') || key.code == KeyCode::Esc || key.code
                == KeyCode::Char('q');
            &&& closes ==> app.key(key).action is ToggleHelp
            &&& !closes ==> app.key(key).action is Nothing
        },
        !app.show_help && app.show_task_info ==> {
            let closes = key.code == KeyCode::Char('i') || key.code == KeyCode::Esc || key.code
                == KeyCode::Char('q');
            &&& closes ==> app.key(key).action is TaskInfo
            &&& !closes ==> app.key(key).action is Nothing
        },
        !app.show_help && !app.show_task_info && app.mode == Mode::Normal ==> app.key(key)
            == app.normal_key(key),
        !app.show_help && !app.show_task_info && app.mode == Mode::Output ==> {
            &&& !app.run.interactive ==> app.key(key) == app.viewer_key(key)
            &&& app.run.interactive && key.code == KeyCode::Esc ==> app.key(key).action is Quit
                && app.key(key).app == app && app.key(key).input is None
            &&& app.run.interactive && key.code != KeyCode::Esc ==> app.key(key).action is Nothing
                && app.key(key).app == app && app.key(key).input == key_bytes(key)
        },
{
}

/// In the output view too, only a first `g` counts as pressed afterwards.
pub proof fn law_g_counts_once(app: AppView, key: KeyEvent)
    ensures
        app.viewer_key(key).app.g_pressed == (key.code == KeyCode::Char('g') && !app.g_pressed),
        key.code == KeyCode::Char('g') && !app.g_pressed ==> app.viewer_key(key).app.run == app.run,
{
}

} // verus!
