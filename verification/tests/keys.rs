use moon_tui::app::{Action, App, Mode};
use moon_tui::keys::{key_to_bytes, map_key_event, KeyCode, KeyEvent};

fn key(code: KeyCode) -> KeyEvent {
    KeyEvent { code, control: false }
}

fn char_key(c: char) -> KeyEvent {
    key(KeyCode::Char(c))
}

fn control(c: char) -> KeyEvent {
    KeyEvent { code: KeyCode::Char(c), control: true }
}

fn viewer(lines: usize, height: usize) -> App {
    let mut app = App::new();
    app.mode = Mode::Output;
    app.output_lines = (0..lines).map(|i| format!("{i}")).collect();
    app.output_visible_height = height;
    app
}

fn press(app: &mut App, key: KeyEvent) -> Action {
    let (action, input) = map_key_event(key, app);
    assert!(input.is_none());
    action
}

#[test]
fn keys_have_their_bytes() {
    assert_eq!(key_to_bytes(control('a')), Some(vec![1]));
    assert_eq!(key_to_bytes(control('C')), Some(vec![3]));
    assert_eq!(key_to_bytes(control('z')), Some(vec![26]));
    assert_eq!(key_to_bytes(control('1')), None);
    assert_eq!(key_to_bytes(control('\u{e4}')), None);
    for c in ['a', 'Z', '\u{e4}', '\u{4e2d}', '\u{1f600}'] {
        assert_eq!(key_to_bytes(char_key(c)), Some(c.to_string().into_bytes()));
    }
    assert_eq!(key_to_bytes(key(KeyCode::Enter)), Some(b"\n".to_vec()));
    assert_eq!(key_to_bytes(key(KeyCode::Backspace)), Some(vec![0x7f]));
    assert_eq!(key_to_bytes(key(KeyCode::Tab)), Some(b"\t".to_vec()));
    assert_eq!(key_to_bytes(key(KeyCode::Up)), Some(b"\x1b[A".to_vec()));
    assert_eq!(key_to_bytes(key(KeyCode::Down)), Some(b"\x1b[B".to_vec()));
    assert_eq!(key_to_bytes(key(KeyCode::Right)), Some(b"\x1b[C".to_vec()));
    assert_eq!(key_to_bytes(key(KeyCode::Left)), Some(b"\x1b[D".to_vec()));
    assert_eq!(key_to_bytes(key(KeyCode::Home)), Some(b"\x1b[H".to_vec()));
    assert_eq!(key_to_bytes(key(KeyCode::End)), Some(b"\x1b[F".to_vec()));
    assert_eq!(key_to_bytes(key(KeyCode::Delete)), Some(b"\x1b[3~".to_vec()));
    assert_eq!(key_to_bytes(key(KeyCode::Esc)), None);
    assert_eq!(key_to_bytes(key(KeyCode::Other)), None);
}

#[test]
fn keys_among_the_panels() {
    let mut app = App::new();
    assert!(matches!(press(&mut app, char_key('q')), Action::Quit));
    assert!(matches!(press(&mut app, control('c')), Action::Quit));
    assert!(matches!(press(&mut app, char_key('c')), Action::Nothing));
    assert!(matches!(press(&mut app, char_key('?')), Action::ToggleHelp));
    assert!(matches!(press(&mut app, char_key('h')), Action::NavLeft));
    assert!(matches!(press(&mut app, key(KeyCode::Left)), Action::NavLeft));
    assert!(matches!(press(&mut app, char_key('l')), Action::NavRight));
    assert!(matches!(press(&mut app, key(KeyCode::Right)), Action::NavRight));
    assert!(matches!(press(&mut app, char_key('j')), Action::MoveDown));
    assert!(matches!(press(&mut app, key(KeyCode::Down)), Action::MoveDown));
    assert!(matches!(press(&mut app, char_key('k')), Action::MoveUp));
    assert!(matches!(press(&mut app, key(KeyCode::Up)), Action::MoveUp));
    assert!(matches!(press(&mut app, char_key('G')), Action::JumpBottom));
    assert!(matches!(press(&mut app, control('d')), Action::HalfPageDown));
    assert!(matches!(press(&mut app, char_key('d')), Action::Nothing));
    assert!(matches!(press(&mut app, control('u')), Action::HalfPageUp));
    assert!(matches!(press(&mut app, key(KeyCode::Enter)), Action::Enter));
    assert!(matches!(press(&mut app, key(KeyCode::Esc)), Action::Back));
    assert!(matches!(press(&mut app, char_key('r')), Action::Refresh));
    assert!(matches!(press(&mut app, char_key('R')), Action::ForceRun));
    assert!(matches!(press(&mut app, char_key('C')), Action::RunAll));
    assert!(matches!(press(&mut app, char_key('I')), Action::InteractiveRun));
    assert!(matches!(press(&mut app, char_key('i')), Action::TaskInfo));
    assert!(matches!(press(&mut app, char_key('o')), Action::Reattach));
    assert!(matches!(press(&mut app, key(KeyCode::Tab)), Action::Nothing));
}

#[test]
fn g_twice_jumps_to_the_top() {
    let mut app = App::new();
    assert!(matches!(press(&mut app, char_key('g')), Action::Nothing));
    assert!(app.g_pressed);
    assert!(matches!(press(&mut app, char_key('g')), Action::JumpTop));
    assert!(!app.g_pressed);
    press(&mut app, char_key('g'));
    assert!(matches!(press(&mut app, char_key('j')), Action::MoveDown));
    assert!(!app.g_pressed);
}

#[test]
fn overlays_get_all_keys() {
    let mut app = App::new();
    app.show_help = true;
    assert!(matches!(press(&mut app, char_key('j')), Action::Nothing));
    assert!(matches!(press(&mut app, char_key('i')), Action::Nothing));
    for k in [char_key('?'), char_key('q'), key(KeyCode::Esc)] {
        assert!(matches!(press(&mut app, k), Action::ToggleHelp));
    }
    app.show_help = false;
    app.show_task_info = true;
    assert!(matches!(press(&mut app, char_key('?')), Action::Nothing));
    for k in [char_key('i'), char_key('q'), key(KeyCode::Esc)] {
        assert!(matches!(press(&mut app, k), Action::TaskInfo));
    }
}

#[test]
fn interactive_tasks_get_the_keys() {
    let mut app = viewer(3, 10);
    app.stdin_tx = true;
    let (action, input) = map_key_event(char_key('q'), &mut app);
    assert!(matches!(action, Action::Nothing));
    assert_eq!(input, Some(b"q".to_vec()));
    let (action, input) = map_key_event(control('c'), &mut app);
    assert!(matches!(action, Action::Nothing));
    assert_eq!(input, Some(vec![3]));
    let (action, input) = map_key_event(key(KeyCode::Other), &mut app);
    assert!(matches!(action, Action::Nothing));
    assert_eq!(input, None);
    let (action, input) = map_key_event(key(KeyCode::Esc), &mut app);
    assert!(matches!(action, Action::Quit));
    assert_eq!(input, None);
}

#[test]
fn scrolling_the_output() {
    let mut app = viewer(100, 20);
    app.output_scroll = 99;
    assert!(matches!(press(&mut app, char_key('k')), Action::Nothing));
    assert!(!app.output_follow);
    assert_eq!(app.output_scroll, 79);
    press(&mut app, key(KeyCode::Up));
    assert_eq!(app.output_scroll, 78);
    press(&mut app, char_key('j'));
    press(&mut app, char_key('j'));
    press(&mut app, char_key('j'));
    assert_eq!(app.output_scroll, 80);
    press(&mut app, control('u'));
    assert_eq!(app.output_scroll, 70);
    press(&mut app, control('d'));
    press(&mut app, control('d'));
    assert_eq!(app.output_scroll, 80);
    press(&mut app, char_key('g'));
    assert_eq!(app.output_scroll, 80);
    press(&mut app, char_key('g'));
    assert_eq!(app.output_scroll, 0);
    assert!(!app.output_follow);
    press(&mut app, char_key('f'));
    assert!(app.output_follow);
    assert_eq!(app.output_scroll, 80);
    press(&mut app, char_key('f'));
    assert!(!app.output_follow);
    assert_eq!(app.output_scroll, 80);
    press(&mut app, char_key('G'));
    assert!(app.output_follow);
    press(&mut app, char_key('d'));
    assert!(app.output_follow);
}

#[test]
fn scrolling_short_output() {
    let mut app = viewer(3, 0);
    app.output_follow = false;
    press(&mut app, char_key('j'));
    press(&mut app, char_key('j'));
    press(&mut app, char_key('j'));
    assert_eq!(app.output_scroll, 2);
    press(&mut app, control('d'));
    assert_eq!(app.output_scroll, 2);
    let mut app = viewer(3, 10);
    press(&mut app, char_key('j'));
    assert_eq!(app.output_scroll, 0);
    press(&mut app, char_key('k'));
    assert_eq!(app.output_scroll, 0);
}

#[test]
fn leaving_the_output() {
    let mut app = viewer(3, 10);
    for k in [char_key('q'), key(KeyCode::Esc), control('c')] {
        assert!(matches!(press(&mut app, k), Action::Quit));
    }
    assert!(matches!(press(&mut app, char_key('c')), Action::Nothing));
    assert!(matches!(press(&mut app, char_key('?')), Action::ToggleHelp));
}
