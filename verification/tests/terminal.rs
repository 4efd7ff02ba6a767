use moon_tui::ansi::{ansi_to_spans, apply_sgr, strip_ansi_plain, Color, Style};
use moon_tui::app::App;
use moon_tui::moon::OutputMsg;
use moon_tui::output::TaskState;
use moon_tui::terminal::{
    emulator_works, extract_screen_lines, read_screen, vt_bg, vt_fg, Cell, CellColor, CellStyle,
    Screen,
};
use moon_tui::text::trim;

fn emulator(rows: u16, cols: u16, input: &str) -> vt100::Parser {
    let mut parser = vt100::Parser::new(rows, cols, 1000);
    parser.process(input.as_bytes());
    parser
}

fn lines(rows: u16, cols: u16, input: &str) -> Vec<String> {
    extract_screen_lines(&read_screen(&emulator(rows, cols, input)))
}

fn pty(input: &str) -> OutputMsg {
    OutputMsg::PtyOutput(input.as_bytes().to_vec())
}

fn interactive_app(rows: u16, cols: u16) -> App {
    let mut app = App::new();
    app.output_target = "web:dev".into();
    app.line_rx = true;
    app.exit_code_rx = true;
    app.stdin_tx = true;
    app.vt = Some(vt100::Parser::new(rows, cols, 1000));
    app
}

#[test]
fn colors_have_their_codes() {
    assert_eq!(vt_fg(&CellColor::Default), "39");
    assert_eq!(vt_fg(&CellColor::Idx(3)), "33");
    assert_eq!(vt_fg(&CellColor::Idx(9)), "91");
    assert_eq!(vt_fg(&CellColor::Idx(200)), "38;5;200");
    assert_eq!(vt_fg(&CellColor::Rgb(1, 20, 255)), "38;2;1;20;255");
    assert_eq!(vt_bg(&CellColor::Default), "49");
    assert_eq!(vt_bg(&CellColor::Idx(7)), "47");
    assert_eq!(vt_bg(&CellColor::Idx(15)), "107");
    assert_eq!(vt_bg(&CellColor::Idx(16)), "48;5;16");
    assert_eq!(vt_bg(&CellColor::Rgb(0, 0, 0)), "48;2;0;0;0");
}

#[test]
fn screen_lines_keep_columns_and_colors() {
    assert_eq!(lines(4, 20, "hello\r\n  world"), vec!["hello", "  world"]);
    assert_eq!(lines(4, 20, "\x1b[31mred\x1b[0m ok"), vec!["\x1b[0;31mred\x1b[0m ok"]);
    assert_eq!(
        lines(4, 20, "\x1b[1;3;4;7;32;44mx"),
        vec!["\x1b[0;1;3;4;7;32;44mx\x1b[0m"]
    );
    assert_eq!(lines(4, 10, "\x1b[2;4Hx"), vec!["", "   x"]);
    assert_eq!(lines(3, 10, ""), Vec::<String>::new());
}

#[test]
fn wide_characters_take_two_columns() {
    assert_eq!(lines(2, 10, "\u{4e2d}\u{6587}x"), vec!["\u{4e2d}\u{6587}x"]);
    let screen = read_screen(&emulator(2, 10, "\u{4e2d}x"));
    assert!(screen.cells[0][0].wide);
    assert!(screen.cells[0][1].wide_continuation);
    assert_eq!(screen.cells[0][1].contents, "");
    assert_eq!(screen.cells[0][2].contents, "x");
    assert_eq!(screen.rows[0], "\u{4e2d}x");
    // A wide character in the last column of a short row of cells.
    let plain = CellStyle::plain();
    let cell = Cell { contents: "\u{4e2d}".into(), wide: true, wide_continuation: false, style: plain };
    let one = Screen { cells: vec![vec![cell]], rows: vec!["\u{4e2d}".into()], alternate: false };
    assert_eq!(extract_screen_lines(&one), vec!["\u{4e2d}"]);
}

#[test]
fn the_screen_is_read_as_it_is() {
    let parser = emulator(3, 5, "ab\r\n\x1b[1;38;5;99mc");
    let screen = read_screen(&parser);
    assert_eq!(screen.cells.len(), 3);
    assert!(screen.cells.iter().all(|r| r.len() == 5));
    assert_eq!(screen.rows, vec!["ab", "c", ""]);
    assert!(!screen.alternate);
    let c = &screen.cells[1][0];
    assert_eq!(c.contents, "c");
    assert_eq!(c.style.fg, CellColor::Idx(99));
    assert!(c.style.bold && !c.style.italic);
    assert!(read_screen(&emulator(3, 5, "\x1b[?1049h")).alternate);
    assert!(emulator_works(&parser));
    assert!(!emulator_works(&vt100::Parser::new(1, 5, 0)));
    assert!(!emulator_works(&vt100::Parser::new(5, 2, 0)));
    assert!(emulator_works(&vt100::Parser::new(2, 3, 0)));
    assert!(!emulator_works(&vt100::Parser::new(2, 65528, 0)));
}

#[test]
fn the_widest_character_fits_into_three_columns() {
    let mut app = interactive_app(2, 3);
    let bytes = vec![pty("\u{17d8}x\u{17d8}\u{17d8}")];
    assert!(app.can_poll_output(&bytes));
    app.poll_output(bytes);
    assert!(app.output_lines.last().unwrap().contains('\u{17d8}'));
    assert!(!interactive_app(2, 2).can_poll_output(&vec![pty("x")]));
}

#[test]
fn lines_without_colors_are_the_rows() {
    let parser = emulator(6, 30, "\x1b[32mok\x1b[0m  done\r\n\r\n \x1b[7m inv \x1b[0m\r\n\u{4e2d} w\r\n");
    let screen = read_screen(&parser);
    let lines = extract_screen_lines(&screen);
    assert!(lines.len() <= screen.rows.len());
    for (i, line) in lines.iter().enumerate() {
        assert_eq!(trim(&strip_ansi_plain(line)), trim(&screen.rows[i]));
    }
    for row in &screen.rows[lines.len()..] {
        assert_eq!(trim(row), "");
    }
}

#[test]
fn written_styles_are_read_back() {
    let style = |line: &str| apply_sgr(Style::plain(), &line[2..line.find('m').unwrap()]);
    let line = &lines(2, 10, "\x1b[1;4;35;46mx")[0];
    let read = style(line);
    assert_eq!(read.fg, Some(Color::Magenta));
    assert_eq!(read.bg, Some(Color::Cyan));
    assert!(read.added.bold && read.added.underlined && !read.added.italic);
    let line = &lines(2, 10, "\x1b[3;7;38;2;9;8;7;48;5;77mx")[0];
    let read = style(line);
    assert_eq!(read.fg, Some(Color::Rgb(9, 8, 7)));
    assert_eq!(read.bg, Some(Color::Indexed(77)));
    assert!(read.added.italic && read.added.reversed);
    // Bright colors are written as a background but not drawn as one.
    let line = &lines(2, 10, "\x1b[96;103mx")[0];
    assert!(line.starts_with("\x1b[0;96;103m"));
    assert_eq!(style(line).fg, Some(Color::LightCyan));
    assert_eq!(style(line).bg, None);
}

#[test]
fn pty_output_shows_the_screen() {
    let mut app = interactive_app(4, 20);
    app.poll_output(vec![pty("one\r\ntwo\r\n"), pty("three")]);
    assert_eq!(app.output_lines, vec!["one", "two", "three"]);
    assert_eq!(app.pty_scrollback_len, 0);
    assert_eq!(app.output_scroll, 2);
    app.poll_output(vec![pty("\x1b[2K\rTHREE")]);
    assert_eq!(app.output_lines, vec!["one", "two", "THREE"]);
}

#[test]
fn lines_that_scroll_off_are_kept() {
    let mut app = interactive_app(3, 20);
    app.poll_output(vec![pty("a\r\nb\r\nc")]);
    assert_eq!(app.output_lines, vec!["a", "b", "c"]);
    app.poll_output(vec![pty("\r\nd")]);
    assert_eq!(app.output_lines, vec!["a", "b", "c", "d"]);
    assert_eq!(app.pty_scrollback_len, 1);
    // Nothing of the old screen is left: all of it is kept.
    app.poll_output(vec![pty("\x1b[2J\x1b[Hx\r\ny")]);
    assert_eq!(app.output_lines, vec!["a", "b", "c", "d", "x", "y"]);
    assert_eq!(app.pty_scrollback_len, 4);
}

#[test]
fn all_lines_that_scroll_off_at_once_are_kept() {
    let mut app = interactive_app(3, 10);
    app.poll_output(vec![pty("a\r\nb\r\nc")]);
    app.poll_output(vec![pty("\r\nd\r\ne")]);
    assert_eq!(app.output_lines, vec!["a", "b", "c", "d", "e"]);
    assert_eq!(app.pty_scrollback_len, 2);
    app.poll_output(vec![pty("\r\nf\r\ng\r\nh")]);
    assert_eq!(app.output_lines, vec!["a", "b", "c", "d", "e", "f", "g", "h"]);
    assert_eq!(app.pty_scrollback_len, 5);
}

#[test]
fn lines_with_the_same_text_are_told_apart() {
    let mut app = interactive_app(4, 10);
    app.poll_output(vec![pty("a\r\nx\r\nb\r\nx")]);
    app.poll_output(vec![pty("\r\nv\r\nw")]);
    assert_eq!(app.output_lines, vec!["a", "x", "b", "x", "v", "w"]);
    assert_eq!(app.pty_scrollback_len, 2);
    let mut app = interactive_app(3, 10);
    app.poll_output(vec![pty("a\r\nx\r\nx")]);
    app.poll_output(vec![pty("\r\nv")]);
    assert_eq!(app.output_lines, vec!["a", "x", "x", "v"]);
}

#[test]
fn blank_lines_that_scroll_off_are_kept() {
    let mut app = interactive_app(3, 10);
    app.poll_output(vec![pty("\r\na\r\nb")]);
    app.poll_output(vec![pty("\r\nc\r\nd")]);
    assert_eq!(app.output_lines, vec!["", "a", "b", "c", "d"]);
    app.poll_output(vec![pty("\r\n\r\ne")]);
    assert_eq!(app.output_lines, vec!["", "a", "b", "c", "d", "", "e"]);
}

#[test]
fn an_incomplete_line_may_be_completed_while_it_moves() {
    let mut app = interactive_app(3, 10);
    app.poll_output(vec![pty("a\r\nb\r\nc")]);
    app.poll_output(vec![pty("c\r\nd")]);
    assert_eq!(app.output_lines, vec!["a", "b", "cc", "d"]);
    assert_eq!(app.pty_scrollback_len, 1);
}

#[test]
fn a_screen_redrawn_in_place_is_replaced() {
    let mut app = interactive_app(4, 10);
    app.poll_output(vec![pty("title\r\n10%\r\neta 5")]);
    app.poll_output(vec![pty("\x1b[2;1H20%\r\neta 4")]);
    assert_eq!(app.output_lines, vec!["title", "20%", "eta 4"]);
    let mut app = interactive_app(4, 10);
    app.poll_output(vec![pty("\r\n10%\r\neta 5")]);
    app.poll_output(vec![pty("\x1b[2;1H20%\r\neta 4")]);
    assert_eq!(app.output_lines, vec!["", "20%", "eta 4"]);
    // The first and the last line of a frame are the same.
    let mut app = interactive_app(5, 10);
    app.poll_output(vec![pty("-\r\n1\r\n-")]);
    for _ in 0..3 {
        app.poll_output(vec![pty("\x1b[2;1H2")]);
        assert_eq!(app.output_lines, vec!["-", "2", "-"]);
        assert_eq!(app.pty_scrollback_len, 0);
    }
    let mut app = interactive_app(5, 10);
    app.poll_output(vec![pty("$\r\n$")]);
    app.poll_output(vec![pty(" l")]);
    assert_eq!(app.output_lines, vec!["$", "$ l"]);
    // A first line that shows nothing is filled in.
    let mut app = interactive_app(5, 10);
    app.poll_output(vec![pty("\r\nb")]);
    app.poll_output(vec![pty("\x1b[Hx")]);
    assert_eq!(app.output_lines, vec!["x", "b"]);
    // The first line is gone while others are left: it is kept.
    let mut app = interactive_app(4, 10);
    app.poll_output(vec![pty("one\r\ntwo\r\nthree")]);
    app.poll_output(vec![pty("\x1b[HONE")]);
    assert_eq!(app.output_lines, vec!["one", "ONE", "two", "three"]);
}

#[test]
fn nothing_scrolls_off_when_the_top_moves_down() {
    let mut app = interactive_app(5, 20);
    app.poll_output(vec![pty("top\r\nsecond")]);
    app.poll_output(vec![pty("\x1b[H\x1b[2Lnew1\r\nnew2")]);
    assert_eq!(app.pty_scrollback_len, 0);
    assert_eq!(app.output_lines, vec!["new1", "new2", "top", "second"]);
    let mut app = interactive_app(8, 20);
    app.poll_output(vec![pty("a\r\nb")]);
    app.poll_output(vec![pty("\x1b[H\x1b[Ln")]);
    assert_eq!(app.pty_scrollback_len, 0);
    assert_eq!(app.output_lines, vec!["n", "a", "b"]);
}

#[test]
fn a_full_screen_program_keeps_the_output_before_it() {
    let mut app = interactive_app(4, 20);
    app.poll_output(vec![pty("built\r\n\x1b[32mserving\x1b[0m\r\n")]);
    app.poll_output(vec![pty("\x1b[?1049h\x1b[Hmenu")]);
    assert!(app.was_alternate_screen);
    assert_eq!(app.pty_scrollback_len, 2);
    assert_eq!(app.output_lines.len(), 3);
    assert_eq!(app.output_lines[0], "built");
    assert_eq!(strip_ansi_plain(&app.output_lines[1]), "serving");
    assert_eq!(app.output_lines[2], "menu");
    app.poll_output(vec![pty("\x1b[H\x1b[2Jnext")]);
    assert_eq!(app.output_lines[2], "next");
    assert_eq!(app.output_lines.len(), 3);
    app.poll_output(vec![pty("\x1b[?1049l")]);
    assert_eq!(app.pty_scrollback_len, 0);
    assert_eq!(strip_ansi_plain(&app.output_lines[1]), "serving");
    assert_eq!(app.output_lines.len(), 2);
}

#[test]
fn what_a_run_cannot_take_in_is_told() {
    let app = interactive_app(1, 20);
    assert!(!app.can_poll_output(&vec![pty("x")]));
    assert!(app.can_poll_output(&vec![OutputMsg::Append("x".into())]));
    let mut app = interactive_app(4, 20);
    assert!(app.can_poll_output(&vec![pty("x")]));
    let msgs = || vec![OutputMsg::Append("\x1b\u{e9}".into()), pty("x")];
    assert!(app.can_poll_output(&msgs()));
    app.poll_output(msgs());
    assert_eq!(app.output_lines, vec!["x"]);
    let mut app = interactive_app(1, 20);
    app.vt = None;
    assert!(app.can_poll_output(&msgs()));
    app.poll_output(msgs());
    assert_eq!(app.output_lines, vec!["\x1b\u{e9}"]);
}

#[test]
fn an_absorbed_screen_replaces_the_last_one() {
    let mut run = TaskState::interactive(3, 10);
    run.poll(vec![pty("a\r\nb")]);
    let screen = read_screen(&emulator(3, 10, "a\r\nB\r\nc"));
    run.absorb_screen(&screen);
    assert_eq!(run.output_lines, vec!["a", "B", "c"]);
    run.line_rx = false;
    run.poll(vec![pty("ignored")]);
    assert_eq!(run.output_lines, vec!["a", "B", "c"]);
}

#[test]
fn an_unchanged_screen_leaves_the_output_as_it_is() {
    for start in ["one\r\ntwo", "one\r\ntwo\x1b[?1049h\x1b[Hmenu"] {
        let mut app = interactive_app(4, 20);
        app.poll_output(vec![pty("first")]);
        let mut msgs: Vec<OutputMsg> =
            (0..10_010).map(|i| OutputMsg::Append(format!("{i}"))).collect();
        msgs.push(pty(start));
        app.poll_output(msgs);
        let before = app.output_lines.clone();
        assert!(before.len() <= 10_000);
        for _ in 0..2 {
            app.poll_output(vec![pty("\x1b[m")]);
            assert_eq!(app.output_lines, before);
        }
    }
}

#[test]
fn capping_counts_in_the_scrollback() {
    let mut app = interactive_app(4, 20);
    app.poll_output(vec![pty("one\r\ntwo")]);
    let many: Vec<OutputMsg> = (0..10_010).map(|i| OutputMsg::Append(format!("{i}"))).collect();
    app.poll_output(many);
    assert_eq!(app.output_lines.len(), 10_000);
    app.poll_output(vec![pty("\r\nthree\r\nfour\r\nfive\r\nsix")]);
    assert!(app.pty_scrollback_len <= app.output_lines.len());
    assert_eq!(app.output_lines.len(), 10_000);
    assert_eq!(&app.output_lines[9_996..], &["three", "four", "five", "six"]);
    app.poll_output(vec![pty("\r\nseven")]);
    assert!(app.pty_scrollback_len <= app.output_lines.len());
}

#[test]
fn each_cell_is_shown_in_its_style() {
    let input = "a\x1b[1;31mb \x1b[7mc\x1b[0m\u{4e2d}\x1b[48;5;33m d\x1b[0m  e";
    let screen = read_screen(&emulator(2, 20, input));
    let line = &extract_screen_lines(&screen)[0];
    let mut shown: Vec<(char, Style)> = Vec::new();
    for span in ansi_to_spans(line) {
        shown.extend(span.content.chars().map(|c| (c, span.style)));
    }
    let text: String = shown.iter().map(|(c, _)| *c).collect();
    assert_eq!(text, "ab c\u{4e2d} d  e");
    let red = Style { fg: Some(Color::Red), ..Style::plain() };
    assert_eq!(shown[0].1, Style::plain());
    assert!(shown[1].1.added.bold && !shown[1].1.added.reversed);
    assert_eq!(shown[1].1.fg, red.fg);
    assert!(shown[3].1.added.bold && shown[3].1.added.reversed);
    assert_eq!(shown[4].1, Style::plain());
    assert_eq!(shown[5].1.bg, Some(Color::Indexed(33)));
    assert_eq!(shown[7].1, Style::plain());
}
