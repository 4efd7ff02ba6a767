use moon_tui::ansi::{
    ansi_to_spans, apply_sgr, strip_ansi_plain, Color, Modifiers, Style,
};
use ratatui::style::{Modifier, Style as Widget};

fn shown(s: &str) -> Vec<(String, Style)> {
    ansi_to_spans(s).into_iter().map(|s| (s.content, s.style)).collect()
}

fn fg(color: Color) -> Style {
    Style { fg: Some(color), ..Style::plain() }
}

#[test]
fn escapes_are_stripped() {
    assert_eq!(strip_ansi_plain("plain"), "plain");
    assert_eq!(strip_ansi_plain("\x1b[1;31mred\x1b[0m end"), "red end");
    assert_eq!(strip_ansi_plain("a\x1b[2Jb"), "ab");
    assert_eq!(strip_ansi_plain("a\x1bOb"), "ab");
    // A sequence without an end loses its escape character only.
    assert_eq!(strip_ansi_plain("a\x1b[12"), "a[12");
    assert_eq!(strip_ansi_plain("a\x1b"), "a");
    assert_eq!(strip_ansi_plain(""), "");
}

#[test]
fn escapes_may_end_in_any_character() {
    assert_eq!(strip_ansi_plain("\x1b[31m\u{e9}"), "\u{e9}");
    assert_eq!(strip_ansi_plain("a\x1b\u{e9}b"), "ab");
    assert_eq!(shown("a\x1b\u{e9}b"), vec![("a".to_string(), Style::plain()), ("b".to_string(), Style::plain())]);
    // The low byte of this character looks like the end of a sequence.
    assert_eq!(strip_ansi_plain("\x1b[1\u{141}m"), "m");
    assert_eq!(shown("\x1b[1\u{141}mx"), vec![("x".to_string(), Style::plain())]);
    assert_eq!(strip_ansi_plain("\x1b[\u{141}m"), "m");
    assert_eq!(strip_ansi_plain("\x1b\u{1f319}"), "");
}

#[test]
fn colors_become_spans() {
    assert_eq!(
        shown("a\x1b[31mb\x1b[0mc"),
        vec![
            ("a".to_string(), Style::plain()),
            ("b".to_string(), fg(Color::Red)),
            ("c".to_string(), Style::plain()),
        ]
    );
    assert_eq!(shown("\x1b[2Jm"), vec![("m".to_string(), Style::plain())]);
    assert_eq!(shown("\x1b[38;5;200mx"), vec![("x".to_string(), fg(Color::Indexed(200)))]);
    assert_eq!(shown("\x1b[38;2;1;2;3mx"), vec![("x".to_string(), fg(Color::Rgb(1, 2, 3)))]);
    assert!(shown("\x1b[31m").is_empty());
}

#[test]
fn the_last_update_in_place_is_shown() {
    assert_eq!(shown("10%\r50%\rdone"), vec![("done".to_string(), Style::plain())]);
    assert!(shown("all gone\r").is_empty());
}

#[test]
fn sgr_codes_are_applied() {
    let base = Style::plain();
    for (code, color) in [
        ("30", Color::Black),
        ("37", Color::White),
        ("39", Color::Reset),
        ("90", Color::DarkGray),
        ("93", Color::LightYellow),
        ("97", Color::White),
    ] {
        assert_eq!(apply_sgr(base, code), fg(color));
    }
    assert_eq!(apply_sgr(base, "44").bg, Some(Color::Blue));
    assert_eq!(apply_sgr(base, "49").bg, Some(Color::Reset));
    assert_eq!(apply_sgr(base, "48;5;9").bg, Some(Color::Indexed(9)));
    assert_eq!(apply_sgr(base, "48;2;9;300;7").bg, Some(Color::Rgb(9, 0, 7)));
    assert_eq!(apply_sgr(base, "38;2;9").fg, Some(Color::Rgb(9, 0, 0)));
    assert_eq!(apply_sgr(base, "38;5;300"), base);
    assert_eq!(apply_sgr(base, "38"), base);
    assert_eq!(apply_sgr(base, "38;7;31").fg, Some(Color::Red));
    assert_eq!(apply_sgr(base, "101"), base);
    assert_eq!(apply_sgr(base, "01"), base);
    assert_eq!(apply_sgr(fg(Color::Red), ""), base);
    assert_eq!(apply_sgr(fg(Color::Red), "0"), base);
    let bold = apply_sgr(base, "1");
    assert_eq!(bold.added, Modifiers::bold());
    let styled = apply_sgr(base, "1;2;3;4;7");
    assert!(styled.added.bold && styled.added.dim && styled.added.italic);
    assert!(styled.added.underlined && styled.added.reversed);
    let off = apply_sgr(styled, "22;23;24;27");
    assert_eq!(off.added, Modifiers::none());
    assert!(off.removed.bold && off.removed.dim && off.removed.reversed);
    assert_eq!(apply_sgr(base, "3").added, Modifiers::italic());
    assert_eq!(apply_sgr(base, "4").added, Modifiers::underlined());
    assert_eq!(apply_sgr(base, "7").added, Modifiers::reversed());
    assert_eq!(apply_sgr(base, "2").added, Modifiers::dim());
}

#[test]
fn styles_change_as_in_the_widget_library() {
    let mine = Style::plain().add_modifier(Modifiers::bold()).remove_modifier(Modifiers::bold());
    let theirs =
        Widget::default().add_modifier(Modifier::BOLD).remove_modifier(Modifier::BOLD);
    assert_eq!(mine.added.bold, theirs.add_modifier.contains(Modifier::BOLD));
    assert_eq!(mine.removed.bold, theirs.sub_modifier.contains(Modifier::BOLD));
}

#[test]
fn spans_show_what_stripping_leaves() {
    for s in ["x\x1b[31my\x1b[0mz", "\x1b[2Kab", "no escapes", "a\x1b[1", "q\x1b(Bz"] {
        let text: String = shown(s).into_iter().map(|(c, _)| c).collect();
        assert_eq!(text, strip_ansi_plain(s), "{s:?}");
        assert_eq!(strip_ansi_plain(&text), text);
    }
}
