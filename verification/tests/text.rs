use moon_tui::text::{
    decimal, is_blank, is_whitespace, join, parse_byte, parse_small, signed_decimal, split, trim,
    trim_end,
};

#[test]
fn trim_cuts_both_ends() {
    assert_eq!(trim("  a b\t\n"), "a b");
    assert_eq!(trim(" \u{3000}"), "");
    assert_eq!(trim_end("  a \u{2003}"), "  a");
    assert_eq!(trim_end("\u{a0}"), "");
    assert!(is_blank(" \r\n"));
    assert!(!is_blank(" x "));
    assert!(is_blank(""));
}

#[test]
fn white_space_is_what_unicode_says() {
    for n in 0..=0x10ffffu32 {
        if let Some(c) = char::from_u32(n) {
            assert_eq!(is_whitespace(c), c.is_whitespace(), "{n:x}");
        }
    }
}

#[test]
fn numbers_in_decimal() {
    assert_eq!(decimal(0), "0");
    assert_eq!(decimal(907), "907");
    assert_eq!(decimal(u64::MAX), "18446744073709551615");
    assert_eq!(signed_decimal(-1), "-1");
    assert_eq!(signed_decimal(i32::MIN), "-2147483648");
    assert_eq!(signed_decimal(130), "130");
}

#[test]
fn splitting_undoes_joining() {
    let parts: Vec<String> = vec!["38".into(), "".into(), "5".into()];
    assert_eq!(join(&parts, ";"), "38;;5");
    assert_eq!(split("38;;5", ';'), parts);
    assert_eq!(split("", ';'), vec![""]);
    assert_eq!(join(&vec![], ", "), "");
    assert_eq!(split(";", ';'), vec!["", ""]);
}

#[test]
fn numbers_are_read_as_written() {
    for n in 0..1000u32 {
        assert_eq!(parse_small(&format!("{n}")), Some(n));
    }
    for s in ["", "01", "1000", "+1", "-1", "1a", " 1"] {
        assert_eq!(parse_small(s), None, "{s}");
    }
    for s in ["0", "7", "255", "256", "+9", "007", "", "+", "-1", "1 ", "99999999999", "++1"] {
        assert_eq!(parse_byte(s), s.parse::<u8>().ok(), "{s}");
    }
}
