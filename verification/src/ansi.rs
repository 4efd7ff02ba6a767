//! ANSI escape sequences in text: removing them, and reading the colors that they set.

use vstd::prelude::*;

use crate::text::{
    byte_value, chars_of, dec, is_space, joined, lemma_byte_dec, lemma_small_dec,
    lemma_split_joined, lemma_trim_ignores_end, parse_byte, parse_small, small_number, split,
    split_at_char, string_of, texts, trimmed, without_trailing_space,
};

verus! {

/// The escape character.
pub const ESC: char = '\x1b';

/// A color of the user interface.
#[derive(Clone, Copy, Debug, PartialEq, Eq, Structural)]
pub enum Color {
    Reset,
    Black,
    Red,
    Green,
    Yellow,
    Blue,
    Magenta,
    Cyan,
    Gray,
    DarkGray,
    LightRed,
    LightGreen,
    LightYellow,
    LightBlue,
    LightMagenta,
    LightCyan,
    White,
    Rgb(u8, u8, u8),
    Indexed(u8),
}

/// A set of text attributes.
#[derive(Clone, Copy, Debug, PartialEq, Eq, Structural)]
pub struct Modifiers {
    pub bold: bool,
    pub dim: bool,
    pub italic: bool,
    pub underlined: bool,
    pub reversed: bool,
}

/// What a piece of text changes of the style below it: colors that it sets, attributes that it
/// adds and attributes that it takes away.
#[derive(Clone, Copy, Debug, PartialEq, Eq, Structural)]
pub struct Style {
    pub fg: Option<Color>,
    pub bg: Option<Color>,
    pub added: Modifiers,
    pub removed: Modifiers,
}

/// A piece of text in one style.
#[derive(Clone, Debug)]
pub struct Span {
    pub content: String,
    pub style: Style,
}

/// What a `Span` holds.
pub ghost struct SpanView {
    pub content: Seq<char>,
    pub style: Style,
}

impl View for Span {
    type V = SpanView;

    open spec fn view(&self) -> SpanView {
        SpanView { content: self.content@, style: self.style }
    }
}

/// What the spans of a line hold.
pub open spec fn span_views(spans: Seq<Span>) -> Seq<SpanView> {
    spans.map_values(|s: Span| s@)
}

impl Modifiers {
    /// No attribute.
    pub open spec fn no_attribute() -> Modifiers {
        Modifiers { bold: false, dim: false, italic: false, underlined: false, reversed: false }
    }

    /// The attributes of both.
    pub open spec fn union(self, other: Modifiers) -> Modifiers {
        Modifiers {
            bold: self.bold || other.bold,
            dim: self.dim || other.dim,
            italic: self.italic || other.italic,
            underlined: self.underlined || other.underlined,
            reversed: self.reversed || other.reversed,
        }
    }

    /// The attributes that `other` has not.
    pub open spec fn minus(self, other: Modifiers) -> Modifiers {
        Modifiers {
            bold: self.bold && !other.bold,
            dim: self.dim && !other.dim,
            italic: self.italic && !other.italic,
            underlined: self.underlined && !other.underlined,
            reversed: self.reversed && !other.reversed,
        }
    }

    /// Bold alone.
    pub open spec fn only_bold() -> Modifiers {
        Modifiers { bold: true, ..Modifiers::no_attribute() }
    }

    /// Dim alone.
    pub open spec fn only_dim() -> Modifiers {
        Modifiers { dim: true, ..Modifiers::no_attribute() }
    }

    /// Italic alone.
    pub open spec fn only_italic() -> Modifiers {
        Modifiers { italic: true, ..Modifiers::no_attribute() }
    }

    /// Underlined alone.
    pub open spec fn only_underlined() -> Modifiers {
        Modifiers { underlined: true, ..Modifiers::no_attribute() }
    }

    /// Reversed alone.
    pub open spec fn only_reversed() -> Modifiers {
        Modifiers { reversed: true, ..Modifiers::no_attribute() }
    }

    /// No attribute.
    pub fn none() -> (m: Modifiers)
        ensures
            m == Modifiers::no_attribute(),
    {
        Modifiers { bold: false, dim: false, italic: false, underlined: false, reversed: false }
    }

    /// Bold alone.
    pub fn bold() -> (m: Modifiers)
        ensures
            m == Modifiers::only_bold(),
    {
        Modifiers { bold: true, ..Modifiers::none() }
    }

    /// Dim alone.
    pub fn dim() -> (m: Modifiers)
        ensures
            m == Modifiers::only_dim(),
    {
        Modifiers { dim: true, ..Modifiers::none() }
    }

    /// Italic alone.
    pub fn italic() -> (m: Modifiers)
        ensures
            m == Modifiers::only_italic(),
    {
        Modifiers { italic: true, ..Modifiers::none() }
    }

    /// Underlined alone.
    pub fn underlined() -> (m: Modifiers)
        ensures
            m == Modifiers::only_underlined(),
    {
        Modifiers { underlined: true, ..Modifiers::none() }
    }

    /// Reversed alone.
    pub fn reversed() -> (m: Modifiers)
        ensures
            m == Modifiers::only_reversed(),
    {
        Modifiers { reversed: true, ..Modifiers::none() }
    }
}

impl Style {
    /// The style that changes nothing.
    pub open spec fn unchanged() -> Style {
        Style {
            fg: None,
            bg: None,
            added: Modifiers::no_attribute(),
            removed: Modifiers::no_attribute(),
        }
    }

    /// This style with `m` added.
    pub open spec fn adding(self, m: Modifiers) -> Style {
        Style { added: self.added.union(m), removed: self.removed.minus(m), ..self }
    }

    /// This style with `m` taken away.
    pub open spec fn removing(self, m: Modifiers) -> Style {
        Style { added: self.added.minus(m), removed: self.removed.union(m), ..self }
    }

    /// The style that changes nothing.
    pub fn plain() -> (style: Style)
        ensures
            style == Style::unchanged(),
    {
        Style { fg: None, bg: None, added: Modifiers::none(), removed: Modifiers::none() }
    }

    /// This style with the attributes `m` added.
    pub fn add_modifier(self, m: Modifiers) -> (style: Style)
        ensures
            style == self.adding(m),
    {
        Style {
            added: Modifiers {
                bold: self.added.bold || m.bold,
                dim: self.added.dim || m.dim,
                italic: self.added.italic || m.italic,
                underlined: self.added.underlined || m.underlined,
                reversed: self.added.reversed || m.reversed,
            },
            removed: Modifiers {
                bold: self.removed.bold && !m.bold,
                dim: self.removed.dim && !m.dim,
                italic: self.removed.italic && !m.italic,
                underlined: self.removed.underlined && !m.underlined,
                reversed: self.removed.reversed && !m.reversed,
            },
            ..self
        }
    }

    /// This style with the attributes `m` taken away.
    pub fn remove_modifier(self, m: Modifiers) -> (style: Style)
        ensures
            style == self.removing(m),
    {
        let swapped = Style { added: self.removed, removed: self.added, ..self };
        let changed = swapped.add_modifier(m);
        Style { added: changed.removed, removed: changed.added, ..changed }
    }
}

/// Whether `c` ends a control sequence. Where only the low byte of `c` is looked at, characters
/// beyond ASCII can end one too.
pub open spec fn is_final(c: char, low_byte_only: bool) -> bool {
    let code = if low_byte_only {
        c as u32 % 256
    } else {
        c as u32
    };
    0x40 <= code <= 0x7e
}

/// The first index from `from` on at which a control sequence ends, or the length of `s`.
pub open spec fn final_index(s: Seq<char>, from: int, low_byte_only: bool) -> int
    decreases s.len() - from,
{
    if from >= s.len() || is_final(s[from], low_byte_only) {
        from
    } else {
        final_index(s, from + 1, low_byte_only)
    }
}

/// How many characters the escape at the start of `s` takes: a control sequence up to its end,
/// the escape character alone where a control sequence has no end, and any other escape with the
/// one character after it. The last character is taken whole, whatever it is.
pub open spec fn escape_len(s: Seq<char>, low_byte_only: bool) -> int {
    if s.len() <= 1 {
        s.len() as int
    } else if s[1] == '[' {
        let end = final_index(s, 2, low_byte_only);
        if end < s.len() {
            end + 1
        } else {
            1
        }
    } else {
        2
    }
}

proof fn lemma_final_index(s: Seq<char>, from: int, low_byte_only: bool)
    requires
        0 <= from <= s.len(),
    ensures
        from <= final_index(s, from, low_byte_only) <= s.len(),
    decreases s.len() - from,
{
    if from < s.len() && !is_final(s[from], low_byte_only) {
        lemma_final_index(s, from + 1, low_byte_only);
    }
}

/// An escape takes at least one character and at most all there are.
pub proof fn lemma_escape_len(s: Seq<char>, low_byte_only: bool)
    requires
        s.len() > 0,
    ensures
        1 <= escape_len(s, low_byte_only) <= s.len(),
{
    if s.len() > 1 {
        lemma_final_index(s, 2, low_byte_only);
    }
}

/// The text of `s` without its escapes.
pub open spec fn without_escapes(s: Seq<char>, low_byte_only: bool) -> Seq<char>
    decreases s.len(),
{
    if s.len() == 0 {
        seq![]
    } else if s[0] != ESC {
        seq![s[0]] + without_escapes(s.skip(1), low_byte_only)
    } else {
        proof {
            lemma_escape_len(s, low_byte_only);
        }
        without_escapes(s.skip(escape_len(s, low_byte_only)), low_byte_only)
    }
}

/// The plain text of `s`: without its escapes, whose ends are found by their low byte.
pub open spec fn stripped(s: Seq<char>) -> Seq<char> {
    without_escapes(s, true)
}

/// Whether `c` ends a control sequence.
fn ends_sequence(c: char, low_byte_only: bool) -> (b: bool)
    ensures
        b == is_final(c, low_byte_only),
{
    let code: u32 = if low_byte_only {
        c as u32 % 256
    } else {
        c as u32
    };
    0x40 <= code && code <= 0x7e
}

/// How many characters the escape at index `start` takes.
fn escape_length(chars: &Vec<char>, start: usize, low_byte_only: bool) -> (n: usize)
    requires
        start < chars.len(),
    ensures
        n == escape_len(chars@.skip(start as int), low_byte_only),
        1 <= n <= chars.len() - start,
{
    let ghost rest = chars@.skip(start as int);
    proof {
        lemma_escape_len(rest, low_byte_only);
    }
    let left: usize = chars.len() - start;
    if left == 1 {
        1
    } else if chars[start + 1] == '[' {
        let mut i: usize = 2;
        while i < left && !ends_sequence(chars[start + i], low_byte_only)
            invariant
                2 <= i <= left,
                left == chars.len() - start,
                rest == chars@.skip(start as int),
                final_index(rest, i as int, low_byte_only) == final_index(rest, 2, low_byte_only),
            decreases left - i,
        {
            i += 1;
        }
        if i < left {
            i + 1
        } else {
            1
        }
    } else {
        2
    }
}

/// Strip ANSI escape codes, returning plain text for comparison.
pub fn strip_ansi_plain(s: &str) -> (plain: String)
    ensures
        plain@ == stripped(s@),
        !plain@.contains(ESC),
{
    proof {
        law_nothing_left_of_escapes(s@, true);
    }
    let chars = chars_of(s);
    let mut plain = String::new();
    let mut i: usize = 0;
    assert(chars@.skip(0) == s@);
    while i < chars.len()
        invariant
            i <= chars.len(),
            chars@ == s@,
            plain@ + stripped(chars@.skip(i as int)) == stripped(s@),
        decreases chars.len() - i,
    {
        let ghost rest = chars@.skip(i as int);
        if chars[i] == ESC {
            let n = escape_length(&chars, i, true);
            assert(rest.skip(n as int) == chars@.skip(i + n));
            i += n;
        } else {
            let ghost before = plain@;
            plain.push(chars[i]);
            assert(rest.skip(1) == chars@.skip(i + 1));
            assert(before + (seq![rest[0]] + stripped(rest.skip(1))) == plain@ + stripped(
                rest.skip(1),
            ));
            i += 1;
        }
    }
    plain
}

/// The eight standard colors.
pub open spec fn standard_color(n: nat) -> Color {
    if n == 0 {
        Color::Black
    } else if n == 1 {
        Color::Red
    } else if n == 2 {
        Color::Green
    } else if n == 3 {
        Color::Yellow
    } else if n == 4 {
        Color::Blue
    } else if n == 5 {
        Color::Magenta
    } else if n == 6 {
        Color::Cyan
    } else {
        Color::White
    }
}

/// Their bright variants.
pub open spec fn bright_color(n: nat) -> Color {
    if n == 0 {
        Color::DarkGray
    } else if n == 1 {
        Color::LightRed
    } else if n == 2 {
        Color::LightGreen
    } else if n == 3 {
        Color::LightYellow
    } else if n == 4 {
        Color::LightBlue
    } else if n == 5 {
        Color::LightMagenta
    } else if n == 6 {
        Color::LightCyan
    } else {
        Color::White
    }
}

/// `style` after the one code `n`. A code without a meaning here changes nothing.
pub open spec fn after_code(style: Style, n: nat) -> Style {
    if n == 0 {
        Style::unchanged()
    } else if n == 1 {
        style.adding(Modifiers::only_bold())
    } else if n == 2 {
        style.adding(Modifiers::only_dim())
    } else if n == 3 {
        style.adding(Modifiers::only_italic())
    } else if n == 4 {
        style.adding(Modifiers::only_underlined())
    } else if n == 7 {
        style.adding(Modifiers::only_reversed())
    } else if n == 22 {
        style.removing(Modifiers::only_bold().union(Modifiers::only_dim()))
    } else if n == 23 {
        style.removing(Modifiers::only_italic())
    } else if n == 24 {
        style.removing(Modifiers::only_underlined())
    } else if n == 27 {
        style.removing(Modifiers::only_reversed())
    } else if 30 <= n <= 37 {
        Style { fg: Some(standard_color((n - 30) as nat)), ..style }
    } else if n == 39 {
        Style { fg: Some(Color::Reset), ..style }
    } else if 40 <= n <= 47 {
        Style { bg: Some(standard_color((n - 40) as nat)), ..style }
    } else if n == 49 {
        Style { bg: Some(Color::Reset), ..style }
    } else if 90 <= n <= 97 {
        Style { fg: Some(bright_color((n - 90) as nat)), ..style }
    } else {
        style
    }
}

/// The number of a code: the empty code stands for 0.
pub open spec fn code_number(code: Seq<char>) -> Option<nat> {
    if code.len() == 0 {
        Some(0)
    } else {
        small_number(code)
    }
}

/// The byte that code `i` writes, or 0.
pub open spec fn byte_or_zero(codes: Seq<Seq<char>>, i: int) -> u8 {
    if i < codes.len() {
        match byte_value(codes[i]) {
            Some(n) => n,
            None => 0,
        }
    } else {
        0
    }
}

/// The color that an extended color code gives, where it gives one, and how many codes it takes:
/// `38;5;N` or `38;2;R;G;B`, and the same with 48.
pub open spec fn extended_color(codes: Seq<Seq<char>>) -> (Option<Color>, int) {
    if codes.len() < 2 {
        (None, codes.len() as int)
    } else if small_number(codes[1]) == Some(5nat) {
        if codes.len() < 3 {
            (None, 2)
        } else {
            match byte_value(codes[2]) {
                Some(n) => (Some(Color::Indexed(n)), 3),
                None => (None, 3),
            }
        }
    } else if small_number(codes[1]) == Some(2nat) {
        let color = Color::Rgb(
            byte_or_zero(codes, 2),
            byte_or_zero(codes, 3),
            byte_or_zero(codes, 4),
        );
        (
            Some(color),
            if codes.len() < 5 {
                codes.len() as int
            } else {
                5
            },
        )
    } else {
        (None, 2)
    }
}

/// `style` after the codes, in their order.
pub open spec fn after_codes(style: Style, codes: Seq<Seq<char>>) -> Style
    decreases codes.len(),
{
    if codes.len() == 0 {
        style
    } else {
        match code_number(codes[0]) {
            Some(n) => if n == 38 || n == 48 {
                let (color, used) = extended_color(codes);
                let next = match color {
                    Some(c) => if n == 38 {
                        Style { fg: Some(c), ..style }
                    } else {
                        Style { bg: Some(c), ..style }
                    },
                    None => style,
                };
                after_codes(next, codes.skip(used))
            } else {
                after_codes(after_code(style, n), codes.skip(1))
            },
            None => after_codes(style, codes.skip(1)),
        }
    }
}

/// `style` after the parameters of an SGR sequence.
pub open spec fn after_sgr(style: Style, params: Seq<char>) -> Style {
    after_codes(style, split_at_char(params, ';'))
}

/// The standard color with that number.
fn standard(n: u32) -> (color: Color)
    ensures
        color == standard_color(n as nat),
{
    match n {
        0 => Color::Black,
        1 => Color::Red,
        2 => Color::Green,
        3 => Color::Yellow,
        4 => Color::Blue,
        5 => Color::Magenta,
        6 => Color::Cyan,
        _ => Color::White,
    }
}

/// The bright color with that number.
fn bright(n: u32) -> (color: Color)
    ensures
        color == bright_color(n as nat),
{
    match n {
        0 => Color::DarkGray,
        1 => Color::LightRed,
        2 => Color::LightGreen,
        3 => Color::LightYellow,
        4 => Color::LightBlue,
        5 => Color::LightMagenta,
        6 => Color::LightCyan,
        _ => Color::White,
    }
}

/// `style` after the one code `n`.
fn apply_code(style: Style, n: u32) -> (next: Style)
    ensures
        next == after_code(style, n as nat),
{
    match n {
        0 => Style::plain(),
        1 => style.add_modifier(Modifiers::bold()),
        2 => style.add_modifier(Modifiers::dim()),
        3 => style.add_modifier(Modifiers::italic()),
        4 => style.add_modifier(Modifiers::underlined()),
        7 => style.add_modifier(Modifiers::reversed()),
        22 => style.remove_modifier(Modifiers { dim: true, ..Modifiers::bold() }),
        23 => style.remove_modifier(Modifiers::italic()),
        24 => style.remove_modifier(Modifiers::underlined()),
        27 => style.remove_modifier(Modifiers::reversed()),
        39 => Style { fg: Some(Color::Reset), ..style },
        49 => Style { bg: Some(Color::Reset), ..style },
        _ => {
            if 30 <= n && n <= 37 {
                Style { fg: Some(standard(n - 30)), ..style }
            } else if 40 <= n && n <= 47 {
                Style { bg: Some(standard(n - 40)), ..style }
            } else if 90 <= n && n <= 97 {
                Style { fg: Some(bright(n - 90)), ..style }
            } else {
                style
            }
        },
    }
}

/// The byte that the code `k` places after code `i` writes, or 0.
fn byte_at(codes: &Vec<String>, i: usize, k: usize) -> (n: u8)
    requires
        i <= codes.len(),
    ensures
        n == byte_or_zero(texts(codes@).skip(i as int), k as int),
{
    if k < codes.len() - i {
        match parse_byte(codes[i + k].as_str()) {
            Some(n) => n,
            None => 0,
        }
    } else {
        0
    }
}

/// The extended color at code `i`, and how many codes it takes.
fn extended(codes: &Vec<String>, i: usize) -> (r: (Option<Color>, usize))
    requires
        i < codes.len(),
    ensures
        r.0 == extended_color(texts(codes@).skip(i as int)).0,
        r.1 == extended_color(texts(codes@).skip(i as int)).1,
        1 <= r.1 <= codes.len() - i,
{
    let left: usize = codes.len() - i;
    if left < 2 {
        return (None, left);
    }
    match parse_small(codes[i + 1].as_str()) {
        Some(5) => {
            if left < 3 {
                return (None, 2);
            }
            match parse_byte(codes[i + 2].as_str()) {
                Some(n) => (Some(Color::Indexed(n)), 3),
                None => (None, 3),
            }
        },
        Some(2) => {
            let color = Color::Rgb(
                byte_at(codes, i, 2),
                byte_at(codes, i, 3),
                byte_at(codes, i, 4),
            );
            let used: usize = if left < 5 {
                left
            } else {
                5
            };
            (Some(color), used)
        },
        _ => (None, 2),
    }
}

/// The style after the parameters of an SGR sequence. Unknown codes are ignored.
pub fn apply_sgr(base: Style, params: &str) -> (style: Style)
    ensures
        style == after_sgr(base, params@),
{
    let codes = split(params, ';');
    let ghost all = texts(codes@);
    let mut style = base;
    let mut i: usize = 0;
    assert(all.skip(0) == all);
    while i < codes.len()
        invariant
            i <= codes.len(),
            all == texts(codes@),
            after_codes(style, all.skip(i as int)) == after_sgr(base, params@),
        decreases codes.len() - i,
    {
        let ghost rest = all.skip(i as int);
        let number: Option<u32> = if codes[i].as_str().is_empty() {
            Some(0)
        } else {
            parse_small(codes[i].as_str())
        };
        match number {
            Some(n) => {
                if n == 38 || n == 48 {
                    let (color, used) = extended(&codes, i);
                    match color {
                        Some(c) => {
                            if n == 38 {
                                style.fg = Some(c);
                            } else {
                                style.bg = Some(c);
                            }
                        },
                        None => {},
                    }
                    assert(rest.skip(used as int) == all.skip(i + used));
                    i += used;
                } else {
                    style = apply_code(style, n);
                    assert(rest.skip(1) == all.skip(i + 1));
                    i += 1;
                }
            },
            None => {
                assert(rest.skip(1) == all.skip(i + 1));
                i += 1;
            },
        }
    }
    style
}

/// What stands after the last carriage return of `s`, or all of it.
pub open spec fn after_return(s: Seq<char>) -> Seq<char>
    decreases s.len(),
{
    if s.len() == 0 || s.last() == '\r' {
        seq![]
    } else {
        after_return(s.drop_last()).push(s.last())
    }
}

/// How many characters stand before the first escape of `s`.
pub open spec fn run_len(s: Seq<char>) -> int
    decreases s.len(),
{
    if s.len() == 0 || s[0] == ESC {
        0
    } else {
        1 + run_len(s.skip(1))
    }
}

/// The style after the escape at the start of `s`: a control sequence that ends in `m` changes
/// it, and no other escape does.
pub open spec fn after_escape(style: Style, s: Seq<char>) -> Style {
    let n = escape_len(s, false);
    if n >= 3 && s[n - 1] == 'm' {
        after_sgr(style, s.subrange(2, n - 1))
    } else {
        style
    }
}

/// The runs of text between the escapes of `s`, each in the style that the escapes before it
/// leave. There are no empty runs.
pub open spec fn spans_from(s: Seq<char>, style: Style) -> Seq<SpanView>
    decreases s.len(),
{
    let n = run_len(s);
    let first = if n > 0 {
        seq![SpanView { content: s.take(n), style }]
    } else {
        seq![]
    };
    if n >= s.len() || n < 0 {
        first
    } else {
        let rest = s.skip(n);
        proof {
            lemma_run_len(s);
            lemma_escape_len(rest, false);
        }
        first + spans_from(rest.skip(escape_len(rest, false)), after_escape(style, rest))
    }
}

/// The run before the first escape ends at an escape or at the end of `s`.
pub proof fn lemma_run_len(s: Seq<char>)
    ensures
        0 <= run_len(s) <= s.len(),
        run_len(s) < s.len() ==> s[run_len(s)] == ESC,
        forall|i: int| 0 <= i < run_len(s) ==> #[trigger] s[i] != ESC,
    decreases s.len(),
{
    if s.len() > 0 && s[0] != ESC {
        let rest = s.skip(1);
        lemma_run_len(rest);
        assert forall|i: int| 0 <= i < run_len(s) implies #[trigger] s[i] != ESC by {
            if i > 0 {
                assert(rest[i - 1] == s[i]);
            }
        }
    }
}

proof fn lemma_after_return(s: Seq<char>, start: int)
    requires
        0 <= start <= s.len(),
        start > 0 ==> s[start - 1] == '\r',
        forall|i: int| start <= i < s.len() ==> #[trigger] s[i] != '\r',
    ensures
        after_return(s) == s.skip(start),
    decreases s.len(),
{
    if s.len() > start {
        lemma_after_return(s.drop_last(), start);
        assert(s.drop_last().skip(start).push(s.last()) == s.skip(start));
    } else {
        assert(s.skip(start) == Seq::<char>::empty());
    }
}

/// The index after the last carriage return.
fn return_index(chars: &Vec<char>) -> (start: usize)
    ensures
        start <= chars.len(),
        chars@.skip(start as int) == after_return(chars@),
{
    let mut start: usize = chars.len();
    while start > 0 && chars[start - 1] != '\r'
        invariant
            start <= chars.len(),
            forall|i: int| start <= i < chars.len() ==> #[trigger] chars@[i] != '\r',
        decreases start,
    {
        start -= 1;
    }
    proof {
        lemma_after_return(chars@, start as int);
    }
    start
}

/// Parse a string containing ANSI SGR escape codes into styled spans.
///
/// Non-SGR control sequences (cursor movement, screen clear, etc.) are dropped, so that they do
/// not appear as garbage in the output pane. Of a line that was updated in place with carriage
/// returns, only what stands after the last one is kept.
pub fn ansi_to_spans(s: &str) -> (spans: Vec<Span>)
    ensures
        span_views(spans@) == spans_from(after_return(s@), Style::unchanged()),
{
    let chars = chars_of(s);
    let mut spans: Vec<Span> = Vec::new();
    let mut style = Style::plain();
    let mut i = return_index(&chars);
    let ghost all = spans_from(after_return(s@), Style::unchanged());
    assert(span_views(spans@) + all == all);
    while i < chars.len()
        invariant
            i <= chars.len(),
            span_views(spans@) + spans_from(chars@.skip(i as int), style) == all,
        decreases chars.len() - i,
    {
        let ghost rest = chars@.skip(i as int);
        let ghost before = span_views(spans@);
        let mut end: usize = i;
        proof {
            lemma_run_len(rest);
        }
        while end < chars.len() && chars[end] != ESC
            invariant
                i <= end <= chars.len(),
                rest == chars@.skip(i as int),
                end - i <= run_len(rest) <= rest.len(),
                run_len(rest) < rest.len() ==> rest[run_len(rest)] == ESC,
                forall|k: int| 0 <= k < run_len(rest) ==> #[trigger] rest[k] != ESC,
            decreases chars.len() - end,
        {
            assert(chars@[end as int] == rest[end - i]);
            end += 1;
        }
        assert(end < chars.len() ==> chars@[end as int] == rest[end - i]);
        assert(run_len(rest) == end - i);
        if end > i {
            let content = string_of(vstd::slice::slice_subrange(chars.as_slice(), i, end));
            assert(content@ == rest.take(end - i));
            spans.push(Span { content, style });
        }
        let ghost first = if end > i {
            seq![SpanView { content: rest.take(end - i), style }]
        } else {
            seq![]
        };
        assert(span_views(spans@) == before + first);
        if end < chars.len() {
            let ghost tail = chars@.skip(end as int);
            assert(rest.skip(end - i) == tail);
            let n = escape_length(&chars, end, false);
            let ghost old_style = style;
            if n >= 3 && chars[end + n - 1] == 'm' {
                let params = string_of(
                    vstd::slice::slice_subrange(chars.as_slice(), end + 2, end + n - 1),
                );
                assert(params@ == tail.subrange(2, n - 1));
                style = apply_sgr(style, params.as_str());
            }
            assert(style == after_escape(old_style, tail));
            assert(tail.skip(n as int) == chars@.skip(end + n));
            assert(before + (first + spans_from(tail.skip(n as int), style)) == before + first
                + spans_from(tail.skip(n as int), style));
            i = end + n;
        } else {
            assert(chars@.skip(end as int).len() == 0);
            assert(before + first == before + first + spans_from(
                chars@.skip(end as int),
                style,
            ));
            i = end;
        }
    }
    assert(span_views(spans@) + Seq::<SpanView>::empty() == span_views(spans@));
    spans
}

/// What is left without the escapes holds no escape character.
pub proof fn law_nothing_left_of_escapes(s: Seq<char>, low_byte_only: bool)
    ensures
        !without_escapes(s, low_byte_only).contains(ESC),
    decreases s.len(),
{
    if s.len() > 0 {
        if s[0] != ESC {
            law_nothing_left_of_escapes(s.skip(1), low_byte_only);
            let left = without_escapes(s.skip(1), low_byte_only);
            assert forall|i: int| 0 <= i < left.len() + 1 implies (seq![s[0]] + left)[i] != ESC by {
                if i > 0 {
                    assert((seq![s[0]] + left)[i] == left[i - 1]);
                    assert(left.contains(left[i - 1]));
                }
            }
        } else {
            lemma_escape_len(s, low_byte_only);
            law_nothing_left_of_escapes(s.skip(escape_len(s, low_byte_only)), low_byte_only);
        }
    }
}

/// Text without an escape character is left as it is.
pub proof fn law_plain_text_unchanged(s: Seq<char>, low_byte_only: bool)
    requires
        !s.contains(ESC),
    ensures
        without_escapes(s, low_byte_only) == s,
    decreases s.len(),
{
    if s.len() > 0 {
        assert(s.contains(s[0]));
        assert forall|i: int| 0 <= i < s.len() - 1 implies #[trigger] s.skip(1)[i] != ESC by {
            assert(s.contains(s[i + 1]));
        }
        law_plain_text_unchanged(s.skip(1), low_byte_only);
        assert(seq![s[0]] + s.skip(1) == s);
    }
}

/// Stripping a second time changes nothing.
pub proof fn law_strip_twice(s: Seq<char>)
    ensures
        stripped(stripped(s)) == stripped(s),
{
    law_nothing_left_of_escapes(s, true);
    law_plain_text_unchanged(stripped(s), true);
}

/// The text that spans show, one after the other.
pub open spec fn shown_text(spans: Seq<SpanView>) -> Seq<char>
    decreases spans.len(),
{
    if spans.len() == 0 {
        seq![]
    } else {
        spans[0].content + shown_text(spans.skip(1))
    }
}

proof fn lemma_run_kept(s: Seq<char>, n: int, low_byte_only: bool)
    requires
        0 <= n <= run_len(s),
    ensures
        without_escapes(s, low_byte_only) == s.take(n) + without_escapes(s.skip(n), low_byte_only),
    decreases n,
{
    lemma_run_len(s);
    if n > 0 {
        let rest = s.skip(1);
        lemma_run_kept(rest, n - 1, low_byte_only);
        assert(rest.skip(n - 1) == s.skip(n));
        assert(seq![s[0]] + rest.take(n - 1) == s.take(n));
        assert(seq![s[0]] + (rest.take(n - 1) + without_escapes(s.skip(n), low_byte_only)) == s.take(n)
            + without_escapes(s.skip(n), low_byte_only));
    } else {
        assert(s.skip(0) == s);
        assert(s.take(0) + without_escapes(s, low_byte_only) == without_escapes(s, low_byte_only));
    }
}

/// The spans together show the text without its escapes: nothing of the text is lost, and nothing
/// of an escape is shown.
pub proof fn law_spans_show_the_text(s: Seq<char>, style: Style)
    ensures
        shown_text(spans_from(s, style)) == without_escapes(s, false),
        !shown_text(spans_from(s, style)).contains(ESC),
    decreases s.len(),
{
    let n = run_len(s);
    lemma_run_len(s);
    lemma_run_kept(s, n, false);
    let first = if n > 0 {
        seq![SpanView { content: s.take(n), style }]
    } else {
        seq![]
    };
    let rest = s.skip(n);
    if n < s.len() {
        lemma_escape_len(rest, false);
        let tail = rest.skip(escape_len(rest, false));
        let next = after_escape(style, rest);
        law_spans_show_the_text(tail, next);
        let all = spans_from(s, style);
        assert(all == first + spans_from(tail, next));
        if n > 0 {
            assert(all.skip(1) == spans_from(tail, next));
        } else {
            assert(all == spans_from(tail, next));
            assert(s.take(0) + without_escapes(rest, false) == without_escapes(rest, false));
        }
    } else {
        assert(s.take(n) == s);
        assert(s.take(n) + without_escapes(rest, false) == s);
        if n > 0 {
            assert(first.skip(1) == Seq::<SpanView>::empty());
            assert(shown_text(first.skip(1)) == Seq::<char>::empty());
            assert(s.take(n) + Seq::<char>::empty() == s);
        }
    }
    law_nothing_left_of_escapes(s, false);
}

/// No span is empty.
pub proof fn law_no_empty_span(s: Seq<char>, style: Style)
    ensures
        forall|i: int|
            0 <= i < spans_from(s, style).len() ==> #[trigger] spans_from(
                s,
                style,
            )[i].content.len() > 0,
    decreases s.len(),
{
    let n = run_len(s);
    lemma_run_len(s);
    if n < s.len() {
        let rest = s.skip(n);
        lemma_escape_len(rest, false);
        law_no_empty_span(rest.skip(escape_len(rest, false)), after_escape(style, rest));
    }
}

/// Of a line updated in place, what is kept holds no carriage return, and is the end of the line.
pub proof fn law_last_update_is_kept(s: Seq<char>)
    ensures
        !after_return(s).contains('\r'),
        after_return(s).len() <= s.len(),
        s.skip(s.len() - after_return(s).len()) == after_return(s),
        after_return(s).len() < s.len() ==> s[s.len() - after_return(s).len() - 1] == '\r',
    decreases s.len(),
{
    if s.len() > 0 && s.last() != '\r' {
        let front = s.drop_last();
        law_last_update_is_kept(front);
        let kept = after_return(front);
        assert forall|i: int| 0 <= i < kept.len() + 1 implies kept.push(s.last())[i] != '\r' by {
            if i < kept.len() {
                assert(kept.contains(kept[i]));
            }
        }
        assert(s.skip(s.len() - after_return(s).len()) == after_return(s)) by {
            assert(front.skip(front.len() - kept.len()).push(s.last()) == s.skip(
                s.len() - kept.len() - 1,
            ));
        }
    } else {
        assert(s.skip(s.len() as int) == Seq::<char>::empty());
    }
}

/// Whether each escape of `s` is a control sequence with an ASCII end.
pub open spec fn sequences_complete(s: Seq<char>) -> bool
    decreases s.len(),
{
    if s.len() == 0 {
        true
    } else if s[0] != ESC {
        sequences_complete(s.skip(1))
    } else {
        let n = escape_len(s, true);
        proof {
            lemma_escape_len(s, true);
        }
        &&& n >= 3
        &&& (s[n - 1] as u32) < 0x80
        &&& sequences_complete(s.skip(n))
    }
}

proof fn lemma_final_index_hit(s: Seq<char>, from: int, low_byte_only: bool)
    requires
        0 <= from <= s.len(),
        final_index(s, from, low_byte_only) < s.len(),
    ensures
        is_final(s[final_index(s, from, low_byte_only)], low_byte_only),
    decreases s.len() - from,
{
    if from < s.len() && !is_final(s[from], low_byte_only) {
        lemma_final_index_hit(s, from + 1, low_byte_only);
    }
}

/// The end of a control sequence is found wherever the first ending character stands.
pub proof fn lemma_final_index_at(s: Seq<char>, from: int, end: int, low_byte_only: bool)
    requires
        0 <= from <= end < s.len(),
        is_final(s[end], low_byte_only),
        forall|i: int| from <= i < end ==> !is_final(#[trigger] s[i], low_byte_only),
    ensures
        final_index(s, from, low_byte_only) == end,
    decreases end - from,
{
    if from < end {
        assert(!is_final(s[from], low_byte_only));
        lemma_final_index_at(s, from + 1, end, low_byte_only);
    }
}

proof fn lemma_escape_len_append(s: Seq<char>, t: Seq<char>)
    requires
        s.len() > 0,
        escape_len(s, true) >= 3,
    ensures
        escape_len(s + t, true) == escape_len(s, true),
{
    lemma_final_index(s, 2, true);
    let end = final_index(s, 2, true);
    lemma_final_index_hit(s, 2, true);
    lemma_not_final_before(s, 2, true);
    assert forall|i: int| 2 <= i < end implies !is_final(#[trigger] (s + t)[i], true) by {
        assert((s + t)[i] == s[i]);
    }
    lemma_final_index_at(s + t, 2, end, true);
}

pub(crate) proof fn lemma_not_final_before(s: Seq<char>, from: int, low_byte_only: bool)
    requires
        0 <= from <= s.len(),
    ensures
        forall|i: int|
            from <= i < final_index(s, from, low_byte_only) ==> !is_final(
                #[trigger] s[i],
                low_byte_only,
            ),
    decreases s.len() - from,
{
    if from < s.len() && !is_final(s[from], low_byte_only) {
        lemma_not_final_before(s, from + 1, low_byte_only);
    }
}

/// Texts whose control sequences are complete can be stripped one by one.
pub proof fn law_strip_by_parts(s: Seq<char>, t: Seq<char>)
    requires
        sequences_complete(s),
    ensures
        stripped(s + t) == stripped(s) + stripped(t),
        sequences_complete(t) ==> sequences_complete(s + t),
    decreases s.len(),
{
    let whole = s + t;
    if s.len() == 0 {
        assert(whole == t);
        assert(stripped(s) + stripped(t) == stripped(t));
    } else if s[0] != ESC {
        assert(whole.skip(1) == s.skip(1) + t);
        law_strip_by_parts(s.skip(1), t);
        assert(seq![s[0]] + (stripped(s.skip(1)) + stripped(t)) == (seq![s[0]] + stripped(s.skip(1)))
            + stripped(t));
    } else {
        let n = escape_len(s, true);
        lemma_escape_len(s, true);
        lemma_escape_len_append(s, t);
        assert(whole.skip(n) == s.skip(n) + t);
        law_strip_by_parts(s.skip(n), t);
        assert(whole[n - 1] == s[n - 1]);
    }
}

/// Text without an escape character has complete control sequences: none.
pub proof fn lemma_plain_complete(s: Seq<char>)
    requires
        !s.contains(ESC),
    ensures
        sequences_complete(s),
    decreases s.len(),
{
    if s.len() > 0 {
        assert(s.contains(s[0]));
        assert forall|i: int| 0 <= i < s.len() - 1 implies #[trigger] s.skip(1)[i] != ESC by {
            assert(s.contains(s[i + 1]));
        }
        lemma_plain_complete(s.skip(1));
    }
}

proof fn lemma_drop_space(s: Seq<char>)
    requires
        s.len() > 0,
        sequences_complete(s),
        is_space(s.last()),
    ensures
        sequences_complete(s.drop_last()),
        stripped(s) == stripped(s.drop_last()).push(s.last()),
    decreases s.len(),
{
    let front = s.drop_last();
    if s[0] != ESC {
        if s.len() > 1 {
            lemma_drop_space(s.skip(1));
            assert(s.skip(1).drop_last() == front.skip(1));
            assert(seq![s[0]] + stripped(front.skip(1)).push(s.last()) == (seq![s[0]] + stripped(
                front.skip(1),
            )).push(s.last()));
        } else {
            assert(s.skip(1) == Seq::<char>::empty());
            assert(front == Seq::<char>::empty());
            assert(stripped(Seq::<char>::empty()) == Seq::<char>::empty());
            assert(stripped(s) == seq![s[0]]);
        }
    } else {
        let n = escape_len(s, true);
        lemma_escape_len(s, true);
        lemma_final_index(s, 2, true);
        lemma_final_index_hit(s, 2, true);
        assert(is_final(s[n - 1], true));
        assert(n < s.len());
        lemma_drop_space(s.skip(n));
        assert(s.skip(n).drop_last() == front.skip(n));
        lemma_not_final_before(s, 2, true);
        assert forall|i: int| 2 <= i < n - 1 implies !is_final(#[trigger] front[i], true) by {
            assert(front[i] == s[i]);
        }
        lemma_final_index_at(front, 2, n - 1, true);
        assert(escape_len(front, true) == n);
    }
}

/// Cutting the white space at the end of a text cuts it off the stripped text too, and no control
/// sequence with it.
pub proof fn law_trim_then_strip(s: Seq<char>)
    requires
        sequences_complete(s),
    ensures
        sequences_complete(without_trailing_space(s)),
        without_trailing_space(stripped(without_trailing_space(s))) == without_trailing_space(
            stripped(s),
        ),
        trimmed(stripped(without_trailing_space(s))) == trimmed(stripped(s)),
    decreases s.len(),
{
    if s.len() > 0 && is_space(s.last()) {
        lemma_drop_space(s);
        law_trim_then_strip(s.drop_last());
        let front = stripped(s.drop_last());
        assert(front.push(s.last()).drop_last() == front);
        lemma_trim_ignores_end(front, seq![s.last()]);
        assert(front + seq![s.last()] == front.push(s.last()));
    }
}

// The codes, by their numbers.

/// Each code for a color sets that color and nothing else: those from 30 on the foreground, those
/// from 40 on the background, those from 90 on a bright foreground; 39 and 49 set them back.
pub proof fn law_color_codes(style: Style)
    ensures
        after_code(style, 30) == (Style { fg: Some(Color::Black), ..style }),
        after_code(style, 31) == (Style { fg: Some(Color::Red), ..style }),
        after_code(style, 32) == (Style { fg: Some(Color::Green), ..style }),
        after_code(style, 33) == (Style { fg: Some(Color::Yellow), ..style }),
        after_code(style, 34) == (Style { fg: Some(Color::Blue), ..style }),
        after_code(style, 35) == (Style { fg: Some(Color::Magenta), ..style }),
        after_code(style, 36) == (Style { fg: Some(Color::Cyan), ..style }),
        after_code(style, 37) == (Style { fg: Some(Color::White), ..style }),
        after_code(style, 40) == (Style { bg: Some(Color::Black), ..style }),
        after_code(style, 41) == (Style { bg: Some(Color::Red), ..style }),
        after_code(style, 42) == (Style { bg: Some(Color::Green), ..style }),
        after_code(style, 43) == (Style { bg: Some(Color::Yellow), ..style }),
        after_code(style, 44) == (Style { bg: Some(Color::Blue), ..style }),
        after_code(style, 45) == (Style { bg: Some(Color::Magenta), ..style }),
        after_code(style, 46) == (Style { bg: Some(Color::Cyan), ..style }),
        after_code(style, 47) == (Style { bg: Some(Color::White), ..style }),
        after_code(style, 90) == (Style { fg: Some(Color::DarkGray), ..style }),
        after_code(style, 91) == (Style { fg: Some(Color::LightRed), ..style }),
        after_code(style, 92) == (Style { fg: Some(Color::LightGreen), ..style }),
        after_code(style, 93) == (Style { fg: Some(Color::LightYellow), ..style }),
        after_code(style, 94) == (Style { fg: Some(Color::LightBlue), ..style }),
        after_code(style, 95) == (Style { fg: Some(Color::LightMagenta), ..style }),
        after_code(style, 96) == (Style { fg: Some(Color::LightCyan), ..style }),
        after_code(style, 97) == (Style { fg: Some(Color::White), ..style }),
        after_code(style, 39) == (Style { fg: Some(Color::Reset), ..style }),
        after_code(style, 49) == (Style { bg: Some(Color::Reset), ..style }),
{
}

/// Each code for an attribute adds it or takes it away, and changes nothing else.
pub proof fn law_attribute_codes(style: Style)
    ensures
        after_code(style, 1) == (Style {
            added: Modifiers { bold: true, ..style.added },
            removed: Modifiers { bold: false, ..style.removed },
            ..style
        }),
        after_code(style, 2) == (Style {
            added: Modifiers { dim: true, ..style.added },
            removed: Modifiers { dim: false, ..style.removed },
            ..style
        }),
        after_code(style, 3) == (Style {
            added: Modifiers { italic: true, ..style.added },
            removed: Modifiers { italic: false, ..style.removed },
            ..style
        }),
        after_code(style, 4) == (Style {
            added: Modifiers { underlined: true, ..style.added },
            removed: Modifiers { underlined: false, ..style.removed },
            ..style
        }),
        after_code(style, 7) == (Style {
            added: Modifiers { reversed: true, ..style.added },
            removed: Modifiers { reversed: false, ..style.removed },
            ..style
        }),
        after_code(style, 23) == (Style {
            added: Modifiers { italic: false, ..style.added },
            removed: Modifiers { italic: true, ..style.removed },
            ..style
        }),
        after_code(style, 24) == (Style {
            added: Modifiers { underlined: false, ..style.added },
            removed: Modifiers { underlined: true, ..style.removed },
            ..style
        }),
        after_code(style, 27) == (Style {
            added: Modifiers { reversed: false, ..style.added },
            removed: Modifiers { reversed: true, ..style.removed },
            ..style
        }),
        after_code(style, 22) == (Style {
            added: Modifiers { bold: false, dim: false, ..style.added },
            removed: Modifiers { bold: true, dim: true, ..style.removed },
            ..style
        }),
{
}

/// The code 0 takes everything back, and a code without a meaning changes nothing.
pub proof fn law_other_codes(style: Style, n: nat)
    ensures
        ({
            let none = after_code(style, 0);
            &&& none.fg is None && none.bg is None
            &&& !none.added.bold && !none.added.dim && !none.added.italic
            &&& !none.added.underlined && !none.added.reversed
            &&& !none.removed.bold && !none.removed.dim && !none.removed.italic
            &&& !none.removed.underlined && !none.removed.reversed
        }),
        n == 5 || n == 6 || 8 <= n <= 21 || n == 25 || n == 26 || n == 28 || n == 29 || n == 48
            || 50 <= n <= 89 || n >= 98 ==> after_code(style, n) == style,
{
}

/// Codes are taken in their order: each after those before it. The empty code stands for 0, and
/// what is no number is passed over.
pub proof fn law_codes_in_order(style: Style, n: nat, other: Seq<char>, rest: Seq<Seq<char>>)
    ensures
        after_codes(style, Seq::<Seq<char>>::empty()) == style,
        n < 1000 && n != 38 && n != 48 ==> after_codes(style, seq![dec(n)] + rest) == after_codes(
            after_code(style, n),
            rest,
        ),
        after_codes(style, seq![Seq::<char>::empty()] + rest) == after_codes(
            after_code(style, 0),
            rest,
        ),
        other.len() > 0 && small_number(other) is None ==> after_codes(style, seq![other] + rest)
            == after_codes(style, rest),
{
    if n < 1000 {
        lemma_small_dec(n);
    }
    assert((seq![dec(n)] + rest).skip(1) == rest);
    assert((seq![Seq::<char>::empty()] + rest).skip(1) == rest);
    assert((seq![other] + rest).skip(1) == rest);
}

/// `38;5;N` sets the foreground to a color of the palette and `38;2;R;G;B` to any color; with 48
/// they set the background. The codes after them are taken as before.
pub proof fn law_extended_colors(style: Style, r: u8, g: u8, b: u8, rest: Seq<Seq<char>>)
    ensures
        after_codes(style, seq![dec(38), dec(5), dec(r as nat)] + rest) == after_codes(
            Style { fg: Some(Color::Indexed(r)), ..style },
            rest,
        ),
        after_codes(style, seq![dec(48), dec(5), dec(r as nat)] + rest) == after_codes(
            Style { bg: Some(Color::Indexed(r)), ..style },
            rest,
        ),
        after_codes(style, seq![dec(38), dec(2), dec(r as nat), dec(g as nat), dec(b as nat)] + rest)
            == after_codes(Style { fg: Some(Color::Rgb(r, g, b)), ..style }, rest),
        after_codes(style, seq![dec(48), dec(2), dec(r as nat), dec(g as nat), dec(b as nat)] + rest)
            == after_codes(Style { bg: Some(Color::Rgb(r, g, b)), ..style }, rest),
{
    lemma_extended(style, 38, r, g, b, rest);
    lemma_extended(style, 48, r, g, b, rest);
}

proof fn lemma_extended(style: Style, n: nat, r: u8, g: u8, b: u8, rest: Seq<Seq<char>>)
    requires
        n == 38 || n == 48,
    ensures
        after_codes(style, seq![dec(n), dec(5), dec(r as nat)] + rest) == after_codes(
            if n == 38 {
                Style { fg: Some(Color::Indexed(r)), ..style }
            } else {
                Style { bg: Some(Color::Indexed(r)), ..style }
            },
            rest,
        ),
        after_codes(style, seq![dec(n), dec(2), dec(r as nat), dec(g as nat), dec(b as nat)] + rest)
            == after_codes(
            if n == 38 {
                Style { fg: Some(Color::Rgb(r, g, b)), ..style }
            } else {
                Style { bg: Some(Color::Rgb(r, g, b)), ..style }
            },
            rest,
        ),
{
    lemma_small_dec(n);
    lemma_small_dec(5);
    lemma_small_dec(2);
    lemma_byte_dec(r);
    lemma_byte_dec(g);
    lemma_byte_dec(b);
    let three = seq![dec(n), dec(5), dec(r as nat)] + rest;
    assert(three[0] == dec(n) && three[1] == dec(5) && three[2] == dec(r as nat));
    assert(three.skip(3) == rest);
    let five = seq![dec(n), dec(2), dec(r as nat), dec(g as nat), dec(b as nat)] + rest;
    assert(five[0] == dec(n) && five[1] == dec(2));
    assert(five[2] == dec(r as nat) && five[3] == dec(g as nat) && five[4] == dec(b as nat));
    assert(five.skip(5) == rest);
}

/// An extended color that is not complete sets nothing, or takes what is missing as 0; and one of
/// an unknown kind is passed over with its kind.
pub proof fn law_incomplete_colors(style: Style, kind: Seq<char>, rest: Seq<Seq<char>>)
    ensures
        after_codes(style, seq![dec(38)]) == style,
        after_codes(style, seq![dec(48)]) == style,
        after_codes(style, seq![dec(38), dec(5)]) == style,
        after_codes(style, seq![dec(48), dec(5)]) == style,
        after_codes(style, seq![dec(38), dec(2)]) == (Style {
            fg: Some(Color::Rgb(0, 0, 0)),
            ..style
        }),
        small_number(kind) != Some(2nat) && small_number(kind) != Some(5nat) ==> after_codes(
            style,
            seq![dec(38), kind] + rest,
        ) == after_codes(style, rest) && after_codes(style, seq![dec(48), kind] + rest)
            == after_codes(style, rest),
{
    lemma_small_dec(38);
    lemma_small_dec(48);
    lemma_small_dec(5);
    lemma_small_dec(2);
    let none = Seq::<Seq<char>>::empty();
    assert(seq![dec(38)].skip(1) == none);
    assert(seq![dec(48)].skip(1) == none);
    assert(seq![dec(38), dec(5)].skip(2) == none);
    assert(seq![dec(48), dec(5)].skip(2) == none);
    assert(seq![dec(38), dec(2)].skip(2) == none);
    assert(after_codes(style, none) == style);
    let black = Style { fg: Some(Color::Rgb(0, 0, 0)), ..style };
    assert(after_codes(black, none) == black);
    assert((seq![dec(38), kind] + rest).skip(2) == rest);
    assert((seq![dec(48), kind] + rest).skip(2) == rest);
}

/// The parameters of a sequence are the codes between its semicolons.
pub proof fn law_parameters(style: Style, codes: Seq<Seq<char>>)
    requires
        codes.len() > 0,
        forall|i: int| 0 <= i < codes.len() ==> !(#[trigger] codes[i]).contains(';'),
    ensures
        after_sgr(style, joined(codes, seq![';'])) == after_codes(style, codes),
{
    lemma_split_joined(codes, ';');
}

// Escapes.

/// The escape character has the number 27. A control sequence ends with a character from `@` to
/// `~`. Where only the low byte is looked at,
/// any character whose number has such a low byte ends one.
pub proof fn law_final_characters(c: char)
    ensures
        ESC as u32 == 27,
        is_final(c, false) <==> '@' <= c && c <= '~',
        is_final(c, true) <==> 64 <= c as u32 % 256 && c as u32 % 256 <= 126,
{
}

/// A control sequence is taken out from the escape character to its end.
pub proof fn law_control_sequence_is_taken_out(
    params: Seq<char>,
    end: char,
    rest: Seq<char>,
    low_byte_only: bool,
)
    requires
        is_final(end, low_byte_only),
        forall|i: int| 0 <= i < params.len() ==> !is_final(#[trigger] params[i], low_byte_only),
    ensures
        without_escapes(seq![ESC, '['] + params + seq![end] + rest, low_byte_only)
            == without_escapes(rest, low_byte_only),
{
    lemma_sequence_len(params, end, rest, low_byte_only);
}

proof fn lemma_sequence_len(
    params: Seq<char>,
    end: char,
    rest: Seq<char>,
    low_byte_only: bool,
)
    requires
        is_final(end, low_byte_only),
        forall|i: int| 0 <= i < params.len() ==> !is_final(#[trigger] params[i], low_byte_only),
    ensures
        ({
            let all = seq![ESC, '['] + params + seq![end] + rest;
            let n = params.len() as int + 3;
            &&& all[0] == ESC
            &&& escape_len(all, low_byte_only) == n
            &&& all[n - 1] == end
            &&& all.subrange(2, n - 1) == params
            &&& all.skip(n) == rest
        }),
{
    let all = seq![ESC, '['] + params + seq![end] + rest;
    let n = params.len() as int + 3;
    assert(all[1] == '[');
    assert forall|i: int| 2 <= i < n - 1 implies !is_final(#[trigger] all[i], low_byte_only) by {
        assert(all[i] == params[i - 2]);
    }
    lemma_final_index_at(all, 2, n - 1, low_byte_only);
    assert(all.subrange(2, n - 1) == params);
    assert(all.skip(n) == rest);
}

/// Of a control sequence without an end only the escape character is taken out; any other escape
/// takes the character after it along, and text stays.
pub proof fn law_other_escapes(c: char, text: Seq<char>, rest: Seq<char>, low_byte_only: bool)
    ensures
        c != ESC ==> without_escapes(seq![c] + rest, low_byte_only) == seq![c] + without_escapes(
            rest,
            low_byte_only,
        ),
        c != '[' ==> without_escapes(seq![ESC, c] + rest, low_byte_only) == without_escapes(
            rest,
            low_byte_only,
        ),
        without_escapes(seq![ESC], low_byte_only).len() == 0,
        (forall|i: int| 0 <= i < text.len() ==> !is_final(#[trigger] text[i], low_byte_only))
            ==> without_escapes(seq![ESC, '['] + text, low_byte_only) == seq!['[']
            + without_escapes(text, low_byte_only),
{
    assert((seq![c] + rest).skip(1) == rest);
    assert((seq![ESC, c] + rest).skip(2) == rest);
    assert(seq![ESC].skip(1) == Seq::<char>::empty());
    assert(without_escapes(Seq::<char>::empty(), low_byte_only) == Seq::<char>::empty());
    if forall|i: int| 0 <= i < text.len() ==> !is_final(#[trigger] text[i], low_byte_only) {
        let all = seq![ESC, '['] + text;
        assert(all[1] == '[');
        lemma_final_index(all, 2, low_byte_only);
        let end = final_index(all, 2, low_byte_only);
        if end < all.len() {
            lemma_final_index_hit(all, 2, low_byte_only);
            assert(all[end] == text[end - 2]);
        }
        assert(escape_len(all, low_byte_only) == 1);
        let tail = seq!['['] + text;
        assert(all.skip(1) == tail);
        assert(tail[0] == '[');
        assert(tail.skip(1) == text);
        assert(without_escapes(tail, low_byte_only) == seq!['['] + without_escapes(
            text,
            low_byte_only,
        ));
    }
}

/// Text is shown in the style that stands when it comes, as one span up to the next escape. A
/// sequence that ends in `m` changes the style for what follows it, and no other escape does.
pub proof fn law_styles_apply_to_what_follows(
    text: Seq<char>,
    params: Seq<char>,
    end: char,
    rest: Seq<char>,
    style: Style,
)
    requires
        text.len() > 0,
        !text.contains(ESC),
        '@' <= end && end <= '~',
        forall|i: int| 0 <= i < params.len() ==> !('@' <= #[trigger] params[i] && params[i] <= '~'),
    ensures
        spans_from(text, style) == seq![SpanView { content: text, style }],
        spans_from(text + (seq![ESC, '['] + params + seq![end] + rest), style) == seq![
            SpanView { content: text, style },
        ] + spans_from(
            rest,
            if end == 'm' {
                after_sgr(style, params)
            } else {
                style
            },
        ),
        end != '[' ==> spans_from(text + (seq![ESC, end] + rest), style) == seq![
            SpanView { content: text, style },
        ] + spans_from(rest, style),
{
    assert forall|i: int| 0 <= i < params.len() implies !is_final(#[trigger] params[i], false) by {
        assert(!('@' <= params[i] && params[i] <= '~'));
        law_final_characters(params[i]);
    }
    lemma_sequence_len(params, end, rest, false);
    lemma_first_span(text, Seq::<char>::empty(), style);
    assert(text + Seq::<char>::empty() == text);
    let escape = seq![ESC, '['] + params + seq![end] + rest;
    lemma_first_span(text, escape, style);
    let other = seq![ESC, end] + rest;
    lemma_first_span(text, other, style);
    assert(other.skip(2) == rest);
}

proof fn lemma_first_span(text: Seq<char>, rest: Seq<char>, style: Style)
    requires
        text.len() > 0,
        !text.contains(ESC),
        rest.len() > 0 ==> rest[0] == ESC,
    ensures
        rest.len() == 0 ==> spans_from(text + rest, style) == seq![SpanView { content: text, style }],
        rest.len() > 0 ==> spans_from(text + rest, style) == seq![SpanView { content: text, style }]
            + spans_from(rest.skip(escape_len(rest, false)), after_escape(style, rest)),
{
    let all = text + rest;
    lemma_run_of_text(text, rest);
    assert(all.take(text.len() as int) == text);
    assert(all.skip(text.len() as int) == rest);
}

proof fn lemma_run_of_text(text: Seq<char>, rest: Seq<char>)
    requires
        !text.contains(ESC),
        rest.len() > 0 ==> rest[0] == ESC,
    ensures
        run_len(text + rest) == text.len(),
    decreases text.len(),
{
    let all = text + rest;
    if text.len() > 0 {
        let shorter = text.skip(1);
        assert(text.contains(text[0]));
        assert forall|i: int| 0 <= i < shorter.len() implies shorter[i] != ESC by {
            assert(text.contains(text[i + 1]));
        }
        lemma_run_of_text(shorter, rest);
        assert(all.skip(1) == shorter + rest);
    }
}

/// A part of an extended color that is no byte counts as 0, as does one that is missing; a palette
/// number that is no byte sets nothing. The codes after them are taken as before.
pub proof fn law_bad_color_parts(
    style: Style,
    n: nat,
    bad: Seq<char>,
    r: u8,
    g: u8,
    rest: Seq<Seq<char>>,
)
    requires
        n == 38 || n == 48,
        byte_value(bad) is None,
    ensures
        after_codes(style, seq![dec(n), dec(5), bad] + rest) == after_codes(style, rest),
        after_codes(style, seq![dec(n), dec(2), bad, dec(r as nat), dec(g as nat)] + rest)
            == after_codes(in_ground(style, n, Color::Rgb(0, r, g)), rest),
        after_codes(style, seq![dec(n), dec(2), dec(r as nat), bad, dec(g as nat)] + rest)
            == after_codes(in_ground(style, n, Color::Rgb(r, 0, g)), rest),
        after_codes(style, seq![dec(n), dec(2), dec(r as nat), dec(g as nat), bad] + rest)
            == after_codes(in_ground(style, n, Color::Rgb(r, g, 0)), rest),
        after_codes(style, seq![dec(n), dec(2), dec(r as nat)]) == in_ground(
            style,
            n,
            Color::Rgb(r, 0, 0),
        ),
        after_codes(style, seq![dec(n), dec(2), dec(r as nat), dec(g as nat)]) == in_ground(
            style,
            n,
            Color::Rgb(r, g, 0),
        ),
{
    lemma_small_dec(n);
    lemma_small_dec(5);
    lemma_small_dec(2);
    lemma_byte_dec(r);
    lemma_byte_dec(g);
    let none = Seq::<Seq<char>>::empty();
    assert((seq![dec(n), dec(5), bad] + rest).skip(3) == rest);
    assert((seq![dec(n), dec(2), bad, dec(r as nat), dec(g as nat)] + rest).skip(5) == rest);
    assert((seq![dec(n), dec(2), dec(r as nat), bad, dec(g as nat)] + rest).skip(5) == rest);
    assert((seq![dec(n), dec(2), dec(r as nat), dec(g as nat), bad] + rest).skip(5) == rest);
    assert(seq![dec(n), dec(2), dec(r as nat)].skip(3) == none);
    assert(seq![dec(n), dec(2), dec(r as nat), dec(g as nat)].skip(4) == none);
    assert(after_codes(in_ground(style, n, Color::Rgb(r, 0, 0)), none) == in_ground(
        style,
        n,
        Color::Rgb(r, 0, 0),
    ));
    assert(after_codes(in_ground(style, n, Color::Rgb(r, g, 0)), none) == in_ground(
        style,
        n,
        Color::Rgb(r, g, 0),
    ));
}

/// With that color in the foreground, or in the background where the code is not 38.
pub open spec fn in_ground(style: Style, n: nat, color: Color) -> Style {
    if n == 38 {
        Style { fg: Some(color), ..style }
    } else {
        Style { bg: Some(color), ..style }
    }
}

} // verus!
