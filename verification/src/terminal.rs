//! The terminal emulator that interactive tasks run in, and the lines that its screen shows.

use vstd::prelude::*;
use vstd::string::StringExecFns;

use crate::ansi::{
    after_code, after_codes, after_sgr, bright_color, escape_len, is_final,
    law_plain_text_unchanged, law_strip_by_parts, law_trim_then_strip, lemma_final_index_at,
    lemma_plain_complete, sequences_complete, standard_color, stripped, Color, Modifiers, Style,
    ESC,
};
use crate::text::{
    all_digits, blank, dec, decimal, is_blank, is_digit, is_space, join, joined,
    law_trailing_space_is_cut, lemma_byte_dec, lemma_dec_digits, lemma_small_dec,
    lemma_split_joined, lemma_trim_ignores_end, lemma_trim_nonblank, texts, trim_end, trimmed,
    without_trailing_space,
};

verus! {

/// The color of a cell.
#[derive(Clone, Copy, Debug, PartialEq, Eq, Structural)]
pub enum CellColor {
    /// The terminal's own color.
    Default,
    /// A color of the palette.
    Idx(u8),
    /// Red, green and blue.
    Rgb(u8, u8, u8),
}

/// How a cell is drawn.
#[derive(Clone, Copy, Debug, PartialEq, Eq, Structural)]
pub struct CellStyle {
    pub fg: CellColor,
    pub bg: CellColor,
    pub bold: bool,
    pub italic: bool,
    pub underline: bool,
    pub inverse: bool,
}

/// One cell of the screen.
#[derive(Clone, Debug)]
pub struct Cell {
    pub contents: String,
    pub wide: bool,
    pub wide_continuation: bool,
    pub style: CellStyle,
}

/// What a `Cell` holds.
pub ghost struct CellView {
    pub contents: Seq<char>,
    pub wide: bool,
    pub wide_continuation: bool,
    pub style: CellStyle,
}

impl View for Cell {
    type V = CellView;

    open spec fn view(&self) -> CellView {
        CellView {
            contents: self.contents@,
            wide: self.wide,
            wide_continuation: self.wide_continuation,
            style: self.style,
        }
    }
}

/// What the screen of the emulator shows: its cells, the text of each row, and whether a program
/// has switched to the alternate screen.
#[derive(Debug)]
pub struct Screen {
    pub cells: Vec<Vec<Cell>>,
    pub rows: Vec<String>,
    pub alternate: bool,
}

/// What a `Screen` holds.
pub ghost struct ScreenView {
    pub cells: Seq<Seq<CellView>>,
    pub rows: Seq<Seq<char>>,
    pub alternate: bool,
}

/// The cells of a row.
pub open spec fn cell_views(cells: Seq<Cell>) -> Seq<CellView> {
    cells.map_values(|c: Cell| c@)
}

impl View for Screen {
    type V = ScreenView;

    open spec fn view(&self) -> ScreenView {
        ScreenView {
            cells: self.cells@.map_values(|row: Vec<Cell>| cell_views(row@)),
            rows: texts(self.rows@),
            alternate: self.alternate,
        }
    }
}

impl CellView {
    /// A cell as the emulator makes them: without the escape character and carriage returns, with
    /// something in the first half of a wide character and with nothing in its second half.
    pub open spec fn valid(self) -> bool {
        &&& !self.contents.contains(ESC)
        &&& !self.contents.contains('\r')
        &&& self.wide ==> self.contents.len() > 0
        &&& self.wide_continuation ==> self.contents.len() == 0
    }

    /// How many columns the cell takes.
    pub open spec fn width(self) -> int {
        if self.wide {
            2
        } else {
            1
        }
    }
}

impl ScreenView {
    /// A screen as the emulator makes them: the text of each row is that of its cells.
    pub open spec fn valid(self) -> bool {
        &&& forall|r: int, c: int|
            0 <= r < self.cells.len() && 0 <= c < self.cells[r].len()
                ==> #[trigger] self.cells[r][c].valid()
        &&& self.rows == self.row_texts()
    }

    /// The text of the cells of each row.
    pub open spec fn row_texts(self) -> Seq<Seq<char>> {
        self.cells.map_values(|row: Seq<CellView>| row_text(row))
    }
}

impl Screen {
    /// A screen as the emulator makes them.
    pub open spec fn wf(&self) -> bool {
        self@.valid()
    }
}

/// `n` spaces.
pub open spec fn spaces(n: int) -> Seq<char> {
    Seq::new(
        if n > 0 {
            n as nat
        } else {
            0
        },
        |i: int| ' ',
    )
}

/// The text of a row from column `col` on, where the text written so far ends at column
/// `written`: empty columns are written as spaces once something stands after them.
pub open spec fn row_text_from(row: Seq<CellView>, col: int, written: int) -> Seq<char>
    decreases row.len() + 1 - col,
{
    if col < 0 || col >= row.len() {
        seq![]
    } else {
        let cell = row[col];
        let next = col + cell.width();
        if cell.contents.len() > 0 || cell.wide_continuation {
            spaces(col - written) + cell.contents + row_text_from(row, next, next)
        } else {
            row_text_from(row, next, written)
        }
    }
}

/// The text of a row.
pub open spec fn row_text(row: Seq<CellView>) -> Seq<char> {
    row_text_from(row, 0, 0)
}

// The emulator.

/// The terminal emulator of the `vt100` crate.
#[verifier::external_type_specification]
#[verifier::external_body]
pub struct ExParser(vt100::Parser);

/// The size that the emulator was made with: rows, then columns.
pub uninterp spec fn emulator_size(emulator: vt100::Parser) -> (u16, u16);

/// The bytes that the emulator has taken in since it was made.
pub uninterp spec fn emulator_input(emulator: vt100::Parser) -> Seq<u8>;

/// What `vt100::Screen::cell` gives in an emulator of that size that has taken in those bytes.
pub uninterp spec fn emulated_cell(
    rows: u16,
    cols: u16,
    input: Seq<u8>,
    row: u16,
    col: u16,
) -> CellView;

/// What `vt100::Screen::alternate_screen` gives in an emulator that has taken in those bytes.
pub uninterp spec fn emulated_alternate(input: Seq<u8>) -> bool;

/// The sizes at which the emulator takes in any bytes. With fewer rows it breaks off where a
/// character is wrapped, with fewer columns where one is wider than the screen (the widest takes
/// three columns), and with more columns where a tab stands near the last one.
pub open spec fn size_works(size: (u16, u16)) -> bool {
    &&& 2 <= size.0
    &&& 3 <= size.1 <= 65527
}

/// Whether a screen of that size has that cell.
pub open spec fn on_screen(size: (u16, u16), row: u16, col: u16) -> bool {
    row < size.0 && col < size.1
}

/// The row with that index.
pub open spec fn emulated_row(rows: u16, cols: u16, input: Seq<u8>, row: int) -> Seq<CellView> {
    Seq::new(cols as nat, |col: int| emulated_cell(rows, cols, input, row as u16, col as u16))
}

/// The screen of an emulator of that size that has taken in those bytes.
pub open spec fn emulated_screen(rows: u16, cols: u16, input: Seq<u8>) -> ScreenView {
    let cells = Seq::new(rows as nat, |row: int| emulated_row(rows, cols, input, row));
    ScreenView {
        cells,
        rows: cells.map_values(|row: Seq<CellView>| row_text(row)),
        alternate: emulated_alternate(input),
    }
}

/// The screen of the emulator.
pub open spec fn screen_of(emulator: vt100::Parser) -> ScreenView {
    emulated_screen(
        emulator_size(emulator).0,
        emulator_size(emulator).1,
        emulator_input(emulator),
    )
}

/// `vt100::Parser::new` makes an emulator of that size that has taken in nothing. The rows that
/// it keeps after they have scrolled off do not show on its screen.
pub assume_specification[ vt100::Parser::new ](
    rows: u16,
    cols: u16,
    scrollback_len: usize,
) -> (emulator: vt100::Parser)
    requires
        rows >= 1,
    ensures
        emulator_size(emulator) == (rows, cols),
        emulator_input(emulator) == Seq::<u8>::empty(),
;

/// `vt100::Parser::process` takes in the bytes one by one, after those before them, and keeps the
/// size.
pub assume_specification[ vt100::Parser::process ](emulator: &mut vt100::Parser, bytes: &[u8])
    requires
        size_works(emulator_size(*old(emulator))),
    ensures
        emulator_size(*final(emulator)) == emulator_size(*old(emulator)),
        emulator_input(*final(emulator)) == emulator_input(*old(emulator)) + bytes@,
;

/// `vt100::Screen::size` gives the size that the emulator was made with: rows, then columns.
#[verifier::external_body]
fn screen_size(emulator: &vt100::Parser) -> (size: (u16, u16))
    ensures
        size == emulator_size(*emulator),
{
    emulator.screen().size()
}

/// `vt100::Screen::alternate_screen` depends on nothing but the bytes taken in.
#[verifier::external_body]
fn alternate_screen(emulator: &vt100::Parser) -> (alternate: bool)
    ensures
        alternate == emulated_alternate(emulator_input(*emulator)),
{
    emulator.screen().alternate_screen()
}

/// `vt100::Screen::cell` gives the cell at that place, or `None` outside of the screen; what the
/// cell holds is read with the methods of `vt100::Cell`. What a cell holds was printed, so no
/// control character is in it; a wide character is set in the first of its two cells, and the
/// second is cleared.
#[verifier::external_body]
fn cell_at(emulator: &vt100::Parser, row: u16, col: u16) -> (cell: Option<Cell>)
    ensures
        cell is Some == on_screen(emulator_size(*emulator), row, col),
        cell is Some ==> cell->0@.valid() && cell->0@ == emulated_cell(
            emulator_size(*emulator).0,
            emulator_size(*emulator).1,
            emulator_input(*emulator),
            row,
            col,
        ),
{
    let c = emulator.screen().cell(row, col)?;
    let color = |k| match k {
        vt100::Color::Default => CellColor::Default,
        vt100::Color::Idx(n) => CellColor::Idx(n),
        vt100::Color::Rgb(r, g, b) => CellColor::Rgb(r, g, b),
    };
    let (fg, bg) = (color(c.fgcolor()), color(c.bgcolor()));
    let (bold, italic, underline) = (c.bold(), c.italic(), c.underline());
    let style = CellStyle { fg, bg, bold, italic, underline, inverse: c.inverse() };
    let wide_continuation = c.is_wide_continuation();
    Some(Cell { contents: c.contents(), wide: c.is_wide(), wide_continuation, style })
}

/// `vt100::Screen::rows`, over all columns, gives the text of each row: what its cells hold, with
/// spaces for empty columns that something stands after.
#[verifier::external_body]
fn screen_rows(emulator: &vt100::Parser, cols: u16) -> (rows: Vec<String>)
    requires
        cols == emulator_size(*emulator).1,
    ensures
        texts(rows@) == screen_of(*emulator).rows,
{
    emulator.screen().rows(0, cols).collect()
}

/// Whether the emulator takes in any bytes at its size.
pub fn emulator_works(emulator: &vt100::Parser) -> (works: bool)
    ensures
        works == size_works(emulator_size(*emulator)),
{
    let (rows, cols) = screen_size(emulator);
    2 <= rows && 3 <= cols && cols <= 65527
}

/// What the screen of the emulator shows.
pub fn read_screen(emulator: &vt100::Parser) -> (screen: Screen)
    ensures
        screen@ == screen_of(*emulator),
        screen.wf(),
{
    let (rows, cols) = screen_size(emulator);
    let ghost shown = screen_of(*emulator);
    let mut cells: Vec<Vec<Cell>> = Vec::new();
    for row in 0..rows
        invariant
            (rows, cols) == emulator_size(*emulator),
            shown == screen_of(*emulator),
            cells.len() == row,
            forall|r: int| 0 <= r < row ==> cell_views((#[trigger] cells@[r])@) == shown.cells[r],
            forall|r: int, c: int|
                0 <= r < row && 0 <= c < cols ==> #[trigger] shown.cells[r][c].valid(),
    {
        let mut line: Vec<Cell> = Vec::new();
        for col in 0..cols
            invariant
                row < rows,
                (rows, cols) == emulator_size(*emulator),
                shown == screen_of(*emulator),
                line.len() == col,
                forall|c: int| 0 <= c < col ==> (#[trigger] line@[c])@ == shown.cells[row as int][c],
                forall|c: int| 0 <= c < col ==> (#[trigger] shown.cells[row as int][c]).valid(),
        {
            match cell_at(emulator, row, col) {
                Some(cell) => line.push(cell),
                None => {},
            }
        }
        assert(cell_views(line@) == shown.cells[row as int]);
        cells.push(line);
    }
    let texts_of_rows = screen_rows(emulator, cols);
    let screen = Screen { cells, rows: texts_of_rows, alternate: alternate_screen(emulator) };
    assert(screen@.cells == shown.cells);
    screen
}

// The lines of a screen.

impl CellStyle {
    /// No color and no attribute.
    pub open spec fn unstyled() -> CellStyle {
        CellStyle {
            fg: CellColor::Default,
            bg: CellColor::Default,
            bold: false,
            italic: false,
            underline: false,
            inverse: false,
        }
    }

    /// No color and no attribute.
    pub fn plain() -> (style: CellStyle)
        ensures
            style == CellStyle::unstyled(),
    {
        CellStyle {
            fg: CellColor::Default,
            bg: CellColor::Default,
            bold: false,
            italic: false,
            underline: false,
            inverse: false,
        }
    }
}

/// The SGR codes for a color. The codes for foreground colors start at 30, those for background
/// colors at 40.
pub open spec fn color_codes(color: CellColor, base: nat) -> Seq<Seq<char>> {
    match color {
        CellColor::Default => seq![dec(base + 9)],
        CellColor::Idx(n) => if n < 8 {
            seq![dec(base + n as nat)]
        } else if n < 16 {
            seq![dec((base + 60 + n - 8) as nat)]
        } else {
            seq![dec(base + 8), dec(5), dec(n as nat)]
        },
        CellColor::Rgb(r, g, b) => seq![
            dec(base + 8),
            dec(2),
            dec(r as nat),
            dec(g as nat),
            dec(b as nat),
        ],
    }
}

/// The code `n` where `on`, else no code.
pub open spec fn code_if(on: bool, n: nat) -> Seq<Seq<char>> {
    if on {
        seq![dec(n)]
    } else {
        seq![]
    }
}

/// A reset, then the codes for the attributes of `style`.
pub open spec fn attribute_codes(style: CellStyle) -> Seq<Seq<char>> {
    seq![dec(0)] + code_if(style.bold, 1) + code_if(style.italic, 3) + code_if(style.underline, 4)
        + code_if(style.inverse, 7)
}

/// The codes for a color that is not the terminal's own.
pub open spec fn set_color_codes(color: CellColor, base: nat) -> Seq<Seq<char>> {
    if color != CellColor::Default {
        color_codes(color, base)
    } else {
        seq![]
    }
}

/// The SGR codes that draw in `style`, whatever was drawn before: a reset first, then the
/// attributes, then the colors.
pub open spec fn style_codes(style: CellStyle) -> Seq<Seq<char>> {
    attribute_codes(style) + set_color_codes(style.fg, 30) + set_color_codes(style.bg, 40)
}

/// The SGR sequence with those codes.
pub open spec fn sgr_sequence(codes: Seq<Seq<char>>) -> Seq<char> {
    seq![ESC, '['] + joined(codes, seq![';']) + seq!['m']
}

/// The SGR sequence that ends all drawing attributes.
pub open spec fn sgr_reset() -> Seq<char> {
    seq![ESC, '[', '0', 'm']
}

/// A row from column `col` on, where the text before it is drawn in `before`: an SGR sequence
/// where the style changes, what the cells hold, a space for an empty cell, and a reset at the
/// end where it is needed.
pub open spec fn line_from(row: Seq<CellView>, col: int, before: CellStyle) -> Seq<char>
    decreases row.len() + 1 - col,
{
    if col < 0 || col >= row.len() {
        if before != CellStyle::unstyled() {
            sgr_reset()
        } else {
            seq![]
        }
    } else {
        let cell = row[col];
        if cell.wide_continuation {
            line_from(row, col + 1, before)
        } else {
            let sgr = if cell.style != before {
                sgr_sequence(style_codes(cell.style))
            } else {
                seq![]
            };
            let text = if cell.contents.len() > 0 {
                cell.contents
            } else {
                seq![' ']
            };
            sgr + text + line_from(row, col + cell.width(), cell.style)
        }
    }
}

/// The line for a row, without white space at its end.
pub open spec fn line_of(row: Seq<CellView>) -> Seq<char> {
    without_trailing_space(line_from(row, 0, CellStyle::unstyled()))
}

/// The lines without the blank ones at the end.
pub open spec fn without_blank_end(lines: Seq<Seq<char>>) -> Seq<Seq<char>>
    decreases lines.len(),
{
    if lines.len() > 0 && blank(lines.last()) {
        without_blank_end(lines.drop_last())
    } else {
        lines
    }
}

/// The lines for the rows of a screen.
pub open spec fn screen_lines(cells: Seq<Seq<CellView>>) -> Seq<Seq<char>> {
    without_blank_end(cells.map_values(|row: Seq<CellView>| line_of(row)))
}

proof fn lemma_semicolon()
    ensures
        ";"@ == seq![';'],
{
    reveal_strlit(";");
}

/// The SGR codes for a color, where `base` is 30 for the foreground and 40 for the background.
fn color_code(color: &CellColor, base: u64) -> (code: String)
    requires
        base <= 40,
    ensures
        code@ == joined(color_codes(*color, base as nat), seq![';']),
{
    let mut parts: Vec<String> = Vec::new();
    match color {
        CellColor::Default => {
            parts.push(decimal(base + 9));
        },
        CellColor::Idx(n) => {
            if *n < 8 {
                parts.push(decimal(base + *n as u64));
            } else if *n < 16 {
                parts.push(decimal(base + 60 + *n as u64 - 8));
            } else {
                parts.push(decimal(base + 8));
                parts.push(decimal(5));
                parts.push(decimal(*n as u64));
            }
        },
        CellColor::Rgb(r, g, b) => {
            parts.push(decimal(base + 8));
            parts.push(decimal(2));
            parts.push(decimal(*r as u64));
            parts.push(decimal(*g as u64));
            parts.push(decimal(*b as u64));
        },
    }
    proof {
        lemma_semicolon();
        assert(texts(parts@) == color_codes(*color, base as nat));
    }
    join(&parts, ";")
}

/// The SGR parameters for a foreground color.
pub fn vt_fg(color: &CellColor) -> (code: String)
    ensures
        code@ == joined(color_codes(*color, 30), seq![';']),
{
    color_code(color, 30)
}

/// The SGR parameters for a background color.
pub fn vt_bg(color: &CellColor) -> (code: String)
    ensures
        code@ == joined(color_codes(*color, 40), seq![';']),
{
    color_code(color, 40)
}

proof fn lemma_joined_parts(parts: Seq<Seq<char>>, more: Seq<Seq<char>>, sep: Seq<char>)
    requires
        parts.len() > 0,
        more.len() > 0,
    ensures
        joined(parts.push(joined(more, sep)), sep) == joined(parts + more, sep),
    decreases more.len(),
{
    let all = parts + more;
    assert(parts.push(joined(more, sep)).drop_last() == parts);
    assert(all.drop_last() == parts + more.drop_last());
    assert(all.last() == more.last());
    if more.len() == 1 {
        assert(all.drop_last() == parts);
        assert(joined(more, sep) == more[0]);
    } else {
        lemma_joined_parts(parts, more.drop_last(), sep);
        assert(parts.push(joined(more.drop_last(), sep)).drop_last() == parts);
        assert(joined(parts, sep) + sep + joined(more.drop_last(), sep) + sep + more.last()
            == joined(parts, sep) + sep + (joined(more.drop_last(), sep) + sep + more.last()));
    }
}

/// Adds the code `n` where `on`.
fn push_code(params: &mut Vec<String>, on: bool, n: u64)
    ensures
        texts(final(params)@) == texts(old(params)@) + code_if(on, n as nat),
{
    if on {
        params.push(decimal(n));
    }
    assert(texts(params@) == texts(old(params)@) + code_if(on, n as nat));
}

/// A reset, then the codes for the attributes of `style`.
fn attribute_params(style: &CellStyle) -> (params: Vec<String>)
    ensures
        texts(params@) == attribute_codes(*style),
{
    let mut params: Vec<String> = Vec::new();
    params.push(decimal(0));
    assert(texts(params@) == seq![dec(0)]);
    push_code(&mut params, style.bold, 1);
    push_code(&mut params, style.italic, 3);
    push_code(&mut params, style.underline, 4);
    push_code(&mut params, style.inverse, 7);
    params
}

/// The SGR parameters that draw in `style`.
fn style_params(style: &CellStyle) -> (params: String)
    ensures
        params@ == joined(style_codes(*style), seq![';']),
{
    let ghost sep = seq![';'];
    let ghost attributes = attribute_codes(*style);
    let ghost fg = set_color_codes(style.fg, 30);
    let ghost bg = set_color_codes(style.bg, 40);
    let mut params = attribute_params(style);
    if style.fg != CellColor::Default {
        params.push(vt_fg(&style.fg));
        proof {
            assert(texts(params@) == attributes.push(joined(fg, sep)));
            lemma_joined_parts(attributes, fg, sep);
        }
    } else {
        assert(attributes + fg == attributes);
    }
    let ghost colored = texts(params@);
    assert(joined(colored, sep) == joined(attributes + fg, sep));
    if style.bg != CellColor::Default {
        params.push(vt_bg(&style.bg));
        proof {
            assert(texts(params@) == colored.push(joined(bg, sep)));
            assert(texts(params@).drop_last() == colored);
            lemma_joined_parts(attributes + fg, bg, sep);
            assert((attributes + fg).push(joined(bg, sep)).drop_last() == attributes + fg);
        }
    } else {
        assert(attributes + fg + bg == attributes + fg);
    }
    proof {
        lemma_semicolon();
    }
    join(&params, ";")
}

/// The SGR sequence that draws in `style`.
fn style_sequence(style: &CellStyle) -> (sequence: String)
    ensures
        sequence@ == sgr_sequence(style_codes(*style)),
{
    let mut sequence = String::new();
    sequence.push(ESC);
    sequence.push('[');
    sequence.append(style_params(style).as_str());
    sequence.push('m');
    assert(sequence@ == sgr_sequence(style_codes(*style)));
    sequence
}

/// The line for a row, without white space at its end.
fn row_line(row: &Vec<Cell>) -> (line: String)
    ensures
        line@ == line_of(cell_views(row@)),
{
    let ghost cells = cell_views(row@);
    let ghost whole = line_from(cells, 0, CellStyle::unstyled());
    let mut line = String::new();
    let mut before = CellStyle::plain();
    let mut col: usize = 0;
    assert(line@ + whole == whole);
    while col < row.len()
        invariant
            col <= row.len(),
            cells == cell_views(row@),
            line@ + line_from(cells, col as int, before) == whole,
        decreases row.len() - col,
    {
        let cell = &row[col];
        let ghost start = line@;
        let ghost rest = line_from(cells, col + cells[col as int].width(), cells[col as int].style);
        if cell.wide_continuation {
            col += 1;
        } else {
            let ghost sgr = if cell.style != before {
                sgr_sequence(style_codes(cell.style))
            } else {
                seq![]
            };
            let ghost text = if cell.contents@.len() > 0 {
                cell.contents@
            } else {
                seq![' ']
            };
            if cell.style != before {
                line.append(style_sequence(&cell.style).as_str());
                before = cell.style;
            }
            assert(line@ == start + sgr);
            if cell.contents.as_str().is_empty() {
                line.push(' ');
            } else {
                line.append(cell.contents.as_str());
            }
            assert(line@ == start + sgr + text);
            assert(start + (sgr + text + rest) == line@ + rest);
            if cell.wide && row.len() - col >= 2 {
                col += 2;
            } else {
                proof {
                    if cell.wide {
                        assert(line_from(cells, col + 2, before) == line_from(
                            cells,
                            col + 1,
                            before,
                        ));
                    }
                }
                col += 1;
            }
        }
    }
    if before != CellStyle::plain() {
        let ghost start = line@;
        line.push(ESC);
        line.push('[');
        line.push('0');
        line.push('m');
        assert(line@ == start + sgr_reset());
    } else {
        assert(line@ + Seq::<char>::empty() == line@);
    }
    assert(line@ == whole);
    trim_end(line.as_str())
}

/// Extract screen lines by going through the cells.
///
/// This gives strings with ANSI SGR codes for coloring, but without cursor positioning. Each cell
/// is written in order, which keeps the columns aligned. White space at the end of a row, and
/// blank rows at the end of the screen, are left out.
pub fn extract_screen_lines(screen: &Screen) -> (lines: Vec<String>)
    ensures
        texts(lines@) == screen_lines(screen@.cells),
{
    let ghost all = screen@.cells.map_values(|row: Seq<CellView>| line_of(row));
    let mut lines: Vec<String> = Vec::new();
    for row in 0..screen.cells.len()
        invariant
            all == screen@.cells.map_values(|row: Seq<CellView>| line_of(row)),
            texts(lines@) == all.take(row as int),
    {
        let ghost before = lines@;
        let line = row_line(&screen.cells[row]);
        let ghost text = line@;
        lines.push(line);
        assert(texts(lines@) == texts(before).push(text));
        assert(all.take(row + 1) == all.take(row as int).push(all[row as int]));
    }
    assert(all.take(screen.cells.len() as int) == all);
    while lines.len() > 0 && is_blank(lines[lines.len() - 1].as_str())
        invariant
            without_blank_end(texts(lines@)) == without_blank_end(all),
        decreases lines.len(),
    {
        let ghost before = texts(lines@);
        let _ = lines.pop();
        assert(texts(lines@) == before.drop_last());
    }
    lines
}

// What the lines say of the screen.

/// Whether `s` holds nothing but what SGR parameters are made of.
pub open spec fn is_params(s: Seq<char>) -> bool {
    forall|i: int| 0 <= i < s.len() ==> is_digit(#[trigger] s[i]) || s[i] == ';'
}

/// Whether each code is made of digits.
pub open spec fn are_codes(codes: Seq<Seq<char>>) -> bool {
    forall|i: int| 0 <= i < codes.len() ==> all_digits(#[trigger] codes[i])
}

pub(crate) proof fn lemma_joined_params(codes: Seq<Seq<char>>)
    requires
        are_codes(codes),
    ensures
        is_params(joined(codes, seq![';'])),
    decreases codes.len(),
{
    let sep = seq![';'];
    if codes.len() == 1 {
        assert(all_digits(codes[0]));
    } else if codes.len() > 1 {
        let front = codes.drop_last();
        assert forall|i: int| 0 <= i < front.len() implies all_digits(#[trigger] front[i]) by {
            assert(front[i] == codes[i]);
        }
        lemma_joined_params(front);
        assert(all_digits(codes[codes.len() - 1]));
        let start = joined(front, sep);
        let all = start + sep + codes.last();
        assert forall|i: int| 0 <= i < all.len() implies is_digit(#[trigger] all[i]) || all[i]
            == ';' by {
            if i < start.len() {
                assert(all[i] == start[i]);
            } else if i > start.len() {
                assert(all[i] == codes.last()[i - start.len() - 1]);
            }
        }
    }
}

proof fn lemma_codes_concat(a: Seq<Seq<char>>, b: Seq<Seq<char>>)
    requires
        are_codes(a),
        are_codes(b),
    ensures
        are_codes(a + b),
{
    assert forall|i: int| 0 <= i < (a + b).len() implies all_digits(#[trigger] (a + b)[i]) by {
        if i < a.len() {
            assert((a + b)[i] == a[i]);
        } else {
            assert((a + b)[i] == b[i - a.len()]);
        }
    }
}

proof fn lemma_code_if(on: bool, n: nat)
    ensures
        are_codes(code_if(on, n)),
{
    lemma_dec_digits(n);
}

proof fn lemma_color_codes(color: CellColor, base: nat)
    ensures
        are_codes(set_color_codes(color, base)),
{
    let codes = set_color_codes(color, base);
    assert forall|i: int| 0 <= i < codes.len() implies all_digits(#[trigger] codes[i]) by {
        match color {
            CellColor::Default => {},
            CellColor::Idx(n) => {
                lemma_dec_digits(base + n as nat);
                if 8 <= n < 16 {
                    lemma_dec_digits((base + 60 + n - 8) as nat);
                }
                lemma_dec_digits(base + 8);
                lemma_dec_digits(5);
                lemma_dec_digits(n as nat);
            },
            CellColor::Rgb(r, g, b) => {
                lemma_dec_digits(base + 8);
                lemma_dec_digits(2);
                lemma_dec_digits(r as nat);
                lemma_dec_digits(g as nat);
                lemma_dec_digits(b as nat);
            },
        }
    }
}

pub(crate) proof fn lemma_style_codes(style: CellStyle)
    ensures
        are_codes(style_codes(style)),
{
    lemma_code_if(true, 0);
    lemma_code_if(style.bold, 1);
    lemma_code_if(style.italic, 3);
    lemma_code_if(style.underline, 4);
    lemma_code_if(style.inverse, 7);
    lemma_color_codes(style.fg, 30);
    lemma_color_codes(style.bg, 40);
    let c0 = seq![dec(0)];
    let c1 = c0 + code_if(style.bold, 1);
    let c2 = c1 + code_if(style.italic, 3);
    let c3 = c2 + code_if(style.underline, 4);
    lemma_codes_concat(c0, code_if(style.bold, 1));
    lemma_codes_concat(c1, code_if(style.italic, 3));
    lemma_codes_concat(c2, code_if(style.underline, 4));
    lemma_codes_concat(c3, code_if(style.inverse, 7));
    lemma_codes_concat(attribute_codes(style), set_color_codes(style.fg, 30));
    lemma_codes_concat(
        attribute_codes(style) + set_color_codes(style.fg, 30),
        set_color_codes(style.bg, 40),
    );
}

proof fn lemma_sequence_complete(params: Seq<char>)
    requires
        is_params(params),
    ensures
        sequences_complete(seq![ESC, '['] + params + seq!['m']),
        stripped(seq![ESC, '['] + params + seq!['m']) == Seq::<char>::empty(),
{
    let s = seq![ESC, '['] + params + seq!['m'];
    let end = s.len() - 1;
    assert forall|i: int| 2 <= i < end implies !is_final(#[trigger] s[i], true) by {
        assert(s[i] == params[i - 2]);
    }
    assert(s[end] == 'm');
    lemma_final_index_at(s, 2, end, true);
    assert(escape_len(s, true) == s.len());
    assert(s.skip(s.len() as int) == Seq::<char>::empty());
    assert(sequences_complete(Seq::<char>::empty()));
    assert(stripped(Seq::<char>::empty()) == Seq::<char>::empty());
}

proof fn lemma_style_sequence_complete(style: CellStyle)
    ensures
        sequences_complete(sgr_sequence(style_codes(style))),
        stripped(sgr_sequence(style_codes(style))) == Seq::<char>::empty(),
{
    lemma_style_codes(style);
    lemma_joined_params(style_codes(style));
    lemma_sequence_complete(joined(style_codes(style), seq![';']));
}

proof fn lemma_reset_complete()
    ensures
        sequences_complete(sgr_reset()),
        stripped(sgr_reset()) == Seq::<char>::empty(),
{
    lemma_sequence_complete(seq!['0']);
    assert(seq![ESC, '['] + seq!['0'] + seq!['m'] == sgr_reset());
}

/// What the cells of a row from column `col` on hold, with a space for an empty one.
pub open spec fn cells_text(row: Seq<CellView>, col: int) -> Seq<char>
    decreases row.len() + 1 - col,
{
    if col < 0 || col >= row.len() {
        seq![]
    } else if row[col].wide_continuation {
        cells_text(row, col + 1)
    } else {
        (if row[col].contents.len() > 0 {
            row[col].contents
        } else {
            seq![' ']
        }) + cells_text(row, col + row[col].width())
    }
}

/// Whether the cells of a row are as the emulator makes them.
pub open spec fn row_valid(row: Seq<CellView>) -> bool {
    forall|c: int| 0 <= c < row.len() ==> (#[trigger] row[c]).valid()
}

proof fn lemma_line_stripped(row: Seq<CellView>, col: int, before: CellStyle)
    requires
        row_valid(row),
    ensures
        sequences_complete(line_from(row, col, before)),
        stripped(line_from(row, col, before)) == cells_text(row, col),
    decreases row.len() + 1 - col,
{
    if col < 0 || col >= row.len() {
        lemma_reset_complete();
        assert(sequences_complete(Seq::<char>::empty()));
        assert(stripped(Seq::<char>::empty()) == Seq::<char>::empty());
    } else {
        let cell = row[col];
        assert(cell.valid());
        if cell.wide_continuation {
            lemma_line_stripped(row, col + 1, before);
        } else {
            let sgr = if cell.style != before {
                sgr_sequence(style_codes(cell.style))
            } else {
                seq![]
            };
            let text = if cell.contents.len() > 0 {
                cell.contents
            } else {
                seq![' ']
            };
            let rest = line_from(row, col + cell.width(), cell.style);
            lemma_style_sequence_complete(cell.style);
            assert(sequences_complete(Seq::<char>::empty()));
            assert(stripped(Seq::<char>::empty()) == Seq::<char>::empty());
            assert(!text.contains(ESC));
            lemma_plain_complete(text);
            law_plain_text_unchanged(text, true);
            lemma_line_stripped(row, col + cell.width(), cell.style);
            law_strip_by_parts(text, rest);
            law_strip_by_parts(sgr, text + rest);
            assert(sgr + (text + rest) == sgr + text + rest);
            assert(Seq::<char>::empty() + (text + stripped(rest)) == text + stripped(rest));
        }
    }
}

proof fn lemma_spaces_blank(n: int)
    ensures
        blank(spaces(n)),
{
}

proof fn lemma_row_text_is_cells_text(row: Seq<CellView>, col: int, written: int) -> (k: int)
    requires
        row_valid(row),
        0 <= written <= col,
    ensures
        k >= 0,
        spaces(col - written) + cells_text(row, col) == row_text_from(row, col, written) + spaces(k),
    decreases row.len() + 1 - col,
{
    if col >= row.len() {
        assert(spaces(col - written) + Seq::<char>::empty() == Seq::<char>::empty() + spaces(
            col - written,
        ));
        col - written
    } else {
        let cell = row[col];
        assert(cell.valid());
        let next = col + cell.width();
        let gap = spaces(col - written);
        if cell.wide_continuation {
            let k = lemma_row_text_is_cells_text(row, next, next);
            let rest = row_text_from(row, next, next);
            assert(spaces(0) + cells_text(row, next) == cells_text(row, next));
            assert(gap + (rest + spaces(k)) == gap + cell.contents + rest + spaces(k));
            k
        } else if cell.contents.len() > 0 {
            let k = lemma_row_text_is_cells_text(row, next, next);
            let rest = row_text_from(row, next, next);
            assert(spaces(0) + cells_text(row, next) == cells_text(row, next));
            assert(gap + (cell.contents + (rest + spaces(k))) == gap + cell.contents + rest + spaces(
                k,
            ));
            k
        } else {
            let k = lemma_row_text_is_cells_text(row, next, written);
            assert(gap + (seq![' '] + cells_text(row, next)) == spaces(next - written) + cells_text(
                row,
                next,
            ));
            k
        }
    }
}

/// The line for a row, without its SGR sequences, is the text of the row, up to white space at
/// the ends: the colors are all that the line adds.
pub proof fn law_line_shows_row_text(row: Seq<CellView>)
    requires
        row_valid(row),
    ensures
        sequences_complete(line_of(row)),
        trimmed(stripped(line_of(row))) == trimmed(row_text(row)),
{
    let line = line_from(row, 0, CellStyle::unstyled());
    lemma_line_stripped(row, 0, CellStyle::unstyled());
    law_trim_then_strip(line);
    let k = lemma_row_text_is_cells_text(row, 0, 0);
    assert(spaces(0) + cells_text(row, 0) == cells_text(row, 0));
    lemma_spaces_blank(k);
    lemma_trim_ignores_end(row_text(row), spaces(k));
}

/// The line for a row is blank only where the text of the row is.
pub proof fn law_blank_line_has_blank_text(row: Seq<CellView>)
    requires
        row_valid(row),
        blank(line_of(row)),
    ensures
        blank(row_text(row)),
{
    let line = line_of(row);
    law_line_shows_row_text(row);
    assert forall|i: int| 0 <= i < line.len() implies #[trigger] line[i] != ESC by {
        assert(is_space(line[i]));
    }
    law_plain_text_unchanged(line, true);
    lemma_trim_nonblank(line);
    lemma_trim_nonblank(row_text(row));
}

proof fn lemma_blank_end(lines: Seq<Seq<char>>)
    ensures
        without_blank_end(lines).len() <= lines.len(),
        without_blank_end(lines) == lines.take(without_blank_end(lines).len() as int),
        forall|i: int|
            without_blank_end(lines).len() <= i < lines.len() ==> blank(#[trigger] lines[i]),
        without_blank_end(lines).len() > 0 ==> !blank(without_blank_end(lines).last()),
    decreases lines.len(),
{
    if lines.len() > 0 && blank(lines.last()) {
        let front = lines.drop_last();
        lemma_blank_end(front);
        let n = without_blank_end(front).len() as int;
        assert(front.take(n) == lines.take(n));
        assert forall|i: int| n <= i < lines.len() implies blank(#[trigger] lines[i]) by {
            if i < front.len() {
                assert(front[i] == lines[i]);
            }
        }
    } else {
        assert(lines.take(lines.len() as int) == lines);
    }
}

/// The lines of a screen: at most one for each row, each the line for its row, the last one not
/// blank, and none left out but blank ones at the end.
pub proof fn law_screen_lines(screen: ScreenView)
    requires
        screen.valid(),
    ensures
        screen_lines(screen.cells).len() <= screen.cells.len(),
        forall|r: int|
            0 <= r < screen_lines(screen.cells).len() ==> #[trigger] screen_lines(screen.cells)[r]
                == line_of(screen.cells[r]),
        screen_lines(screen.cells).len() > 0 ==> !blank(screen_lines(screen.cells).last()),
        forall|r: int|
            screen_lines(screen.cells).len() <= r < screen.cells.len() ==> blank(
                #[trigger] screen.row_texts()[r],
            ),
        forall|r: int|
            0 <= r < screen_lines(screen.cells).len() ==> sequences_complete(
                #[trigger] screen_lines(screen.cells)[r],
            ),
        forall|r: int|
            0 <= r < screen_lines(screen.cells).len() ==> trimmed(
                stripped(#[trigger] screen_lines(screen.cells)[r]),
            ) == trimmed(screen.row_texts()[r]),
{
    let all = screen.cells.map_values(|row: Seq<CellView>| line_of(row));
    lemma_blank_end(all);
    assert forall|r: int| 0 <= r < screen.cells.len() implies row_valid(
        #[trigger] screen.cells[r],
    ) by {
        assert forall|c: int| 0 <= c < screen.cells[r].len() implies (
        #[trigger] screen.cells[r][c]).valid() by {}
    }
    assert forall|r: int|
        screen_lines(screen.cells).len() <= r < screen.cells.len() implies blank(
        #[trigger] screen.row_texts()[r],
    ) by {
        assert(blank(all[r]));
        assert(row_valid(screen.cells[r]));
        law_blank_line_has_blank_text(screen.cells[r]);
    }
    assert forall|r: int| 0 <= r < screen_lines(screen.cells).len() implies sequences_complete(
        #[trigger] screen_lines(screen.cells)[r],
    ) && trimmed(stripped(screen_lines(screen.cells)[r])) == trimmed(screen.row_texts()[r]) by {
        assert(row_valid(screen.cells[r]));
        law_line_shows_row_text(screen.cells[r]);
    }
}

/// The color in which a cell's foreground color is drawn, if it is not the terminal's own.
pub open spec fn shown_fg(color: CellColor) -> Option<Color> {
    match color {
        CellColor::Default => None,
        CellColor::Idx(n) => if n < 8 {
            Some(standard_color(n as nat))
        } else if n < 16 {
            Some(bright_color((n - 8) as nat))
        } else {
            Some(Color::Indexed(n))
        },
        CellColor::Rgb(r, g, b) => Some(Color::Rgb(r, g, b)),
    }
}

/// The color in which a cell's background color is drawn, if it is not the terminal's own. The
/// bright colors of the palette are not drawn as a background.
pub open spec fn shown_bg(color: CellColor) -> Option<Color> {
    match color {
        CellColor::Default => None,
        CellColor::Idx(n) => if n < 8 {
            Some(standard_color(n as nat))
        } else if n < 16 {
            None
        } else {
            Some(Color::Indexed(n))
        },
        CellColor::Rgb(r, g, b) => Some(Color::Rgb(r, g, b)),
    }
}

/// The style in which a cell is drawn.
pub open spec fn shown_style(style: CellStyle) -> Style {
    Style {
        fg: shown_fg(style.fg),
        bg: shown_bg(style.bg),
        added: Modifiers {
            bold: style.bold,
            dim: false,
            italic: style.italic,
            underlined: style.underline,
            reversed: style.inverse,
        },
        removed: Modifiers::no_attribute(),
    }
}

proof fn lemma_one_code(style: Style, n: nat, rest: Seq<Seq<char>>)
    requires
        n < 1000,
        n != 38,
        n != 48,
    ensures
        after_codes(style, seq![dec(n)] + rest) == after_codes(after_code(style, n), rest),
{
    lemma_small_dec(n);
    assert((seq![dec(n)] + rest).skip(1) == rest);
}

proof fn lemma_code_if_on(style: Style, on: bool, n: nat, rest: Seq<Seq<char>>)
    requires
        n < 1000,
        n != 38,
        n != 48,
    ensures
        after_codes(style, code_if(on, n) + rest) == after_codes(
            if on {
                after_code(style, n)
            } else {
                style
            },
            rest,
        ),
{
    if on {
        lemma_one_code(style, n, rest);
    } else {
        assert(code_if(on, n) + rest == rest);
    }
}

proof fn lemma_color_applied(style: Style, color: CellColor, base: nat, rest: Seq<Seq<char>>)
    requires
        base == 30 || base == 40,
    ensures
        after_codes(style, set_color_codes(color, base) + rest) == after_codes(
            if color == CellColor::Default || (base == 40 && shown_bg(color) is None) {
                style
            } else if base == 30 {
                Style { fg: shown_fg(color), ..style }
            } else {
                Style { bg: shown_bg(color), ..style }
            },
            rest,
        ),
{
    let codes = set_color_codes(color, base);
    let all = codes + rest;
    match color {
        CellColor::Default => {
            assert(all == rest);
        },
        CellColor::Idx(n) => {
            if n < 8 {
                lemma_one_code(style, base + n as nat, rest);
            } else if n < 16 {
                lemma_one_code(style, (base + 60 + n - 8) as nat, rest);
            } else {
                lemma_small_dec(base + 8);
                lemma_small_dec(5);
                lemma_byte_dec(n);
                assert(all.skip(3) == rest);
            }
        },
        CellColor::Rgb(r, g, b) => {
            lemma_small_dec(base + 8);
            lemma_small_dec(2);
            lemma_byte_dec(r);
            lemma_byte_dec(g);
            lemma_byte_dec(b);
            assert(all.skip(5) == rest);
        },
    }
}

proof fn lemma_attributes_applied(before: Style, style: CellStyle, rest: Seq<Seq<char>>)
    ensures
        after_codes(before, attribute_codes(style) + rest) == after_codes(
            shown_style(CellStyle { fg: CellColor::Default, bg: CellColor::Default, ..style }),
            rest,
        ),
{
    let c1 = code_if(style.bold, 1);
    let c3 = code_if(style.italic, 3);
    let c4 = code_if(style.underline, 4);
    let c7 = code_if(style.inverse, 7);
    assert(attribute_codes(style) + rest == seq![dec(0)] + (c1 + (c3 + (c4 + (c7 + rest)))));
    let s0 = Style::unchanged();
    let s1 = if style.bold {
        after_code(s0, 1)
    } else {
        s0
    };
    let s3 = if style.italic {
        after_code(s1, 3)
    } else {
        s1
    };
    let s4 = if style.underline {
        after_code(s3, 4)
    } else {
        s3
    };
    lemma_one_code(before, 0, c1 + (c3 + (c4 + (c7 + rest))));
    lemma_code_if_on(s0, style.bold, 1, c3 + (c4 + (c7 + rest)));
    lemma_code_if_on(s1, style.italic, 3, c4 + (c7 + rest));
    lemma_code_if_on(s3, style.underline, 4, c7 + rest);
    lemma_code_if_on(s4, style.inverse, 7, rest);
}

/// Reading the SGR sequence that was written for a cell gives the style of the cell back,
/// whatever the text before it was drawn in.
pub proof fn law_style_is_read_back(before: Style, style: CellStyle)
    ensures
        after_sgr(before, joined(style_codes(style), seq![';'])) == shown_style(style),
{
    let codes = style_codes(style);
    lemma_style_codes(style);
    assert forall|i: int| 0 <= i < codes.len() implies !(#[trigger] codes[i]).contains(';') by {
        assert(all_digits(codes[i]));
    }
    lemma_split_joined(codes, ';');
    let fg = set_color_codes(style.fg, 30);
    let bg = set_color_codes(style.bg, 40);
    let none = Seq::<Seq<char>>::empty();
    assert(codes == attribute_codes(style) + (fg + (bg + none)));
    let s0 = shown_style(CellStyle { fg: CellColor::Default, bg: CellColor::Default, ..style });
    let s1 = shown_style(CellStyle { bg: CellColor::Default, ..style });
    lemma_attributes_applied(before, style, fg + (bg + none));
    lemma_color_applied(s0, style.fg, 30, bg + none);
    lemma_color_applied(s1, style.bg, 40, none);
}

/// At which sizes the emulator takes in any bytes: from two rows on, and from three columns on up
/// to the eighth before the last that has a number.
pub proof fn law_sizes(rows: u16, cols: u16)
    ensures
        size_works((rows, cols)) <==> rows >= 2 && cols >= 3 && cols + 8 <= 65535,
{
}

/// The codes for a color: those for the foreground from 30 on, those for the background from 40
/// on; bright colors sixty further; other colors by their number or by their parts.
pub proof fn law_codes_of_colors(n: u8, r: u8, g: u8, b: u8)
    ensures
        color_codes(CellColor::Default, 30) == seq![dec(39)],
        color_codes(CellColor::Default, 40) == seq![dec(49)],
        n < 8 ==> color_codes(CellColor::Idx(n), 30) == seq![dec((30 + n) as nat)] && color_codes(
            CellColor::Idx(n),
            40,
        ) == seq![dec((40 + n) as nat)],
        8 <= n < 16 ==> color_codes(CellColor::Idx(n), 30) == seq![dec((82 + n) as nat)]
            && color_codes(CellColor::Idx(n), 40) == seq![dec((92 + n) as nat)],
        16 <= n ==> color_codes(CellColor::Idx(n), 30) == seq![dec(38), dec(5), dec(n as nat)]
            && color_codes(CellColor::Idx(n), 40) == seq![dec(48), dec(5), dec(n as nat)],
        color_codes(CellColor::Rgb(r, g, b), 30) == seq![
            dec(38),
            dec(2),
            dec(r as nat),
            dec(g as nat),
            dec(b as nat),
        ],
        color_codes(CellColor::Rgb(r, g, b), 40) == seq![
            dec(48),
            dec(2),
            dec(r as nat),
            dec(g as nat),
            dec(b as nat),
        ],
{
}

/// A cell is shown with the attributes that it has, and with no other.
pub proof fn law_attributes_of_cells(style: CellStyle)
    ensures
        ({
            let shown = shown_style(style);
            &&& shown.added.bold == style.bold
            &&& shown.added.italic == style.italic
            &&& shown.added.underlined == style.underline
            &&& shown.added.reversed == style.inverse
            &&& !shown.added.dim
            &&& !shown.removed.bold && !shown.removed.dim && !shown.removed.italic
            &&& !shown.removed.underlined && !shown.removed.reversed
        }),
{
}

/// A cell is shown in its colors: the terminal's own where it has none, the eight standard ones and
/// their bright variants by name, the others by number or by their parts. As a background the
/// bright ones are not shown.
pub proof fn law_colors_of_cells(style: CellStyle, n: u8, r: u8, g: u8, b: u8)
    ensures
        style.fg == CellColor::Default ==> shown_style(style).fg is None,
        style.bg == CellColor::Default ==> shown_style(style).bg is None,
        style.fg == CellColor::Rgb(r, g, b) ==> shown_style(style).fg == Some(Color::Rgb(r, g, b)),
        style.bg == CellColor::Rgb(r, g, b) ==> shown_style(style).bg == Some(Color::Rgb(r, g, b)),
        style.fg == CellColor::Idx(n) && n >= 16 ==> shown_style(style).fg == Some(
            Color::Indexed(n),
        ),
        style.bg == CellColor::Idx(n) && n >= 16 ==> shown_style(style).bg == Some(
            Color::Indexed(n),
        ),
        style.bg == CellColor::Idx(n) && 8 <= n < 16 ==> shown_style(style).bg is None,
        style.fg == CellColor::Idx(0) ==> shown_style(style).fg == Some(Color::Black),
        style.fg == CellColor::Idx(1) ==> shown_style(style).fg == Some(Color::Red),
        style.fg == CellColor::Idx(2) ==> shown_style(style).fg == Some(Color::Green),
        style.fg == CellColor::Idx(3) ==> shown_style(style).fg == Some(Color::Yellow),
        style.fg == CellColor::Idx(4) ==> shown_style(style).fg == Some(Color::Blue),
        style.fg == CellColor::Idx(5) ==> shown_style(style).fg == Some(Color::Magenta),
        style.fg == CellColor::Idx(6) ==> shown_style(style).fg == Some(Color::Cyan),
        style.fg == CellColor::Idx(7) ==> shown_style(style).fg == Some(Color::White),
        style.fg == CellColor::Idx(8) ==> shown_style(style).fg == Some(Color::DarkGray),
        style.fg == CellColor::Idx(9) ==> shown_style(style).fg == Some(Color::LightRed),
        style.fg == CellColor::Idx(10) ==> shown_style(style).fg == Some(Color::LightGreen),
        style.fg == CellColor::Idx(11) ==> shown_style(style).fg == Some(Color::LightYellow),
        style.fg == CellColor::Idx(12) ==> shown_style(style).fg == Some(Color::LightBlue),
        style.fg == CellColor::Idx(13) ==> shown_style(style).fg == Some(Color::LightMagenta),
        style.fg == CellColor::Idx(14) ==> shown_style(style).fg == Some(Color::LightCyan),
        style.fg == CellColor::Idx(15) ==> shown_style(style).fg == Some(Color::White),
        style.bg == CellColor::Idx(0) ==> shown_style(style).bg == Some(Color::Black),
        style.bg == CellColor::Idx(1) ==> shown_style(style).bg == Some(Color::Red),
        style.bg == CellColor::Idx(2) ==> shown_style(style).bg == Some(Color::Green),
        style.bg == CellColor::Idx(3) ==> shown_style(style).bg == Some(Color::Yellow),
        style.bg == CellColor::Idx(4) ==> shown_style(style).bg == Some(Color::Blue),
        style.bg == CellColor::Idx(5) ==> shown_style(style).bg == Some(Color::Magenta),
        style.bg == CellColor::Idx(6) ==> shown_style(style).bg == Some(Color::Cyan),
        style.bg == CellColor::Idx(7) ==> shown_style(style).bg == Some(Color::White),
{
}

/// The codes for a style begin with a reset, so that nothing of what was drawn before stays, and
/// have one code for each attribute.
pub proof fn law_codes_of_attributes(style: CellStyle)
    requires
        style.fg == CellColor::Default,
        style.bg == CellColor::Default,
    ensures
        style_codes(style)[0] == dec(0),
        style_codes(style).len() == 1 + (if style.bold {
            1int
        } else {
            0
        }) + (if style.italic {
            1int
        } else {
            0
        }) + (if style.underline {
            1int
        } else {
            0
        }) + (if style.inverse {
            1int
        } else {
            0
        }),
        style.bold ==> style_codes(style)[1] == dec(1),
        style.italic && !style.bold ==> style_codes(style)[1] == dec(3),
        style.underline && !style.bold && !style.italic ==> style_codes(style)[1] == dec(4),
        style.inverse ==> style_codes(style).last() == dec(7),
{
}

/// An SGR sequence is written between the escape character with a bracket and an `m`, its codes
/// with semicolons between them; the one that ends all attributes has the code 0.
pub proof fn law_sequences_are_written(codes: Seq<Seq<char>>)
    ensures
        sgr_sequence(codes) == seq!['\x1b', '['] + joined(codes, seq![';']) + seq!['m'],
        sgr_reset() == seq!['\x1b', '[', '0', 'm'],
{
}

/// A row is written cell by cell: nothing for the second half of a wide character, a sequence only
/// where the style changes, a space for an empty cell; and at the end all attributes are ended.
pub proof fn law_rows_are_written(row: Seq<CellView>, col: int, before: CellStyle)
    requires
        0 <= col < row.len(),
    ensures
        row[col].wide_continuation ==> line_from(row, col, before) == line_from(
            row,
            col + 1,
            before,
        ),
        !row[col].wide_continuation ==> {
            let text = if row[col].contents.len() > 0 {
                row[col].contents
            } else {
                seq![' ']
            };
            let next = line_from(
                row,
                if row[col].wide {
                    col + 2
                } else {
                    col + 1
                },
                row[col].style,
            );
            &&& row[col].style == before ==> line_from(row, col, before) == text + next
            &&& row[col].style != before ==> line_from(row, col, before) == sgr_sequence(
                style_codes(row[col].style),
            ) + text + next
        },
        before == CellStyle::unstyled() ==> line_from(row, row.len() as int, before).len() == 0,
        before != CellStyle::unstyled() ==> line_from(row, row.len() as int, before)
            == sgr_reset(),
{
    let text = if row[col].contents.len() > 0 {
        row[col].contents
    } else {
        seq![' ']
    };
    assert(Seq::<char>::empty() + text == text);
}

/// A style without colors and attributes.
pub proof fn law_unstyled()
    ensures
        ({
            let style = CellStyle::unstyled();
            &&& style.fg == CellColor::Default && style.bg == CellColor::Default
            &&& !style.bold && !style.italic && !style.underline && !style.inverse
        }),
{
}

/// The line for a row is what is written of it, up to the last character that is not white space.
pub proof fn law_lines_end_in_no_space(row: Seq<CellView>)
    ensures
        ({
            let line = line_of(row);
            let whole = line_from(row, 0, CellStyle::unstyled());
            &&& line.len() <= whole.len()
            &&& line == whole.take(line.len() as int)
            &&& line.len() > 0 ==> !is_space(line.last())
            &&& forall|i: int| line.len() <= i < whole.len() ==> is_space(#[trigger] whole[i])
        }),
{
    law_trailing_space_is_cut(line_from(row, 0, CellStyle::unstyled()));
}

} // verus!
