//! What the output view shows of the screen of the emulator: each cell, in its colors.

use vstd::prelude::*;

use crate::ansi::{
    after_escape, after_return, after_sgr, escape_len, final_index, is_final,
    lemma_final_index_at, lemma_not_final_before, lemma_run_len, run_len, spans_from, SpanView,
    Style, ESC,
};
use crate::terminal::{
    is_params, law_style_is_read_back, lemma_joined_params, lemma_style_codes, line_from, line_of,
    row_valid, sgr_reset, sgr_sequence, shown_style, style_codes, CellStyle, CellView,
};
use crate::text::{is_space, joined, without_trailing_space};

verus! {

/// A character as it is shown.
pub ghost struct Glyph {
    pub c: char,
    pub style: Style,
}

/// A character in a style.
pub open spec fn glyph(c: char, style: Style) -> Glyph {
    Glyph { c, style }
}

/// Each character of a text in one style.
pub open spec fn glyphs(text: Seq<char>, style: Style) -> Seq<Glyph> {
    text.map_values(|c: char| glyph(c, style))
}

/// Each character of styled text.
pub open spec fn span_glyphs(spans: Seq<SpanView>) -> Seq<Glyph>
    decreases spans.len(),
{
    if spans.len() == 0 {
        seq![]
    } else {
        span_glyphs(spans.drop_last()) + glyphs(spans.last().content, spans.last().style)
    }
}

/// Each character that is shown of a text with escapes, where the style before it is `style`.
pub open spec fn text_glyphs(s: Seq<char>, style: Style) -> Seq<Glyph> {
    span_glyphs(spans_from(s, style))
}

/// Each character of the cells of a row from column `col` on, with a space for an empty cell, in
/// the style of its cell.
pub open spec fn cell_glyphs(row: Seq<CellView>, col: int) -> Seq<Glyph>
    decreases row.len() + 1 - col,
{
    if col < 0 || col >= row.len() {
        seq![]
    } else if row[col].wide_continuation {
        cell_glyphs(row, col + 1)
    } else {
        glyphs(
            if row[col].contents.len() > 0 {
                row[col].contents
            } else {
                seq![' ']
            },
            shown_style(row[col].style),
        ) + cell_glyphs(row, col + row[col].width())
    }
}

/// Whether the escapes of `s` are SGR sequences.
pub open spec fn only_sgr(s: Seq<char>) -> bool
    decreases s.len(),
{
    if s.len() == 0 {
        true
    } else if s[0] != ESC {
        only_sgr(s.skip(1))
    } else {
        let end = final_index(s, 2, false);
        &&& s.len() >= 3
        &&& s[1] == '['
        &&& 2 <= end < s.len()
        &&& s[end] == 'm'
        &&& only_sgr(s.skip(end + 1))
    }
}

proof fn lemma_span_glyphs_first(first: SpanView, rest: Seq<SpanView>)
    ensures
        span_glyphs(seq![first] + rest) == glyphs(first.content, first.style) + span_glyphs(rest),
    decreases rest.len(),
{
    let all = seq![first] + rest;
    if rest.len() == 0 {
        assert(all.drop_last() == Seq::<SpanView>::empty());
        assert(span_glyphs(Seq::<SpanView>::empty()) == Seq::<Glyph>::empty());
        assert(all.last() == first);
        assert(span_glyphs(all) == glyphs(first.content, first.style) + span_glyphs(rest));
    } else {
        lemma_span_glyphs_first(first, rest.drop_last());
        assert(all.drop_last() == seq![first] + rest.drop_last());
        assert(all.last() == rest.last());
        assert(span_glyphs(all) == glyphs(first.content, first.style) + span_glyphs(rest));
    }
}

proof fn lemma_glyphs_concat(a: Seq<char>, b: Seq<char>, style: Style)
    ensures
        glyphs(a + b, style) == glyphs(a, style) + glyphs(b, style),
{
    assert(glyphs(a + b, style) == glyphs(a, style) + glyphs(b, style));
}

proof fn lemma_nothing_shown(style: Style)
    ensures
        text_glyphs(Seq::<char>::empty(), style) == Seq::<Glyph>::empty(),
{
}

proof fn lemma_run_append(text: Seq<char>, rest: Seq<char>)
    requires
        !text.contains(ESC),
    ensures
        run_len(text + rest) == text.len() + run_len(rest),
    decreases text.len(),
{
    let all = text + rest;
    if text.len() > 0 {
        assert(text.contains(text[0]));
        assert(all.skip(1) == text.skip(1) + rest);
        assert forall|i: int| 0 <= i < text.skip(1).len() implies text.skip(1)[i] != ESC by {
            assert(text.contains(text[i + 1]));
        }
        lemma_run_append(text.skip(1), rest);
    } else {
        assert(all == rest);
    }
}

/// Text before other text is shown in the style before it.
proof fn lemma_text_first(text: Seq<char>, rest: Seq<char>, style: Style)
    requires
        !text.contains(ESC),
    ensures
        text_glyphs(text + rest, style) == glyphs(text, style) + text_glyphs(rest, style),
{
    let all = text + rest;
    let m = run_len(rest);
    lemma_run_len(rest);
    lemma_run_len(all);
    lemma_run_append(text, rest);
    let n = run_len(all);
    let tail = if m >= rest.len() {
        Seq::<SpanView>::empty()
    } else {
        let after = rest.skip(m);
        spans_from(after.skip(escape_len(after, false)), after_escape(style, after))
    };
    if n == 0 {
        assert(text == Seq::<char>::empty());
        assert(all == rest);
        assert(glyphs(text, style) + text_glyphs(rest, style) == text_glyphs(rest, style));
    } else {
        assert(all.skip(n) == rest.skip(m));
        assert(all.take(n) == text + rest.take(m));
        let joint = SpanView { content: all.take(n), style };
        assert(spans_from(all, style) == seq![joint] + tail);
        lemma_span_glyphs_first(joint, tail);
        lemma_glyphs_concat(text, rest.take(m), style);
        if m > 0 {
            let first = SpanView { content: rest.take(m), style };
            assert(spans_from(rest, style) == seq![first] + tail);
            lemma_span_glyphs_first(first, tail);
            assert(text_glyphs(all, style) == glyphs(text, style) + text_glyphs(rest, style));
        } else {
            assert(spans_from(rest, style) == tail);
            assert(glyphs(rest.take(m), style) == Seq::<Glyph>::empty());
            assert(text_glyphs(all, style) == glyphs(text, style) + text_glyphs(rest, style));
        }
    }
}

/// An SGR sequence is not shown, and changes the style of what follows.
proof fn lemma_sgr_first(params: Seq<char>, rest: Seq<char>, style: Style)
    requires
        is_params(params),
    ensures
        final_index(seq![ESC, '['] + params + seq!['m'] + rest, 2, false) == params.len() + 2,
        text_glyphs(seq![ESC, '['] + params + seq!['m'] + rest, style) == text_glyphs(
            rest,
            after_sgr(style, params),
        ),
{
    let sgr = seq![ESC, '['] + params + seq!['m'];
    let all = sgr + rest;
    let end = params.len() as int + 2;
    assert forall|i: int| 2 <= i < end implies !is_final(#[trigger] all[i], false) by {
        assert(all[i] == params[i - 2]);
    }
    assert(all[end] == 'm');
    lemma_final_index_at(all, 2, end, false);
    assert(run_len(all) == 0);
    assert(escape_len(all, false) == end + 1);
    assert(all.skip(0) == all);
    assert(all.subrange(2, end) == params);
    assert(all.skip(end + 1) == rest);
    assert(Seq::<SpanView>::empty() + spans_from(rest, after_sgr(style, params)) == spans_from(
        rest,
        after_sgr(style, params),
    ));
}

proof fn lemma_plain_then(text: Seq<char>, rest: Seq<char>)
    requires
        !text.contains(ESC),
        only_sgr(rest),
    ensures
        only_sgr(text + rest),
    decreases text.len(),
{
    let all = text + rest;
    if text.len() > 0 {
        assert(text.contains(text[0]));
        assert(all.skip(1) == text.skip(1) + rest);
        assert forall|i: int| 0 <= i < text.skip(1).len() implies text.skip(1)[i] != ESC by {
            assert(text.contains(text[i + 1]));
        }
        lemma_plain_then(text.skip(1), rest);
    } else {
        assert(all == rest);
    }
}

proof fn lemma_sgr_then(params: Seq<char>, rest: Seq<char>)
    requires
        is_params(params),
        only_sgr(rest),
    ensures
        only_sgr(seq![ESC, '['] + params + seq!['m'] + rest),
{
    let all = seq![ESC, '['] + params + seq!['m'] + rest;
    lemma_sgr_first(params, rest, Style::unchanged());
    assert(all.skip(params.len() as int + 3) == rest);
}

proof fn lemma_no_return_concat(a: Seq<char>, b: Seq<char>)
    requires
        !a.contains('\r'),
        !b.contains('\r'),
    ensures
        !(a + b).contains('\r'),
{
    assert forall|i: int| 0 <= i < (a + b).len() implies (a + b)[i] != '\r' by {
        if i < a.len() {
            assert(a.contains(a[i]));
        } else {
            assert(b.contains(b[i - a.len()]));
        }
    }
}

proof fn lemma_params_no_return(params: Seq<char>)
    requires
        is_params(params),
    ensures
        !(seq![ESC, '['] + params + seq!['m']).contains('\r'),
{
    let s = seq![ESC, '['] + params + seq!['m'];
    assert forall|i: int| 0 <= i < s.len() implies s[i] != '\r' by {
        if 2 <= i < s.len() - 1 {
            assert(s[i] == params[i - 2]);
        }
    }
}

/// The line for a row shows each cell in its style.
proof fn lemma_line_glyphs(row: Seq<CellView>, col: int, before: CellStyle)
    requires
        row_valid(row),
    ensures
        only_sgr(line_from(row, col, before)),
        !line_from(row, col, before).contains('\r'),
        text_glyphs(line_from(row, col, before), shown_style(before)) == cell_glyphs(row, col),
    decreases row.len() + 1 - col,
{
    let none = Seq::<char>::empty();
    lemma_nothing_shown(shown_style(before));
    if col < 0 || col >= row.len() {
        if before != CellStyle::unstyled() {
            let params = seq!['0'];
            lemma_sgr_then(params, none);
            lemma_sgr_first(params, none, shown_style(before));
            lemma_params_no_return(params);
            assert(seq![ESC, '['] + params + seq!['m'] + none == sgr_reset());
            assert(seq![ESC, '['] + params + seq!['m'] == sgr_reset());
            lemma_nothing_shown(after_sgr(shown_style(before), params));
        }
    } else {
        let cell = row[col];
        assert(cell.valid());
        if cell.wide_continuation {
            lemma_line_glyphs(row, col + 1, before);
        } else {
            let text = if cell.contents.len() > 0 {
                cell.contents
            } else {
                seq![' ']
            };
            let rest = line_from(row, col + cell.width(), cell.style);
            let style = shown_style(cell.style);
            lemma_line_glyphs(row, col + cell.width(), cell.style);
            assert(!text.contains(ESC));
            assert(!text.contains('\r'));
            lemma_plain_then(text, rest);
            lemma_text_first(text, rest, style);
            lemma_no_return_concat(text, rest);
            if cell.style != before {
                let params = joined(style_codes(cell.style), seq![';']);
                lemma_style_codes(cell.style);
                lemma_joined_params(style_codes(cell.style));
                law_style_is_read_back(shown_style(before), cell.style);
                lemma_sgr_then(params, text + rest);
                lemma_sgr_first(params, text + rest, shown_style(before));
                lemma_params_no_return(params);
                lemma_no_return_concat(seq![ESC, '['] + params + seq!['m'], text + rest);
                assert(sgr_sequence(style_codes(cell.style)) + text + rest == seq![ESC, '[']
                    + params + seq!['m'] + (text + rest));
            } else {
                assert(none + text + rest == text + rest);
            }
        }
    }
}

/// The escape at the start of a text that holds SGR sequences only is not shown.
proof fn lemma_skip_sgr(s: Seq<char>, style: Style)
    requires
        s.len() > 0,
        s[0] == ESC,
        only_sgr(s),
    ensures
        text_glyphs(s, style) == text_glyphs(
            s.skip(final_index(s, 2, false) + 1),
            after_sgr(style, s.subrange(2, final_index(s, 2, false))),
        ),
{
    let end = final_index(s, 2, false);
    let rest = s.skip(end + 1);
    let next = after_sgr(style, s.subrange(2, end));
    assert(run_len(s) == 0);
    assert(s.skip(0) == s);
    assert(escape_len(s, false) == end + 1);
    assert(Seq::<SpanView>::empty() + spans_from(rest, next) == spans_from(rest, next));
}

/// The first escape ends where it did when the last character, a space, is taken off.
proof fn lemma_end_kept(s: Seq<char>)
    requires
        s.len() > 0,
        s[0] == ESC,
        only_sgr(s),
        is_space(s.last()),
    ensures
        final_index(s, 2, false) + 1 < s.len(),
        final_index(s.drop_last(), 2, false) == final_index(s, 2, false),
{
    let end = final_index(s, 2, false);
    let front = s.drop_last();
    assert(s[end] == 'm');
    lemma_not_final_before(s, 2, false);
    assert forall|i: int| 2 <= i < end implies !is_final(#[trigger] front[i], false) by {
        assert(front[i] == s[i]);
    }
    lemma_final_index_at(front, 2, end, false);
}

/// Without a space at its end, a line shows all but that space.
proof fn lemma_drop_glyph(s: Seq<char>, style: Style)
    requires
        s.len() > 0,
        only_sgr(s),
        is_space(s.last()),
    ensures
        only_sgr(s.drop_last()),
        exists|last: Style|
            text_glyphs(s, style) == text_glyphs(s.drop_last(), style).push(
                #[trigger] glyph(s.last(), last),
            ),
    decreases s.len(),
{
    let front = s.drop_last();
    if s[0] != ESC {
        let one = seq![s[0]];
        assert(s == one + s.skip(1));
        assert(!one.contains(ESC));
        lemma_text_first(one, s.skip(1), style);
        if s.len() > 1 {
            lemma_drop_glyph(s.skip(1), style);
            let rest = s.skip(1).drop_last();
            assert(rest == front.skip(1));
            assert(front == one + rest);
            lemma_text_first(one, rest, style);
            let last = choose|last: Style|
                text_glyphs(s.skip(1), style) == text_glyphs(rest, style).push(
                    #[trigger] glyph(s.skip(1).last(), last),
                );
            assert(text_glyphs(s, style) == text_glyphs(front, style).push(
                glyph(s.last(), last),
            ));
        } else {
            assert(s.skip(1) == Seq::<char>::empty());
            assert(front == Seq::<char>::empty());
            lemma_nothing_shown(style);
            assert(text_glyphs(s, style) == text_glyphs(front, style).push(
                glyph(s.last(), style),
            ));
        }
    } else {
        let end = final_index(s, 2, false);
        lemma_end_kept(s);
        let next = after_sgr(style, s.subrange(2, end));
        let rest = s.skip(end + 1);
        lemma_drop_glyph(rest, next);
        assert(rest.drop_last() == front.skip(end + 1));
        assert(front.subrange(2, end) == s.subrange(2, end));
        lemma_skip_sgr(s, style);
        lemma_skip_sgr(front, style);
    }
}

proof fn lemma_trim_glyphs(s: Seq<char>, style: Style)
    requires
        only_sgr(s),
    ensures
        only_sgr(without_trailing_space(s)),
        ({
            let shown = text_glyphs(without_trailing_space(s), style);
            let all = text_glyphs(s, style);
            &&& shown.len() <= all.len()
            &&& shown == all.take(shown.len() as int)
            &&& forall|i: int| shown.len() <= i < all.len() ==> is_space((#[trigger] all[i]).c)
        }),
    decreases s.len(),
{
    let all = text_glyphs(s, style);
    if s.len() > 0 && is_space(s.last()) {
        lemma_drop_glyph(s, style);
        lemma_trim_glyphs(s.drop_last(), style);
        assert(all.drop_last() == text_glyphs(s.drop_last(), style));
        let shown = text_glyphs(without_trailing_space(s), style);
        let fewer = all.drop_last();
        assert(fewer.take(shown.len() as int) == all.take(shown.len() as int));
        assert forall|i: int| shown.len() <= i < all.len() implies is_space(
            (#[trigger] all[i]).c,
        ) by {
            if i < fewer.len() {
                assert(fewer[i] == all[i]);
            }
        }
    } else {
        assert(all.take(all.len() as int) == all);
    }
}

proof fn lemma_no_return(s: Seq<char>)
    requires
        !s.contains('\r'),
    ensures
        after_return(s) == s,
    decreases s.len(),
{
    if s.len() > 0 {
        assert(s.contains(s.last()));
        let front = s.drop_last();
        assert forall|i: int| 0 <= i < front.len() implies front[i] != '\r' by {
            assert(s.contains(s[i]));
        }
        lemma_no_return(front);
        assert(front.push(s.last()) == s);
    } else {
        assert(s == Seq::<char>::empty());
    }
}

proof fn lemma_trim_no_return(s: Seq<char>)
    requires
        !s.contains('\r'),
    ensures
        !without_trailing_space(s).contains('\r'),
    decreases s.len(),
{
    if s.len() > 0 && is_space(s.last()) {
        let front = s.drop_last();
        assert forall|i: int| 0 <= i < front.len() implies front[i] != '\r' by {
            assert(s.contains(s[i]));
        }
        lemma_trim_no_return(front);
    }
}

/// The output view shows the line for a row as the row is: each character of each cell, in the
/// style of its cell, but for white space at the end.
pub proof fn law_output_shows_the_cells(row: Seq<CellView>)
    requires
        row_valid(row),
    ensures
        ({
            let shown = text_glyphs(after_return(line_of(row)), Style::unchanged());
            let cells = cell_glyphs(row, 0);
            &&& shown.len() <= cells.len()
            &&& shown == cells.take(shown.len() as int)
            &&& forall|i: int| shown.len() <= i < cells.len() ==> is_space((#[trigger] cells[i]).c)
        }),
{
    let whole = line_from(row, 0, CellStyle::unstyled());
    assert(shown_style(CellStyle::unstyled()) == Style::unchanged());
    lemma_line_glyphs(row, 0, CellStyle::unstyled());
    lemma_trim_glyphs(whole, Style::unchanged());
    lemma_trim_no_return(whole);
    lemma_no_return(line_of(row));
}

/// Columns stay aligned: in a row of cells that take one column each, and hold at most one
/// character, the character in a column is shown in that column.
pub proof fn law_columns_stay_aligned(row: Seq<CellView>, col: int)
    requires
        0 <= col <= row.len(),
        forall|c: int|
            0 <= c < row.len() ==> !(#[trigger] row[c]).wide && !row[c].wide_continuation
                && row[c].contents.len() <= 1,
    ensures
        cell_glyphs(row, col).len() == row.len() - col,
        forall|c: int|
            col <= c < row.len() ==> #[trigger] cell_glyphs(row, col)[c - col].c == (
            if row[c].contents.len() > 0 {
                row[c].contents[0]
            } else {
                ' '
            }),
    decreases row.len() - col,
{
    if col < row.len() {
        let rest = cell_glyphs(row, col + 1);
        law_columns_stay_aligned(row, col + 1);
        assert(row[col].width() == 1);
        assert(cell_glyphs(row, col).len() == 1 + rest.len());
        assert forall|c: int| col <= c < row.len() implies #[trigger] cell_glyphs(row, col)[c - col].c
            == (if row[c].contents.len() > 0 {
            row[c].contents[0]
        } else {
            ' '
        }) by {
            if c > col {
                assert(cell_glyphs(row, col)[c - col] == rest[c - (col + 1)]);
            }
        }
    }
}

/// What is shown of a row goes on cell by cell: what the cell holds or a space, in the style of the
/// cell, and a wide character takes the place of two.
pub proof fn law_cells_are_shown_in_their_style(row: Seq<CellView>, col: int)
    requires
        0 <= col < row.len(),
    ensures
        row[col].wide_continuation ==> cell_glyphs(row, col) == cell_glyphs(row, col + 1),
        !row[col].wide_continuation ==> {
            let n = if row[col].contents.len() > 0 {
                row[col].contents.len() as int
            } else {
                1
            };
            let shown = cell_glyphs(row, col);
            let next = cell_glyphs(
                row,
                if row[col].wide {
                    col + 2
                } else {
                    col + 1
                },
            );
            &&& shown.len() == n + next.len()
            &&& shown.skip(n) == next
            &&& forall|i: int|
                0 <= i < n ==> (#[trigger] shown[i]).style == shown_style(row[col].style)
            &&& row[col].contents.len() > 0 ==> forall|i: int|
                0 <= i < n ==> (#[trigger] shown[i]).c == row[col].contents[i]
            &&& row[col].contents.len() == 0 ==> shown[0].c == ' '
        },
{
    if !row[col].wide_continuation {
        let n = if row[col].contents.len() > 0 {
            row[col].contents.len() as int
        } else {
            1
        };
        let next = cell_glyphs(row, col + row[col].width());
        assert(cell_glyphs(row, col).skip(n) == next);
    }
}

} // verus!
