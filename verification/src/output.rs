//! The output of a run: the lines that are kept of it, and how messages from the task change them.

use vstd::prelude::*;

use crate::ansi::{strip_ansi_plain, stripped};
use crate::moon::{MsgView, OutputMsg};
use crate::terminal::{
    emulated_screen, emulator_input, emulator_size, emulator_works, extract_screen_lines,
    law_screen_lines, read_screen, screen_lines, size_works, Screen, ScreenView,
};
use crate::text::{blank, is_blank, texts, trim, trimmed};

verus! {

/// How many lines of output are kept.
pub const MAX_OUTPUT_LINES: usize = 10_000;

/// A terminal emulator: its size, and the bytes that it has taken in.
pub ghost struct EmulatorView {
    pub rows: u16,
    pub cols: u16,
    pub input: Seq<u8>,
}

impl EmulatorView {
    /// What its screen shows.
    pub open spec fn screen(self) -> ScreenView {
        emulated_screen(self.rows, self.cols, self.input)
    }

    /// Whether it takes in any bytes at its size.
    pub open spec fn works(self) -> bool {
        size_works((self.rows, self.cols))
    }
}

/// The emulator of a run, where it has one.
pub open spec fn emulator_view(vt: Option<vt100::Parser>) -> Option<EmulatorView> {
    match vt {
        Some(p) => Some(
            EmulatorView {
                rows: emulator_size(p).0,
                cols: emulator_size(p).1,
                input: emulator_input(p),
            },
        ),
        None => None,
    }
}

/// One run of a task.
pub ghost struct RunView {
    /// The lines that are kept of its output.
    pub lines: Seq<Seq<char>>,
    /// The line at which the view of the output starts.
    pub scroll: int,
    /// Whether the view stays at the end of the output.
    pub follow: bool,
    pub finished: bool,
    pub exit_code: Option<i32>,
    /// Whether its messages are still listened to.
    pub listening: bool,
    /// Whether its exit code is still awaited.
    pub awaiting: bool,
    /// Whether it takes input.
    pub interactive: bool,
    pub emulator: Option<EmulatorView>,
    /// How many of the lines have scrolled off the screen of the emulator.
    pub scrollback: int,
    /// Whether the emulator last showed the alternate screen.
    pub alternate: bool,
    /// The process that runs the task; 0 where there is none.
    pub child_pid: u32,
}

/// A run of which nothing has been heard.
pub open spec fn no_run() -> RunView {
    RunView {
        lines: seq![],
        scroll: 0,
        follow: true,
        finished: false,
        exit_code: None,
        listening: false,
        awaiting: false,
        interactive: false,
        emulator: None,
        scrollback: 0,
        alternate: false,
        child_pid: 0,
    }
}

/// A run that has just been started with its output piped.
pub open spec fn piped_run() -> RunView {
    RunView { listening: true, awaiting: true, ..no_run() }
}

/// A run that has just been started in an emulator of that size.
pub open spec fn interactive_run(rows: u16, cols: u16) -> RunView {
    RunView {
        listening: true,
        awaiting: true,
        interactive: true,
        emulator: Some(EmulatorView { rows, cols, input: seq![] }),
        ..no_run()
    }
}

impl RunView {
    /// What holds of every run: what has scrolled off is part of the output.
    pub open spec fn valid(self) -> bool {
        &&& 0 <= self.scroll
        &&& 0 <= self.scrollback <= self.lines.len()
    }
}

/// `a - b`, but not below zero.
pub open spec fn minus(a: int, b: int) -> int {
    if a > b {
        a - b
    } else {
        0
    }
}

// Messages.

/// What the messages hold.
pub open spec fn msg_views(msgs: Seq<OutputMsg>) -> Seq<MsgView> {
    msgs.map_values(|m: OutputMsg| m@)
}

/// The lines that the messages append.
pub open spec fn appended(msgs: Seq<MsgView>) -> Seq<Seq<char>>
    decreases msgs.len(),
{
    if msgs.len() == 0 {
        seq![]
    } else {
        match msgs.last() {
            MsgView::Append(line) => appended(msgs.drop_last()).push(line),
            MsgView::PtyOutput(_) => appended(msgs.drop_last()),
        }
    }
}

/// The bytes that the messages hold for the emulator.
pub open spec fn pty_bytes(msgs: Seq<MsgView>) -> Seq<u8>
    decreases msgs.len(),
{
    if msgs.len() == 0 {
        seq![]
    } else {
        match msgs.last() {
            MsgView::Append(_) => pty_bytes(msgs.drop_last()),
            MsgView::PtyOutput(bytes) => pty_bytes(msgs.drop_last()) + bytes,
        }
    }
}

/// Whether one of the messages is for the emulator.
pub open spec fn has_pty(msgs: Seq<MsgView>) -> bool {
    exists|i: int| 0 <= i < msgs.len() && (#[trigger] msgs[i]) is PtyOutput
}

/// The emulator after the messages.
pub open spec fn fed(emulator: Option<EmulatorView>, msgs: Seq<MsgView>) -> Option<EmulatorView> {
    match emulator {
        Some(e) => Some(EmulatorView { input: e.input + pty_bytes(msgs), ..e }),
        None => None,
    }
}

// The screen in the output.

/// The text of a line, without escape sequences and without white space at its ends.
pub open spec fn plain_text(line: Seq<char>) -> Seq<char> {
    trimmed(stripped(line))
}

/// How many lines there are up to the last one that shows something.
pub open spec fn nonblank_end(lines: Seq<Seq<char>>) -> int
    decreases lines.len(),
{
    if lines.len() > 0 && blank(stripped(lines.last())) {
        nonblank_end(lines.drop_last())
    } else {
        lines.len() as int
    }
}

/// The text of each line.
pub open spec fn plain_texts(lines: Seq<Seq<char>>) -> Seq<Seq<char>> {
    lines.map_values(|line: Seq<char>| plain_text(line))
}

/// The text of each row, without white space at its ends.
pub open spec fn trimmed_rows(rows: Seq<Seq<char>>) -> Seq<Seq<char>> {
    rows.map_values(|row: Seq<char>| trimmed(row))
}

/// Whether one of the texts shows something.
pub open spec fn any_shown(texts: Seq<Seq<char>>) -> bool {
    exists|i: int| 0 <= i < texts.len() && (#[trigger] texts[i]).len() > 0
}

/// Whether the texts `before` have moved up by `k` rows: the first `k` are gone, and the rows
/// `now` start with the others, which show something.
pub open spec fn moved_up(before: Seq<Seq<char>>, now: Seq<Seq<char>>, k: int) -> bool {
    &&& 0 <= k < before.len() <= k + now.len()
    &&& before.skip(k) == now.take(before.len() - k)
    &&& any_shown(before.skip(k))
}

/// The least number of rows, from `k` on, by which the texts `before` have moved up, where there
/// is one.
pub open spec fn shift_from(
    before: Seq<Seq<char>>,
    now: Seq<Seq<char>>,
    k: int,
) -> Option<int>
    decreases before.len() - k,
{
    if k >= before.len() {
        None
    } else if moved_up(before, now, k) {
        Some(k)
    } else {
        shift_from(before, now, k + 1)
    }
}

/// The least number of rows by which the texts `before` have moved up, where there is one.
pub open spec fn shift(before: Seq<Seq<char>>, now: Seq<Seq<char>>) -> Option<int> {
    shift_from(before, now, 0)
}

/// Whether a text that shows something stands in one of the rows.
pub open spec fn remains(text: Seq<char>, now: Seq<Seq<char>>) -> bool {
    text.len() > 0 && now.contains(text)
}

/// Whether one of the texts still stands in one of the rows.
pub open spec fn any_remains(before: Seq<Seq<char>>, now: Seq<Seq<char>>) -> bool {
    exists|i: int| 0 <= i < before.len() && remains(#[trigger] before[i], now)
}

/// How many of the texts `before`, which the screen showed, have scrolled off now that its rows
/// are `now`.
///
/// While the first row is as it was, none: the screen was redrawn in place. Where the first row
/// has changed and the texts have moved up, as many as are gone; the last of them may have been
/// incomplete, so it may have changed. Where they have not moved up, none if the first of them
/// showed nothing or has only moved down. In any other case the first of them is gone: it alone
/// counts while others are left on the screen, and all of them count where nothing is left.
pub open spec fn gone(before: Seq<Seq<char>>, now: Seq<Seq<char>>) -> int {
    if before[0] == now[0] {
        0
    } else {
        match shift(before, now) {
            Some(k) => k,
            None => match shift(before.drop_last(), now) {
                Some(k) => k,
                None => if before[0].len() == 0 || remains(before[0], now) {
                    0
                } else if any_remains(before, now) {
                    1
                } else {
                    before.len() as int
                },
            },
        }
    }
}

/// How many of the lines `old`, which showed the screen as it was, count as scrolled off now that
/// the screen shows `screen`.
pub open spec fn scrolled_off(old: Seq<Seq<char>>, screen: ScreenView) -> int {
    if old.len() == 0 || screen_lines(screen.cells).len() == 0 {
        0
    } else {
        gone(plain_texts(old), trimmed_rows(screen.row_texts()))
    }
}

/// How many lines of the output count as scrolled off once the emulator shows `screen`: all up to
/// the last that shows something when a program takes over the alternate screen, none when it
/// leaves it, and those that scroll off the top meanwhile.
pub open spec fn scrollback_after(run: RunView, screen: ScreenView) -> int {
    if screen.alternate && !run.alternate {
        nonblank_end(run.lines)
    } else if !screen.alternate && run.alternate {
        0
    } else if !screen.alternate {
        run.scrollback + scrolled_off(run.lines.skip(run.scrollback), screen)
    } else {
        run.scrollback
    }
}

/// The run once the emulator shows `screen`: what has scrolled off stays, and the rest of the
/// output is what the screen shows.
pub open spec fn absorbed(run: RunView, screen: ScreenView) -> RunView {
    let scrollback = scrollback_after(run, screen);
    RunView {
        lines: run.lines.take(scrollback) + screen_lines(screen.cells),
        scrollback,
        alternate: screen.alternate,
        ..run
    }
}

/// The run with no more than the last lines that are kept.
pub open spec fn capped(run: RunView) -> RunView {
    if run.lines.len() > MAX_OUTPUT_LINES {
        let dropped = run.lines.len() - MAX_OUTPUT_LINES;
        RunView {
            lines: run.lines.skip(dropped),
            scroll: minus(run.scroll, dropped),
            scrollback: minus(run.scrollback, dropped),
            ..run
        }
    } else {
        run
    }
}

/// The run with its view at the end of the output, where it follows it.
pub open spec fn followed(run: RunView) -> RunView {
    if run.follow {
        RunView { scroll: minus(run.lines.len() as int, 1), ..run }
    } else {
        run
    }
}

/// The run with the messages taken in, before the screen is looked at.
pub open spec fn received(run: RunView, msgs: Seq<MsgView>) -> RunView {
    RunView {
        lines: run.lines + appended(msgs),
        emulator: fed(run.emulator, msgs),
        ..run
    }
}

/// The run after the messages.
pub open spec fn polled(run: RunView, msgs: Seq<MsgView>) -> RunView {
    if !run.listening {
        run
    } else {
        let taken = received(run, msgs);
        let shown = match taken.emulator {
            Some(e) => if has_pty(msgs) {
                absorbed(taken, e.screen())
            } else {
                taken
            },
            None => taken,
        };
        followed(capped(shown))
    }
}

/// Whether the run can take in the messages: where there are bytes for its emulator, it works.
pub open spec fn can_poll(run: RunView, msgs: Seq<MsgView>) -> bool {
    run.listening && run.emulator is Some && has_pty(msgs) ==> run.emulator->0.works()
}

// Executable parts.

/// Takes in the messages: lines go to `lines`, bytes to the emulator. Gives whether there were
/// bytes for an emulator.
fn take_messages(
    lines: &mut Vec<String>,
    vt: &mut Option<vt100::Parser>,
    msgs: Vec<OutputMsg>,
) -> (got_pty: bool)
    requires
        *old(vt) is Some && has_pty(msg_views(msgs@)) ==> emulator_view(*old(vt))->0.works(),
    ensures
        texts(final(lines)@) == texts(old(lines)@) + appended(msg_views(msgs@)),
        emulator_view(*final(vt)) == fed(emulator_view(*old(vt)), msg_views(msgs@)),
        got_pty == (*old(vt) is Some && has_pty(msg_views(msgs@))),
{
    let mut got_pty = false;
    let ghost all = msg_views(msgs@);
    let ghost lines0 = texts(lines@);
    let ghost vt0 = emulator_view(*vt);
    assert(all.take(0) == Seq::<MsgView>::empty());
    assert(lines0 + appended(all.take(0)) == lines0);
    proof {
        if vt0 is Some {
            assert(fed(vt0, all.take(0))->0.input == vt0->0.input);
        }
    }
    for msg in iter: msgs
        invariant
            iter.seq() == msgs@,
            all == msg_views(msgs@),
            vt0 is Some && has_pty(all) ==> vt0->0.works(),
            texts(lines@) == lines0 + appended(all.take(iter.index())),
            emulator_view(*vt) == fed(vt0, all.take(iter.index())),
            got_pty == (vt0 is Some && has_pty(all.take(iter.index()))),
    {
        let ghost n = iter.index();
        proof {
            assert(all.take(n + 1).drop_last() == all.take(n));
            assert(all.take(n + 1).last() == msg@);
            assert(all[n] == msg@);
            if has_pty(all.take(n)) {
                let i = choose|i: int| 0 <= i < n && (#[trigger] all.take(n)[i]) is PtyOutput;
                assert(all.take(n + 1)[i] is PtyOutput);
            }
            if has_pty(all.take(n + 1)) && !(msg@ is PtyOutput) {
                let i = choose|i: int|
                    0 <= i < n + 1 && (#[trigger] all.take(n + 1)[i]) is PtyOutput;
                assert(all.take(n)[i] is PtyOutput);
            }
            if msg@ is PtyOutput {
                assert(all.take(n + 1)[n] is PtyOutput);
                assert(all[n] is PtyOutput);
            }
        }
        match msg {
            OutputMsg::Append(line) => {
                let ghost before = lines@;
                let ghost text = line@;
                lines.push(line);
                assert(texts(lines@) == texts(before).push(text));
                assert(texts(lines@) == lines0 + appended(all.take(n + 1)));
            },
            OutputMsg::PtyOutput(bytes) => {
                if let Some(emulator) = vt.as_mut() {
                    emulator.process(bytes.as_slice());
                    got_pty = true;
                }
                proof {
                    if vt0 is Some {
                        assert(emulator_view(*vt)->0.input == fed(vt0, all.take(n + 1))->0.input);
                    }
                }
            },
        }
    }
    assert(all.take(msgs@.len() as int) == all);
    got_pty
}

/// Whether a run in that emulator can take in the messages.
pub(crate) fn emulator_can_take(vt: &vt100::Parser, msgs: &Vec<OutputMsg>) -> (ok: bool)
    ensures
        ok == (has_pty(msg_views(msgs@)) ==> size_works(emulator_size(*vt))),
{
    let ghost views = msg_views(msgs@);
    if emulator_works(vt) {
        return true;
    }
    for i in 0..msgs.len()
        invariant
            views == msg_views(msgs@),
            !size_works(emulator_size(*vt)),
            forall|k: int| 0 <= k < i ==> !((#[trigger] views[k]) is PtyOutput),
    {
        assert(views[i as int] == msgs@[i as int]@);
        if let OutputMsg::PtyOutput(_) = &msgs[i] {
            assert(has_pty(views));
            return false;
        }
    }
    true
}

/// The text of a line, without escape sequences and without white space at its ends.
fn plain_text_of(line: &str) -> (text: String)
    ensures
        text@ == plain_text(line@),
{
    trim(strip_ansi_plain(line).as_str())
}

/// How many lines there are up to the last one that shows something.
fn count_to_last_shown(lines: &Vec<String>) -> (n: usize)
    ensures
        n == nonblank_end(texts(lines@)),
{
    let ghost all = texts(lines@);
    let mut n: usize = lines.len();
    assert(all.take(n as int) == all);
    while n > 0
        invariant
            n <= lines.len(),
            all == texts(lines@),
            nonblank_end(all.take(n as int)) == nonblank_end(all),
        decreases n,
    {
        assert(all.take(n as int).last() == all[n - 1]);
        assert(all.take(n as int).drop_last() == all.take(n - 1));
        if !is_blank(strip_ansi_plain(lines[n - 1].as_str()).as_str()) {
            return n;
        }
        n -= 1;
    }
    n
}

/// The text of each line from `start` on.
fn texts_from(lines: &Vec<String>, start: usize) -> (found: Vec<String>)
    requires
        start <= lines.len(),
    ensures
        texts(found@) == plain_texts(texts(lines@).skip(start as int)),
{
    let ghost old = texts(lines@).skip(start as int);
    let mut found: Vec<String> = Vec::new();
    for i in start..lines.len()
        invariant
            start <= lines.len(),
            old == texts(lines@).skip(start as int),
            found.len() == i - start,
            forall|k: int| 0 <= k < i - start ==> (#[trigger] found@[k])@ == plain_text(old[k]),
    {
        assert(texts(lines@)[i as int] == lines@[i as int]@);
        assert(old[i - start] == lines@[i as int]@);
        found.push(plain_text_of(lines[i].as_str()));
    }
    assert(texts(found@) == plain_texts(old));
    found
}

/// The text of each row, without white space at its ends.
fn trim_rows(rows: &Vec<String>) -> (found: Vec<String>)
    ensures
        texts(found@) == trimmed_rows(texts(rows@)),
{
    let mut found: Vec<String> = Vec::new();
    for i in 0..rows.len()
        invariant
            found.len() == i,
            forall|k: int| 0 <= k < i ==> (#[trigger] found@[k])@ == trimmed(rows@[k]@),
    {
        found.push(trim(rows[i].as_str()));
    }
    assert(texts(found@) == trimmed_rows(texts(rows@)));
    found
}

/// Whether the first `n` of the texts `before` have moved up by `k` rows.
fn has_moved_up(before: &Vec<String>, n: usize, now: &Vec<String>, k: usize) -> (moved: bool)
    requires
        k < n <= before.len(),
    ensures
        moved == moved_up(texts(before@).take(n as int), texts(now@), k as int),
{
    let ghost old = texts(before@).take(n as int);
    let ghost rows = texts(now@);
    if n - k > now.len() {
        return false;
    }
    let mut shown = false;
    for i in k..n
        invariant
            k < n <= before.len(),
            n - k <= now.len(),
            old == texts(before@).take(n as int),
            rows == texts(now@),
            forall|j: int| k <= j < i ==> #[trigger] old[j] == rows[j - k],
            shown == any_shown(old.subrange(k as int, i as int)),
    {
        assert(old[i as int] == before@[i as int]@);
        assert(rows[i - k] == now@[i - k]@);
        if before[i] != now[i - k] {
            proof {
                if old.skip(k as int) == rows.take(n - k) {
                    assert(old.skip(k as int)[i - k] == rows.take(n - k)[i - k]);
                }
            }
            return false;
        }
        proof {
            let first = old.subrange(k as int, i as int);
            let more = old.subrange(k as int, i + 1);
            if any_shown(first) {
                let j = choose|j: int| 0 <= j < first.len() && (#[trigger] first[j]).len() > 0;
                assert(more[j] == first[j]);
            }
            if any_shown(more) {
                let j = choose|j: int| 0 <= j < more.len() && (#[trigger] more[j]).len() > 0;
                if j < first.len() {
                    assert(first[j] == more[j]);
                }
            }
            assert(more[i - k] == old[i as int]);
        }
        if !before[i].as_str().is_empty() {
            shown = true;
        }
    }
    assert(old.skip(k as int) == old.subrange(k as int, n as int));
    assert(old.skip(k as int) == rows.take(n - k));
    shown
}

/// The least number of rows by which the first `n` of the texts `before` have moved up, where
/// there is one.
fn find_shift(before: &Vec<String>, n: usize, now: &Vec<String>) -> (found: Option<usize>)
    requires
        n <= before.len(),
    ensures
        found is Some == shift(texts(before@).take(n as int), texts(now@)) is Some,
        found is Some ==> found->0 == shift(texts(before@).take(n as int), texts(now@))->0,
{
    let ghost old = texts(before@).take(n as int);
    let ghost rows = texts(now@);
    for k in 0..n
        invariant
            n <= before.len(),
            old == texts(before@).take(n as int),
            rows == texts(now@),
            shift(old, rows) == shift_from(old, rows, k as int),
    {
        if has_moved_up(before, n, now, k) {
            return Some(k);
        }
    }
    None
}

/// Whether a text that shows something stands in one of the rows.
fn is_shown(text: &String, now: &Vec<String>) -> (found: bool)
    ensures
        found == remains(text@, texts(now@)),
{
    if text.as_str().is_empty() {
        return false;
    }
    for i in 0..now.len()
        invariant
            text@.len() > 0,
            forall|k: int| 0 <= k < i ==> (#[trigger] texts(now@)[k]) != text@,
    {
        assert(texts(now@)[i as int] == now@[i as int]@);
        if now[i] == *text {
            return true;
        }
    }
    false
}

/// Whether one of the texts still stands in one of the rows.
fn is_any_shown(before: &Vec<String>, now: &Vec<String>) -> (found: bool)
    ensures
        found == any_remains(texts(before@), texts(now@)),
{
    let ghost old = texts(before@);
    for k in 0..before.len()
        invariant
            old == texts(before@),
            forall|i: int| 0 <= i < k ==> !remains(#[trigger] old[i], texts(now@)),
    {
        assert(old[k as int] == before@[k as int]@);
        if is_shown(&before[k], now) {
            return true;
        }
    }
    false
}

/// How many of the texts have scrolled off now that the rows are `now`.
fn count_gone(before: &Vec<String>, now: &Vec<String>) -> (n: usize)
    requires
        before.len() > 0,
        now.len() > 0,
    ensures
        n == gone(texts(before@), texts(now@)),
{
    let ghost old = texts(before@);
    assert(old.take(before.len() as int) == old);
    assert(old.take(before.len() - 1) == old.drop_last());
    assert(old[0] == before@[0]@);
    assert(texts(now@)[0] == now@[0]@);
    if before[0] == now[0] {
        return 0;
    }
    if let Some(k) = find_shift(before, before.len(), now) {
        return k;
    }
    if let Some(k) = find_shift(before, before.len() - 1, now) {
        return k;
    }
    if before[0].as_str().is_empty() || is_shown(&before[0], now) {
        0
    } else if is_any_shown(before, now) {
        1
    } else {
        before.len()
    }
}

/// How many of the lines from `start` on count as scrolled off.
fn count_scrolled_off(lines: &Vec<String>, start: usize, screen: &Screen, shown: usize) -> (n:
    usize)
    requires
        start <= lines.len(),
        screen.wf(),
        shown == screen_lines(screen@.cells).len(),
    ensures
        n == scrolled_off(texts(lines@).skip(start as int), screen@),
{
    if start == lines.len() || shown == 0 {
        return 0;
    }
    proof {
        law_screen_lines(screen@);
        assert(screen@.row_texts().len() == screen@.cells.len());
        assert(texts(screen.rows@).len() == screen.rows.len());
    }
    let before = texts_from(lines, start);
    let now = trim_rows(&screen.rows);
    assert(texts(before@).len() == before.len());
    assert(texts(now@).len() == now.len());
    count_gone(&before, &now)
}

proof fn lemma_nonblank_end(lines: Seq<Seq<char>>)
    ensures
        0 <= nonblank_end(lines) <= lines.len(),
    decreases lines.len(),
{
    if lines.len() > 0 && blank(stripped(lines.last())) {
        lemma_nonblank_end(lines.drop_last());
    }
}

pub(crate) proof fn lemma_shift_from(before: Seq<Seq<char>>, now: Seq<Seq<char>>, k: int)
    requires
        0 <= k,
    ensures
        shift_from(before, now, k) matches Some(i) ==> k <= i && moved_up(before, now, i),
        forall|i: int|
            k <= i && #[trigger] moved_up(before, now, i) ==> shift_from(before, now, k) is Some
                && shift_from(before, now, k)->0 <= i,
    decreases before.len() - k,
{
    if k < before.len() && !moved_up(before, now, k) {
        lemma_shift_from(before, now, k + 1);
        assert forall|i: int| k <= i && #[trigger] moved_up(before, now, i) implies shift_from(
            before,
            now,
            k,
        ) is Some && shift_from(before, now, k)->0 <= i by {
            assert(k + 1 <= i);
        }
    }
}

/// No more counts as scrolled off than there were lines.
pub(crate) proof fn lemma_scrolled_off(old: Seq<Seq<char>>, screen: ScreenView)
    ensures
        0 <= scrolled_off(old, screen) <= old.len(),
{
    let before = plain_texts(old);
    let now = trimmed_rows(screen.row_texts());
    lemma_shift_from(before, now, 0);
    if old.len() > 0 {
        lemma_shift_from(before.drop_last(), now, 0);
    }
}

/// A run stays valid when it takes in a screen, and what counts as scrolled off is part of the
/// lines that there were.
pub proof fn lemma_absorbed_valid(run: RunView, screen: ScreenView)
    requires
        run.valid(),
    ensures
        absorbed(run, screen).valid(),
        0 <= scrollback_after(run, screen) <= run.lines.len(),
{
    lemma_nonblank_end(run.lines);
    lemma_scrolled_off(run.lines.skip(run.scrollback), screen);
}

/// How many lines of the output count as scrolled off once the emulator shows `screen`.
fn next_scrollback(
    lines: &Vec<String>,
    scrollback: usize,
    was_alternate: bool,
    screen: &Screen,
    shown: usize,
    Ghost(run): Ghost<RunView>,
) -> (n: usize)
    requires
        run.lines == texts(lines@),
        run.scrollback == scrollback,
        run.alternate == was_alternate,
        run.valid(),
        screen.wf(),
        shown == screen_lines(screen@.cells).len(),
    ensures
        n == scrollback_after(run, screen@),
{
    proof {
        lemma_absorbed_valid(run, screen@);
    }
    if screen.alternate && !was_alternate {
        count_to_last_shown(lines)
    } else if !screen.alternate && was_alternate {
        0
    } else if !screen.alternate {
        scrollback + count_scrolled_off(lines, scrollback, screen, shown)
    } else {
        scrollback
    }
}

proof fn lemma_appended_len(msgs: Seq<MsgView>)
    ensures
        appended(msgs).len() <= msgs.len(),
    decreases msgs.len(),
{
    if msgs.len() > 0 {
        lemma_appended_len(msgs.drop_last());
    }
}

/// A run stays valid when it takes in messages.
pub proof fn lemma_received_valid(run: RunView, msgs: Seq<MsgView>)
    requires
        run.valid(),
        run.listening,
        can_poll(run, msgs),
    ensures
        received(run, msgs).valid(),
        received(run, msgs).lines.len() <= run.lines.len() + msgs.len(),
{
    lemma_appended_len(msgs);
}

/// One run of a task: the state of the task in the foreground, and saved state for a task running
/// in the background (detached but not killed). The channels that a run is connected by are held
/// by the caller; what stands here is whether there is one.
pub struct TaskState {
    pub output_lines: Vec<String>,
    pub output_scroll: usize,
    pub output_follow: bool,
    pub output_finished: bool,
    pub output_exit_code: Option<i32>,
    pub line_rx: bool,
    pub exit_code_rx: bool,
    pub stdin_tx: bool,
    pub vt: Option<vt100::Parser>,
    pub pty_scrollback_len: usize,
    pub was_alternate_screen: bool,
    pub child_pid: u32,
}

impl View for TaskState {
    type V = RunView;

    open spec fn view(&self) -> RunView {
        RunView {
            lines: texts(self.output_lines@),
            scroll: self.output_scroll as int,
            follow: self.output_follow,
            finished: self.output_finished,
            exit_code: self.output_exit_code,
            listening: self.line_rx,
            awaiting: self.exit_code_rx,
            interactive: self.stdin_tx,
            emulator: emulator_view(self.vt),
            scrollback: self.pty_scrollback_len as int,
            alternate: self.was_alternate_screen,
            child_pid: self.child_pid,
        }
    }
}

impl TaskState {
    /// A run that has just been started with its output piped.
    pub fn piped() -> (state: TaskState)
        ensures
            state@ == piped_run(),
    {
        let state = TaskState {
            output_lines: Vec::new(),
            output_scroll: 0,
            output_follow: true,
            output_finished: false,
            output_exit_code: None,
            line_rx: true,
            exit_code_rx: true,
            stdin_tx: false,
            vt: None,
            pty_scrollback_len: 0,
            was_alternate_screen: false,
            child_pid: 0,
        };
        assert(state@.lines == piped_run().lines);
        state
    }

    /// A run that has just been started in an emulator of that size.
    pub fn interactive(rows: u16, cols: u16) -> (state: TaskState)
        requires
            rows >= 1,
        ensures
            state@ == interactive_run(rows, cols),
    {
        let emulator = vt100::Parser::new(rows, cols, 1000);
        TaskState { stdin_tx: true, vt: Some(emulator), ..TaskState::piped() }
    }

    /// Takes in what the screen of the emulator shows: lines that scroll off the visible screen
    /// are preserved at the start of the output, and the screen portion is replaced.
    pub fn absorb_screen(&mut self, screen: &Screen)
        requires
            old(self)@.valid(),
            screen.wf(),
        ensures
            final(self)@ == absorbed(old(self)@, screen@),
            final(self)@.valid(),
    {
        let ghost run = self@;
        let mut new_screen = extract_screen_lines(screen);
        let ghost shown = texts(new_screen@);
        let n: usize = next_scrollback(
            &self.output_lines,
            self.pty_scrollback_len,
            self.was_alternate_screen,
            screen,
            new_screen.len(),
            Ghost(run),
        );
        self.pty_scrollback_len = n;
        self.was_alternate_screen = screen.alternate;
        self.output_lines.truncate(n);
        let ghost kept = texts(self.output_lines@);
        self.output_lines.append(&mut new_screen);
        proof {
            lemma_absorbed_valid(run, screen@);
            assert(kept == run.lines.take(n as int));
            assert(texts(self.output_lines@) == kept + shown);
        }
    }

    /// Takes in the messages, before the screen is looked at. Gives whether there were bytes for
    /// an emulator.
    fn receive(&mut self, msgs: Vec<OutputMsg>) -> (got_pty: bool)
        requires
            old(self)@.valid(),
            old(self)@.listening,
            can_poll(old(self)@, msg_views(msgs@)),
        ensures
            final(self)@ == received(old(self)@, msg_views(msgs@)),
            final(self)@.valid(),
            got_pty == (old(self)@.emulator is Some && has_pty(msg_views(msgs@))),
            final(self).output_lines.len() <= old(self).output_lines.len() + msgs.len(),
    {
        let ghost run = self@;
        let ghost views = msg_views(msgs@);
        let got_pty = take_messages(&mut self.output_lines, &mut self.vt, msgs);
        proof {
            lemma_received_valid(run, views);
            assert(self@.lines.len() == self.output_lines.len());
        }
        got_pty
    }

    /// Takes in what the emulator shows.
    fn show_emulator(&mut self)
        requires
            old(self)@.valid(),
            old(self)@.emulator is Some,
        ensures
            final(self)@ == absorbed(old(self)@, old(self)@.emulator->0.screen()),
            final(self)@.valid(),
    {
        let screen = match &self.vt {
            Some(vt) => read_screen(vt),
            None => {
                return;
            },
        };
        self.absorb_screen(&screen);
    }

    /// Drops old lines beyond those that are kept, and follows the output where it is followed.
    fn cap_and_follow(&mut self)
        requires
            old(self)@.valid(),
        ensures
            final(self)@ == followed(capped(old(self)@)),
            final(self)@.valid(),
            final(self)@.lines.len() <= MAX_OUTPUT_LINES,
    {
        if self.output_lines.len() > MAX_OUTPUT_LINES {
            let keep_from: usize = self.output_lines.len() - MAX_OUTPUT_LINES;
            let ghost before = texts(self.output_lines@);
            let kept = self.output_lines.split_off(keep_from);
            self.output_lines = kept;
            self.output_scroll = self.output_scroll.saturating_sub(keep_from);
            self.pty_scrollback_len = self.pty_scrollback_len.saturating_sub(keep_from);
            assert(texts(self.output_lines@) == before.skip(keep_from as int));
        }
        if self.output_follow {
            self.output_scroll = self.output_lines.len().saturating_sub(1);
        }
    }

    /// Takes in pending output.
    pub fn poll(&mut self, msgs: Vec<OutputMsg>)
        requires
            old(self)@.valid(),
            old(self)@.lines.len() <= MAX_OUTPUT_LINES,
            can_poll(old(self)@, msg_views(msgs@)),
            msgs.len() <= isize::MAX,
        ensures
            final(self)@ == polled(old(self)@, msg_views(msgs@)),
            final(self)@.valid(),
            final(self)@.lines.len() <= MAX_OUTPUT_LINES,
    {
        if !self.line_rx {
            return;
        }
        assert(self@.lines.len() == self.output_lines.len());
        if self.receive(msgs) {
            self.show_emulator();
        }
        self.cap_and_follow();
    }
}

// Laws.

/// Ten thousand lines of output are kept.
pub proof fn law_room_for_lines()
    ensures
        MAX_OUTPUT_LINES == 10_000,
{
}

/// Messages are taken in their order: a line adds itself to the lines and nothing to the bytes,
/// bytes add themselves to the bytes and nothing to the lines.
pub proof fn law_messages(msgs: Seq<MsgView>, line: Seq<char>, bytes: Seq<u8>)
    ensures
        appended(Seq::<MsgView>::empty()).len() == 0,
        pty_bytes(Seq::<MsgView>::empty()).len() == 0,
        !has_pty(Seq::<MsgView>::empty()),
        appended(msgs.push(MsgView::Append(line))) == appended(msgs) + seq![line],
        pty_bytes(msgs.push(MsgView::Append(line))) == pty_bytes(msgs),
        has_pty(msgs.push(MsgView::Append(line))) == has_pty(msgs),
        appended(msgs.push(MsgView::PtyOutput(bytes))) == appended(msgs),
        pty_bytes(msgs.push(MsgView::PtyOutput(bytes))) == pty_bytes(msgs) + bytes,
        has_pty(msgs.push(MsgView::PtyOutput(bytes))),
{
    let a = msgs.push(MsgView::Append(line));
    let b = msgs.push(MsgView::PtyOutput(bytes));
    assert(a.drop_last() == msgs && b.drop_last() == msgs);
    assert(appended(a) == appended(msgs) + seq![line]);
    assert(b[msgs.len() as int] is PtyOutput);
    if has_pty(msgs) {
        let i = choose|i: int| 0 <= i < msgs.len() && (#[trigger] msgs[i]) is PtyOutput;
        assert(a[i] == msgs[i]);
    }
    if has_pty(a) {
        let i = choose|i: int| 0 <= i < a.len() && (#[trigger] a[i]) is PtyOutput;
        assert(msgs[i] == a[i]);
    }
}

/// The emulator keeps its size, and takes in the bytes after those that it has.
pub proof fn law_emulator_is_fed(emulator: EmulatorView, msgs: Seq<MsgView>)
    ensures
        fed(None, msgs) is None,
        fed(Some(emulator), msgs) matches Some(after) && after.rows == emulator.rows && after.cols
            == emulator.cols && after.input == emulator.input + pty_bytes(msgs),
{
}

/// A run that is not listened to takes in nothing. Else its lines go to the end of the output, and
/// its bytes to the emulator, whose screen is then looked at; and of all that no more than the
/// last lines are kept.
pub proof fn law_output_is_taken_in(run: RunView, msgs: Seq<MsgView>)
    requires
        run.valid(),
    ensures
        !run.listening ==> polled(run, msgs) == run,
        run.listening ==> {
            let after = polled(run, msgs);
            let before = RunView {
                lines: run.lines + appended(msgs),
                emulator: fed(run.emulator, msgs),
                ..run
            };
            let all = if run.emulator is Some && has_pty(msgs) {
                absorbed(before, fed(run.emulator, msgs)->0.screen())
            } else {
                before
            };
            let cut = if all.lines.len() > 10_000 {
                all.lines.len() - 10_000
            } else {
                0
            };
            &&& after.lines == all.lines.skip(cut)
            &&& after.scrollback == (if all.scrollback > cut {
                all.scrollback - cut
            } else {
                0
            })
            &&& after.emulator == fed(run.emulator, msgs)
            &&& after.alternate == all.alternate
            &&& after.follow == run.follow
            &&& after.finished == run.finished && after.exit_code == run.exit_code
            &&& after.listening && after.awaiting == run.awaiting
            &&& after.interactive == run.interactive && after.child_pid == run.child_pid
        },
{
    let before = received(run, msgs);
    match before.emulator {
        Some(e) => {
            let all = absorbed(before, e.screen());
            lemma_absorbed_valid(before, e.screen());
            assert(all.lines.skip(0) == all.lines);
        },
        None => {},
    }
    assert(before.lines.skip(0) == before.lines);
}

/// Cutting the output down leaves in view what was in view, as long as it is still there; output
/// that is followed shows its last line.
pub proof fn law_view_stays_on_its_line(run: RunView, msgs: Seq<MsgView>)
    requires
        run.listening,
        run.emulator is None,
        run.scroll >= 0,
    ensures
        ({
            let after = polled(run, msgs);
            let cut = run.lines.len() + appended(msgs).len() - after.lines.len();
            &&& run.follow && after.lines.len() > 0 ==> after.scroll == after.lines.len() - 1
            &&& !run.follow && run.scroll >= cut ==> after.scroll == run.scroll - cut
            &&& !run.follow && run.scroll < cut ==> after.scroll == 0
            &&& !run.follow && cut <= run.scroll < run.lines.len() ==> after.lines[after.scroll]
                == run.lines[run.scroll]
        }),
{
}

/// The text of a line is what it shows, without white space at its ends.
pub proof fn law_plain_text(line: Seq<char>)
    ensures
        plain_text(line) == trimmed(stripped(line)),
{
}

/// What counts as the end of the output is its last line that shows something.
pub proof fn law_end_of_the_output(lines: Seq<Seq<char>>)
    ensures
        ({
            let end = nonblank_end(lines);
            &&& 0 <= end <= lines.len()
            &&& end > 0 ==> !blank(stripped(lines[end - 1]))
            &&& forall|i: int| end <= i < lines.len() ==> blank(stripped(#[trigger] lines[i]))
        }),
    decreases lines.len(),
{
    if lines.len() > 0 && blank(stripped(lines.last())) {
        let front = lines.drop_last();
        law_end_of_the_output(front);
        let end = nonblank_end(front);
        if end > 0 {
            assert(front[end - 1] == lines[end - 1]);
        }
        assert forall|i: int| end <= i < lines.len() implies blank(
            stripped(#[trigger] lines[i]),
        ) by {
            if i < front.len() {
                assert(front[i] == lines[i]);
            }
        }
    }
}

/// When a program takes over the alternate screen, the output up to its last line that shows
/// something is kept; when it leaves it, only the screen is shown; in between nothing scrolls off.
pub proof fn law_alternate_screen(run: RunView, screen: ScreenView)
    ensures
        ({
            let after = absorbed(run, screen);
            &&& after == (RunView {
                lines: after.lines,
                scrollback: after.scrollback,
                alternate: screen.alternate,
                ..run
            })
            &&& after.lines == run.lines.take(after.scrollback) + screen_lines(screen.cells)
            &&& screen.alternate && !run.alternate ==> after.scrollback == nonblank_end(run.lines)
            &&& screen.alternate && run.alternate ==> after.scrollback == run.scrollback
            &&& !screen.alternate && run.alternate ==> after.scrollback == 0
        }),
{
}

/// A run can take in messages unless there are bytes for an emulator that is too small or too wide.
pub proof fn law_what_can_be_taken_in(run: RunView, msgs: Seq<MsgView>)
    ensures
        !run.listening ==> can_poll(run, msgs),
        run.emulator is None ==> can_poll(run, msgs),
        !has_pty(msgs) ==> can_poll(run, msgs),
        run.emulator matches Some(e) ==> e.rows >= 2 && e.cols >= 3 && e.cols <= 65527 ==> can_poll(
            run,
            msgs,
        ),
{
}

/// Output that is followed shows its last line after messages, also where an emulator shows it.
pub proof fn law_followed_output(run: RunView, msgs: Seq<MsgView>)
    requires
        run.listening,
        run.follow,
    ensures
        ({
            let after = polled(run, msgs);
            &&& after.lines.len() > 0 ==> after.scroll == after.lines.len() - 1
            &&& after.lines.len() == 0 ==> after.scroll == 0
        }),
{
}

} // verus!
