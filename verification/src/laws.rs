//! What holds of the application as a whole, over several calls and in every state.

use std::time::Instant;

use vstd::prelude::*;

use crate::actions::{lemma_reattached_valid, lemma_started_valid};
use crate::ansi::stripped;
use crate::app::{Action, AppView, DetachedView, Mode, Panel};
use crate::moon::MsgView;
use crate::output::{
    absorbed, any_remains, appended, fed, has_pty, interactive_run, lemma_absorbed_valid,
    lemma_scrolled_off,
    lemma_shift_from, minus, moved_up, nonblank_end, piped_run, plain_text,
    plain_texts, polled, pty_bytes, received, remains, scrollback_after, shift, trimmed_rows,
    EmulatorView, RunView, MAX_OUTPUT_LINES,
};
use crate::runs::{at_end, lemma_place_of, place_of, target_of, EffectView};
use crate::terminal::{law_screen_lines, screen_lines, ScreenView};
use crate::text::{blank, lemma_trim_nonblank, trimmed};
use crate::updates::nonzero;

verus! {

// Runs.

impl AppView {
    /// The run of `target` that goes on, in the foreground or in the background.
    pub open spec fn live_run(self, target: Seq<char>) -> Option<RunView> {
        if target.len() == 0 {
            None
        } else if self.target == target && !self.run.finished {
            Some(self.run)
        } else {
            match place_of(self.background, target) {
                Some(i) => Some(self.background[i].run),
                None => None,
            }
        }
    }
}

/// Where a target stands only once, its place is found.
proof fn lemma_place_known(runs: Seq<DetachedView>, i: int)
    requires
        0 <= i < runs.len(),
        forall|a: int, b: int|
            0 <= a < b < runs.len() ==> (#[trigger] runs[a]).target != (#[trigger] runs[b]).target,
    ensures
        place_of(runs, runs[i].target) == Some(i),
{
    lemma_place_of(runs, runs[i].target);
}

proof fn lemma_live_in_background(app: AppView, i: int)
    requires
        app.valid(),
        0 <= i < app.background.len(),
        app.background[i].target.len() > 0,
    ensures
        app.live_run(app.background[i].target) == Some(app.background[i].run),
{
    lemma_place_known(app.background, i);
}

proof fn lemma_reattach_keeps(
    app: AppView,
    target: Seq<char>,
    other: Seq<char>,
    when: Instant,
)
    requires
        app.valid(),
        app.reattached(target, when) is Some,
        app.reattached(target, when)->0.valid(),
        app.live_run(other) is Some,
    ensures
        app.reattached(target, when)->0.live_run(other) == Some(
            if other == target {
                at_end(app.live_run(other)->0)
            } else {
                app.live_run(other)->0
            },
        ),
{
    let after = app.reattached(target, when)->0;
    lemma_place_of(app.background, target);
    lemma_place_of(app.background, other);
    if !(app.target == target && !app.run.finished) {
        let i = place_of(app.background, target)->0;
        let saved = app.saved().background;
        if other != target {
            if app.target == other && !app.run.finished {
                let last = saved.len() - 1;
                assert(after.background[last - 1] == saved[last]);
                lemma_live_in_background(after, last - 1);
            } else {
                let j = place_of(app.background, other)->0;
                let k = if j < i {
                    j
                } else {
                    j - 1
                };
                assert(after.background[k] == saved[j]);
                lemma_live_in_background(after, k);
            }
        }
    }
}

proof fn lemma_start_keeps(app: AppView, target: Seq<char>, run: RunView, other: Seq<char>)
    requires
        app.valid(),
        !app.is_live(target),
        app.started(target, run).valid(),
        app.live_run(other) is Some,
    ensures
        app.started(target, run).live_run(other) == app.live_run(other),
{
    let after = app.started(target, run);
    lemma_place_of(app.background, target);
    lemma_place_of(app.background, other);
    if app.target == other && !app.run.finished {
        lemma_live_in_background(after, after.background.len() - 1);
    } else {
        let j = place_of(app.background, other)->0;
        assert(after.background[j] == app.background[j]);
        lemma_live_in_background(after, j);
    }
}

proof fn lemma_runs_keep(
    app: AppView,
    project_id: Seq<char>,
    task_id: Seq<char>,
    force: bool,
    other: Seq<char>,
    when: Instant,
)
    requires
        app.valid(),
        app.live_run(other) is Some,
    ensures
        kept_live(app, app.task_run(project_id, task_id, force, when).0, other),
        kept_live(app, app.terminal_run(project_id, task_id, force, when).0, other),
{
    let target = target_of(project_id, task_id);
    lemma_reattached_valid(app, target, when);
    if app.is_live(target) {
        lemma_reattach_keeps(app, target, other, when);
    } else {
        let (rows, cols) = app.pane_size();
        lemma_started_valid(app, target, piped_run());
        lemma_started_valid(app, target, interactive_run(rows, cols));
        lemma_start_keeps(app, target, piped_run(), other);
        lemma_start_keeps(app, target, interactive_run(rows, cols), other);
    }
}

/// Whether the live run of `target` still goes on, with its output as it was; its view may have
/// gone to the end.
pub open spec fn kept_live(before: AppView, after: AppView, target: Seq<char>) -> bool {
    ||| after.live_run(target) == before.live_run(target)
    ||| after.live_run(target) == Some(at_end(before.live_run(target)->0))
}

/// No action loses a run that goes on: it stays in the foreground or in the background, with its
/// output, its channels, its emulator and its process.
pub proof fn law_no_run_is_lost(app: AppView, action: Action, when: Instant, target: Seq<char>)
    requires
        app.valid(),
        app.live_run(target) is Some,
    ensures
        kept_live(app, app.step(action, when).0, target),
{
    if let (Some(p), Some(t)) = (app.selected_project(), app.selected_task()) {
        lemma_runs_keep(app, p.id, t.id, false, target, when);
        lemma_runs_keep(app, p.id, t.id, true, target, when);
    }
    if let Some(p) = app.selected_project() {
        lemma_runs_keep(app, p.id, "ci"@, false, target, when);
        lemma_runs_keep(app, p.id, "ci"@, true, target, when);
    }
}

/// Asking to run a task that is running starts nothing: its run is shown instead, as it is, with
/// the end of its output in view.
pub proof fn law_running_task_is_not_started_again(
    app: AppView,
    project_id: Seq<char>,
    task_id: Seq<char>,
    force: bool,
    when: Instant,
)
    requires
        app.valid(),
        app.live_run(target_of(project_id, task_id)) is Some,
    ensures
        app.task_run(project_id, task_id, force, when).1 is Drain,
        app.terminal_run(project_id, task_id, force, when).1 is Drain,
        app.task_run(project_id, task_id, force, when).0 == app.terminal_run(
            project_id,
            task_id,
            force,
            when,
        ).0,
        ({
            let after = app.task_run(project_id, task_id, force, when).0;
            &&& after.target == target_of(project_id, task_id)
            &&& after.run == at_end(app.live_run(target_of(project_id, task_id))->0)
            &&& after.mode == Mode::Output
        }),
{
    lemma_place_of(app.background, target_of(project_id, task_id));
}

/// Asking to run a task that is not running starts it, as a new run with no output, in view.
pub proof fn law_other_task_is_started(
    app: AppView,
    project_id: Seq<char>,
    task_id: Seq<char>,
    force: bool,
    when: Instant,
)
    requires
        app.valid(),
        app.live_run(target_of(project_id, task_id)) is None,
    ensures
        app.task_run(project_id, task_id, force, when).1 == (EffectView::Run {
            project_id,
            task_id,
            force,
        }),
        app.task_run(project_id, task_id, force, when).0.live_run(target_of(project_id, task_id))
            == Some(piped_run()),
        app.task_run(project_id, task_id, force, when).0.mode == Mode::Output,
{
    assert(target_of(project_id, task_id).len() > 0);
}

/// Going away from a running task and back restores it: when another task is shown in between,
/// asking for the first again gives its run as it was, with the end of its output in view.
pub proof fn law_detached_run_comes_back(
    app: AppView,
    project_id: Seq<char>,
    task_id: Seq<char>,
    other_project: Seq<char>,
    other_task: Seq<char>,
    force: bool,
    when: Instant,
    later: Instant,
)
    requires
        app.valid(),
        app.target == target_of(project_id, task_id),
        !app.run.finished,
        target_of(project_id, task_id) != target_of(other_project, other_task),
    ensures
        ({
            let away = app.task_run(other_project, other_task, force, when).0;
            let back = away.task_run(project_id, task_id, force, later);
            &&& back.1 is Drain
            &&& back.0.target == app.target
            &&& back.0.run == at_end(app.run)
            &&& back.0.live_run(target_of(other_project, other_task)) == Some(away.run)
        }),
{
    let target = target_of(project_id, task_id);
    let other = target_of(other_project, other_task);
    let away = app.task_run(other_project, other_task, force, when).0;
    assert(target.len() > 0);
    assert(other.len() > 0);
    lemma_reattached_valid(app, other, when);
    lemma_place_of(app.background, other);
    if app.is_live(other) {
        lemma_reattach_keeps(app, other, target, when);
    } else {
        lemma_started_valid(app, other, piped_run());
        lemma_start_keeps(app, other, piped_run(), target);
    }
    assert(away.valid());
    assert(away.live_run(target) == Some(app.run));
    law_running_task_is_not_started_again(away, project_id, task_id, force, later);
    lemma_reattached_valid(away, target, later);
    lemma_reattach_keeps(away, target, other, later);
}

/// Switching between tasks loses no output and stops no task. When a task that goes on is left for
/// another one, and asked for again whatever has become of that one's run in the meantime, its run
/// is back as it was: its lines, then those that it has sent since, its channels and its process.
/// And the other, if it goes on, can be asked for again in the same way.
pub proof fn law_switching_loses_nothing(
    app: AppView,
    project_id: Seq<char>,
    task_id: Seq<char>,
    other_project: Seq<char>,
    other_task: Seq<char>,
    force: bool,
    other_run: RunView,
    msgs: Seq<MsgView>,
    left: Instant,
    back: Instant,
    again: Instant,
)
    requires
        app.valid(),
        app.target == target_of(project_id, task_id),
        !app.run.finished,
        app.run.listening,
        app.run.emulator is None,
        app.run.lines.len() + appended(msgs).len() <= MAX_OUTPUT_LINES,
        target_of(project_id, task_id) != target_of(other_project, other_task),
        !app.is_live(target_of(other_project, other_task)),
        other_run.valid(),
        other_run.lines.len() <= MAX_OUTPUT_LINES,
    ensures
        ({
            let target = target_of(project_id, task_id);
            let other = target_of(other_project, other_task);
            let (away, effect) = app.task_run(other_project, other_task, force, left);
            let shown = AppView { run: other_run, ..away };
            let returned = shown.reattached(target, back);
            let drained = AppView {
                run: polled(returned->0.run, msgs),
                ..returned->0
            };
            &&& effect is Run
            &&& away.target == other
            &&& returned is Some
            &&& returned->0.target == target
            &&& returned->0.run == at_end(app.run)
            &&& drained.run.lines == app.run.lines + appended(msgs)
            &&& drained.run.listening == app.run.listening
            &&& drained.run.awaiting == app.run.awaiting
            &&& drained.run.child_pid == app.run.child_pid
            &&& !drained.run.finished
            &&& !other_run.finished ==> {
                let switched = drained.reattached(other, again);
                &&& switched is Some
                &&& switched->0.target == other
                &&& switched->0.run == at_end(other_run)
                &&& switched->0.live_run(target) == Some(drained.run)
            }
        }),
{
    let target = target_of(project_id, task_id);
    let other = target_of(other_project, other_task);
    assert(target.len() > 0 && other.len() > 0);
    let away = app.task_run(other_project, other_task, force, left).0;
    lemma_started_valid(app, other, piped_run());
    assert(away.valid());
    let shown = AppView { run: other_run, ..away };
    assert(shown.valid()) by {
        assert forall|i: int| 0 <= i < shown.background.len() implies {
            &&& (#[trigger] shown.background[i]).run.valid()
            &&& shown.background[i].run.lines.len() <= MAX_OUTPUT_LINES
            &&& !shown.background[i].run.finished
            &&& shown.background[i].target != shown.target
        } by {
            assert(away.background[i] == shown.background[i]);
        }
    }
    lemma_live_in_background(shown, shown.background.len() - 1);
    lemma_place_known(shown.background, shown.background.len() - 1);
    lemma_reattached_valid(shown, target, back);
    let returned = shown.reattached(target, back)->0;
    let run = at_end(app.run);
    assert(returned.run == run);
    law_last_lines_are_kept(run, msgs);
    let drained = AppView { run: polled(run, msgs), ..returned };
    if !other_run.finished {
        lemma_reattach_keeps(shown, target, other, back);
        assert(returned.live_run(other) == Some(other_run));
        lemma_place_of(returned.background, other);
        assert(drained.valid()) by {
            assert forall|i: int| 0 <= i < drained.background.len() implies {
                &&& (#[trigger] drained.background[i]).run.valid()
                &&& drained.background[i].run.lines.len() <= MAX_OUTPUT_LINES
                &&& !drained.background[i].run.finished
                &&& drained.background[i].target != drained.target
            } by {
                assert(returned.background[i] == drained.background[i]);
            }
        }
        assert(drained.live_run(other) == Some(other_run));
        assert(drained.live_run(target) == Some(drained.run));
        lemma_reattached_valid(drained, other, again);
        lemma_reattach_keeps(drained, other, target, again);
        lemma_reattach_keeps(drained, other, other, again);
    }
}

/// Pending output may be taken in after the end of the output was brought into view: the run is
/// the same as when it is taken in before.
pub proof fn law_attach_then_drain(run: RunView, msgs: Seq<MsgView>)
    ensures
        polled(at_end(run), msgs) == at_end(polled(run, msgs)),
{
    let taken = received(run, msgs);
    let ended = received(at_end(run), msgs);
    assert(ended == RunView { follow: true, scroll: ended.scroll, ..taken });
    match taken.emulator {
        Some(e) => {
            let a = absorbed(taken, e.screen());
            let b = absorbed(ended, e.screen());
            assert(b == RunView { follow: true, scroll: b.scroll, ..a });
        },
        None => {},
    }
}

// Output.

/// Output that comes in two batches gives the same as when it comes in one, for a run whose
/// output is piped.
pub proof fn law_output_in_batches(run: RunView, first: Seq<MsgView>, second: Seq<MsgView>)
    requires
        run.valid(),
        run.emulator is None,
    ensures
        polled(polled(run, first), second) == polled(run, first + second),
{
    lemma_appended_concat(first, second);
    let all = run.lines + appended(first) + appended(second);
    assert(run.lines + appended(first + second) == all);
    let once = polled(run, first);
    let twice = polled(once, second);
    if run.listening {
        let a = run.lines + appended(first);
        if a.len() > MAX_OUTPUT_LINES {
            let d = a.len() - MAX_OUTPUT_LINES;
            assert(a.skip(d) + appended(second) == all.skip(d));
            if all.len() - d > MAX_OUTPUT_LINES {
                assert(all.skip(d).skip(all.len() - d - MAX_OUTPUT_LINES) == all.skip(
                    all.len() - MAX_OUTPUT_LINES,
                ));
            }
        }
        assert(twice.lines == polled(run, first + second).lines);
    }
}

proof fn lemma_appended_concat(first: Seq<MsgView>, second: Seq<MsgView>)
    ensures
        appended(first + second) == appended(first) + appended(second),
        pty_bytes(first + second) == pty_bytes(first) + pty_bytes(second),
    decreases second.len(),
{
    let all = first + second;
    if second.len() == 0 {
        assert(all == first);
        assert(appended(first) + Seq::<Seq<char>>::empty() == appended(first));
        assert(pty_bytes(first) + Seq::<u8>::empty() == pty_bytes(first));
    } else {
        assert(all.drop_last() == first + second.drop_last());
        assert(all.last() == second.last());
        lemma_appended_concat(first, second.drop_last());
        assert(appended(all) == appended(first) + appended(second));
        assert(pty_bytes(all) == pty_bytes(first) + pty_bytes(second));
    }
}

/// The emulator takes in bytes in batches as it takes them in at once.
pub proof fn law_bytes_in_batches(
    emulator: Option<EmulatorView>,
    first: Seq<MsgView>,
    second: Seq<MsgView>,
)
    ensures
        fed(fed(emulator, first), second) == fed(emulator, first + second),
{
    lemma_appended_concat(first, second);
    if let Some(e) = emulator {
        assert(e.input + pty_bytes(first) + pty_bytes(second) == e.input + (pty_bytes(first)
            + pty_bytes(second)));
    }
}

/// Of piped output the last lines are kept, in their order, and never more than there is room for.
pub proof fn law_last_lines_are_kept(run: RunView, msgs: Seq<MsgView>)
    requires
        run.listening,
        run.emulator is None,
    ensures
        polled(run, msgs).lines.len() <= MAX_OUTPUT_LINES,
        ({
            let all = run.lines + appended(msgs);
            polled(run, msgs).lines == all.skip(all.len() - polled(run, msgs).lines.len())
        }),
        (run.lines + appended(msgs)).len() <= MAX_OUTPUT_LINES ==> polled(run, msgs).lines
            == run.lines + appended(msgs),
{
    let all = run.lines + appended(msgs);
    assert(all.skip(0) == all);
}

/// A run that is followed shows its last line.
pub proof fn law_follow_stays_at_the_end(run: RunView, msgs: Seq<MsgView>)
    requires
        run.listening,
        run.follow,
    ensures
        polled(run, msgs).follow,
        polled(run, msgs).scroll == minus(polled(run, msgs).lines.len() as int, 1),
{
}

/// A run that is not listened to any more takes in nothing.
pub proof fn law_closed_run_is_unchanged(run: RunView, msgs: Seq<MsgView>)
    requires
        !run.listening,
    ensures
        polled(run, msgs) == run,
{
}

proof fn lemma_after_last_shown(lines: Seq<Seq<char>>)
    ensures
        0 <= nonblank_end(lines) <= lines.len(),
        nonblank_end(lines) > 0 ==> !blank(stripped(lines[nonblank_end(lines) - 1])),
        forall|i: int|
            nonblank_end(lines) <= i < lines.len() ==> blank(stripped(#[trigger] lines[i])),
    decreases lines.len(),
{
    if lines.len() > 0 && blank(stripped(lines.last())) {
        let front = lines.drop_last();
        lemma_after_last_shown(front);
        assert forall|i: int| nonblank_end(lines) <= i < lines.len() implies blank(
            stripped(#[trigger] lines[i]),
        ) by {
            if i < front.len() {
                assert(front[i] == lines[i]);
            }
        }
        if nonblank_end(front) > 0 {
            assert(front[nonblank_end(front) - 1] == lines[nonblank_end(front) - 1]);
        }
    }
}

/// When a program takes over the alternate screen, the output before it stays, apart from lines
/// at its end that show nothing.
pub proof fn law_takeover_keeps_output(run: RunView, screen: ScreenView)
    requires
        screen.alternate,
        !run.alternate,
    ensures
        ({
            let kept = scrollback_after(run, screen);
            &&& 0 <= kept <= run.lines.len()
            &&& absorbed(run, screen).lines == run.lines.take(kept) + screen_lines(screen.cells)
            &&& absorbed(run, screen).scrollback == kept
            &&& forall|i: int|
                kept <= i < run.lines.len() ==> blank(stripped(#[trigger] run.lines[i]))
        }),
{
    lemma_after_last_shown(run.lines);
    assert(run.lines.take(run.lines.len() as int) == run.lines);
}

/// While a program has the alternate screen, what has scrolled off before stays as it is.
pub proof fn law_alternate_screen_keeps_scrollback(run: RunView, screen: ScreenView)
    requires
        run.valid(),
        screen.alternate,
        run.alternate,
    ensures
        absorbed(run, screen).scrollback == run.scrollback,
        absorbed(run, screen).lines == run.lines.take(run.scrollback) + screen_lines(screen.cells),
{
    assert(run.lines.take(run.lines.len() as int) == run.lines);
}

/// When a program leaves the alternate screen, the output is what the screen shows.
pub proof fn law_leaving_shows_the_screen(run: RunView, screen: ScreenView)
    requires
        !screen.alternate,
        run.alternate,
    ensures
        absorbed(run, screen).scrollback == 0,
        absorbed(run, screen).lines == screen_lines(screen.cells),
{
    assert(run.lines.take(0) + screen_lines(screen.cells) == screen_lines(screen.cells));
}

/// Outside of the alternate screen nothing that has scrolled off is lost, and more of the output
/// can only be added to it.
pub proof fn law_scrollback_grows(run: RunView, screen: ScreenView)
    requires
        run.valid(),
        !screen.alternate,
        !run.alternate,
    ensures
        ({
            let kept = absorbed(run, screen).scrollback;
            &&& run.scrollback <= kept <= run.lines.len()
            &&& absorbed(run, screen).lines == run.lines.take(kept) + screen_lines(screen.cells)
        }),
{
    lemma_scrolled_off(run.lines.skip(run.scrollback), screen);
}

/// The texts of the part of the output that the screen showed.
pub open spec fn texts_before(run: RunView) -> Seq<Seq<char>> {
    plain_texts(run.lines.skip(run.scrollback))
}

/// The texts of the rows of a screen.
pub open spec fn texts_now(screen: ScreenView) -> Seq<Seq<char>> {
    trimmed_rows(screen.row_texts())
}

/// Lines that scroll off the screen are preserved. When the first row has changed and what the
/// screen showed has moved up by `k` rows, and by no fewer, its first `k` lines stay in the output
/// as they were, and every other line that shows something stands at the same place in the output
/// as before: nothing is lost and nothing is there twice.
pub proof fn law_scrolled_lines_are_preserved(run: RunView, screen: ScreenView, k: int)
    requires
        run.valid(),
        screen.valid(),
        !screen.alternate,
        !run.alternate,
        texts_before(run)[0] != texts_now(screen)[0],
        moved_up(texts_before(run), texts_now(screen), k),
        forall|fewer: int|
            0 <= fewer < k ==> !#[trigger] moved_up(texts_before(run), texts_now(screen), fewer),
    ensures
        ({
            let after = absorbed(run, screen);
            &&& after.scrollback == run.scrollback + k
            &&& after.lines.take(run.scrollback + k) == run.lines.take(run.scrollback + k)
            &&& forall|i: int|
                0 <= i < run.lines.len() && plain_text(#[trigger] run.lines[i]).len() > 0 ==> i
                    < after.lines.len() && plain_text(after.lines[i]) == plain_text(run.lines[i])
        }),
{
    let before = texts_before(run);
    let now = texts_now(screen);
    assert(before.take(before.len() as int) == before);
    lemma_moved_lines(run, screen, k, before.len() as int);
    lemma_shift_from(before, now, 0);
    lemma_absorbed_lines(run, screen, k, before.len() as int);
}

/// The same holds when the last line that the screen showed was incomplete and has changed while
/// it moved up: every line before it is preserved.
pub proof fn law_incomplete_line_may_change(run: RunView, screen: ScreenView, k: int)
    requires
        run.valid(),
        screen.valid(),
        !screen.alternate,
        !run.alternate,
        run.scrollback < run.lines.len(),
        texts_before(run)[0] != texts_now(screen)[0],
        forall|any: int| !#[trigger] moved_up(texts_before(run), texts_now(screen), any),
        moved_up(texts_before(run).drop_last(), texts_now(screen), k),
        forall|fewer: int|
            0 <= fewer < k ==> !#[trigger] moved_up(
                texts_before(run).drop_last(),
                texts_now(screen),
                fewer,
            ),
    ensures
        ({
            let after = absorbed(run, screen);
            &&& after.scrollback == run.scrollback + k
            &&& after.lines.take(run.scrollback + k) == run.lines.take(run.scrollback + k)
            &&& forall|i: int|
                0 <= i < run.lines.len() - 1 && plain_text(#[trigger] run.lines[i]).len() > 0
                    ==> i < after.lines.len() && plain_text(after.lines[i]) == plain_text(
                    run.lines[i],
                )
        }),
{
    let before = texts_before(run);
    let now = texts_now(screen);
    assert(before.take(before.len() - 1) == before.drop_last());
    lemma_moved_lines(run, screen, k, before.len() - 1);
    lemma_shift_from(before, now, 0);
    lemma_shift_from(before.drop_last(), now, 0);
    lemma_absorbed_lines(run, screen, k, before.len() - 1);
}

/// Lines that have moved up stand on the screen.
proof fn lemma_moved_lines(run: RunView, screen: ScreenView, k: int, n: int)
    requires
        run.valid(),
        screen.valid(),
        0 <= n <= texts_before(run).len(),
        moved_up(texts_before(run).take(n), texts_now(screen), k),
    ensures
        screen_lines(screen.cells).len() > 0,
        forall|i: int|
            run.scrollback + k <= i < run.scrollback + n && plain_text(
                #[trigger] run.lines[i],
            ).len() > 0 ==> stands_at(screen, i - run.scrollback - k, plain_text(run.lines[i])),
{
    let before = texts_before(run).take(n);
    let now = texts_now(screen);
    law_screen_lines(screen);
    assert forall|i: int|
        run.scrollback + k <= i < run.scrollback + n && plain_text(
            #[trigger] run.lines[i],
        ).len() > 0 implies stands_at(
        screen,
        i - run.scrollback - k,
        plain_text(run.lines[i]),
    ) by {
        let r = i - run.scrollback - k;
        assert(before.skip(k)[r] == plain_text(run.lines[i]));
        assert(now.take(n - k)[r] == trimmed(screen.row_texts()[r]));
        lemma_trim_nonblank(screen.row_texts()[r]);
    }
    let j = choose|j: int|
        0 <= j < before.skip(k).len() && (#[trigger] before.skip(k)[j]).len() > 0;
    assert(before.skip(k)[j] == plain_text(run.lines[run.scrollback + k + j]));
}

/// Whether the line of the screen in that row has that text.
spec fn stands_at(screen: ScreenView, row: int, text: Seq<char>) -> bool {
    row < screen_lines(screen.cells).len() && plain_text(screen_lines(screen.cells)[row]) == text
}

/// Lines that stand on the screen where they moved to are at their place in the output.
proof fn lemma_absorbed_lines(run: RunView, screen: ScreenView, k: int, n: int)
    requires
        run.valid(),
        0 <= k <= n <= texts_before(run).len(),
        scrollback_after(run, screen) == run.scrollback + k,
        forall|i: int|
            run.scrollback + k <= i < run.scrollback + n && plain_text(
                #[trigger] run.lines[i],
            ).len() > 0 ==> stands_at(screen, i - run.scrollback - k, plain_text(run.lines[i])),
    ensures
        absorbed(run, screen).lines.take(run.scrollback + k) == run.lines.take(run.scrollback + k),
        forall|i: int|
            0 <= i < run.scrollback + n && plain_text(#[trigger] run.lines[i]).len() > 0 ==> i
                < absorbed(run, screen).lines.len() && plain_text(absorbed(run, screen).lines[i])
                == plain_text(run.lines[i]),
{
    let after = absorbed(run, screen);
    assert forall|i: int|
        0 <= i < run.scrollback + n && plain_text(#[trigger] run.lines[i]).len() > 0 implies i
        < after.lines.len() && plain_text(after.lines[i]) == plain_text(run.lines[i]) by {
        if i < run.scrollback + k {
            assert(after.lines[i] == run.lines[i]);
        } else {
            assert(stands_at(screen, i - run.scrollback - k, plain_text(run.lines[i])));
        }
    }
}

/// When the screen is cleared and nothing of what it showed is left on it, all of the output
/// before stays, if its first line showed something.
pub proof fn law_cleared_screen_is_kept(run: RunView, screen: ScreenView)
    requires
        run.valid(),
        !screen.alternate,
        !run.alternate,
        run.scrollback < run.lines.len(),
        screen_lines(screen.cells).len() > 0,
        texts_before(run)[0].len() > 0,
        texts_before(run)[0] != texts_now(screen)[0],
        !any_remains(texts_before(run), texts_now(screen)),
    ensures
        absorbed(run, screen).lines == run.lines + screen_lines(screen.cells),
        absorbed(run, screen).scrollback == run.lines.len(),
{
    let before = texts_before(run);
    let now = texts_now(screen);
    let front = before.drop_last();
    lemma_shift_from(before, now, 0);
    lemma_shift_from(front, now, 0);
    if shift(before, now) is Some {
        lemma_moved_text_remains(before, now, shift(before, now)->0);
    }
    if shift(front, now) is Some {
        lemma_moved_text_remains(front, now, shift(front, now)->0);
        let i = choose|i: int| 0 <= i < front.len() && remains(#[trigger] front[i], now);
        assert(before[i] == front[i]);
    }
    assert(run.lines.take(run.lines.len() as int) == run.lines);
}

/// When texts have moved up, one of them still stands on the screen.
proof fn lemma_moved_text_remains(before: Seq<Seq<char>>, now: Seq<Seq<char>>, k: int)
    requires
        moved_up(before, now, k),
    ensures
        any_remains(before, now),
{
    let moved = before.skip(k);
    let j = choose|j: int| 0 <= j < moved.len() && (#[trigger] moved[j]).len() > 0;
    assert(moved[j] == before[k + j]);
    assert(now.take(before.len() - k)[j] == now[j]);
    assert(remains(before[k + j], now));
}

/// The first line of the screen is preserved when it has left the screen, if it showed something.
pub proof fn law_gone_top_line_is_kept(run: RunView, screen: ScreenView)
    requires
        run.valid(),
        !screen.alternate,
        !run.alternate,
        run.scrollback < run.lines.len(),
        screen_lines(screen.cells).len() > 0,
        texts_before(run)[0].len() > 0,
        texts_before(run)[0] != texts_now(screen)[0],
        !remains(texts_before(run)[0], texts_now(screen)),
    ensures
        run.scrollback < absorbed(run, screen).scrollback,
        absorbed(run, screen).lines[run.scrollback] == run.lines[run.scrollback],
{
    let before = texts_before(run);
    let now = texts_now(screen);
    let front = before.drop_last();
    lemma_scrolled_off(run.lines.skip(run.scrollback), screen);
    lemma_shift_from(before, now, 0);
    lemma_shift_from(front, now, 0);
    if moved_up(before, now, 0) {
        assert(before.skip(0)[0] == before[0]);
        assert(now.take(before.len() as int)[0] == now[0]);
    }
    if moved_up(front, now, 0) {
        assert(front.skip(0)[0] == before[0]);
        assert(now.take(front.len() as int)[0] == now[0]);
    }
}

/// While the first row of the screen is as it was nothing scrolls off: the screen was redrawn in
/// place, and the screen part of the output is replaced.
pub proof fn law_screen_is_replaced_in_place(run: RunView, screen: ScreenView)
    requires
        run.valid(),
        !screen.alternate,
        !run.alternate,
        run.scrollback < run.lines.len(),
        texts_before(run)[0] == texts_now(screen)[0],
    ensures
        absorbed(run, screen).scrollback == run.scrollback,
        absorbed(run, screen).lines == run.lines.take(run.scrollback) + screen_lines(screen.cells),
{
}

/// When nothing has moved up and the first row showed nothing, or has only moved down, nothing
/// scrolls off: the screen part of the output is replaced.
pub proof fn law_screen_is_replaced_below_the_top(run: RunView, screen: ScreenView)
    requires
        run.valid(),
        !screen.alternate,
        !run.alternate,
        run.scrollback < run.lines.len(),
        texts_before(run)[0].len() == 0 || remains(texts_before(run)[0], texts_now(screen)),
        forall|k: int| !#[trigger] moved_up(texts_before(run), texts_now(screen), k),
        forall|k: int| !#[trigger] moved_up(texts_before(run).drop_last(), texts_now(screen), k),
    ensures
        absorbed(run, screen).scrollback == run.scrollback,
        absorbed(run, screen).lines == run.lines.take(run.scrollback) + screen_lines(screen.cells),
{
    lemma_shift_from(texts_before(run), texts_now(screen), 0);
    lemma_shift_from(texts_before(run).drop_last(), texts_now(screen), 0);
}

/// While others are left on the screen only its first line counts as gone: when that line showed
/// something and has left the screen, nothing has moved up, and another text of the old screen
/// still stands on it, the output grows by that one line.
pub proof fn law_only_the_top_line_is_gone(run: RunView, screen: ScreenView)
    requires
        run.valid(),
        !screen.alternate,
        !run.alternate,
        run.scrollback < run.lines.len(),
        screen_lines(screen.cells).len() > 0,
        texts_before(run)[0].len() > 0,
        texts_before(run)[0] != texts_now(screen)[0],
        !remains(texts_before(run)[0], texts_now(screen)),
        any_remains(texts_before(run), texts_now(screen)),
        forall|k: int| !#[trigger] moved_up(texts_before(run), texts_now(screen), k),
        forall|k: int| !#[trigger] moved_up(texts_before(run).drop_last(), texts_now(screen), k),
    ensures
        absorbed(run, screen).scrollback == run.scrollback + 1,
        absorbed(run, screen).lines == run.lines.take(run.scrollback + 1) + screen_lines(
            screen.cells,
        ),
{
    lemma_shift_from(texts_before(run), texts_now(screen), 0);
    lemma_shift_from(texts_before(run).drop_last(), texts_now(screen), 0);
}

/// The text of the line that stood in row `r` of the screen when it was last looked at.
pub open spec fn text_was(run: RunView, r: int) -> Seq<char> {
    trimmed(stripped(run.lines[run.scrollback + r]))
}

/// The text that stands in row `r` of the screen now.
pub open spec fn text_is(screen: ScreenView, r: int) -> Seq<char> {
    trimmed(screen.row_texts()[r])
}

/// How many lines of the output showed the screen when it was last looked at.
pub open spec fn rows_were(run: RunView) -> int {
    run.lines.len() - run.scrollback
}

/// Whether the text that stood in row `r` shows something and still stands on the screen.
pub open spec fn still_there(run: RunView, screen: ScreenView, r: int) -> bool {
    text_was(run, r).len() > 0 && exists|i: int|
        0 <= i < screen.cells.len() && #[trigger] text_is(screen, i) == text_was(run, r)
}

proof fn lemma_texts(run: RunView, screen: ScreenView)
    requires
        run.valid(),
    ensures
        texts_before(run).len() == rows_were(run),
        texts_now(screen).len() == screen.cells.len(),
        forall|r: int| 0 <= r < rows_were(run) ==> #[trigger] texts_before(run)[r] == text_was(run, r),
        forall|r: int|
            0 <= r < screen.cells.len() ==> #[trigger] texts_now(screen)[r] == text_is(screen, r),
        forall|r: int|
            0 <= r < rows_were(run) ==> (remains(#[trigger] texts_before(run)[r], texts_now(screen))
                <==> still_there(run, screen, r)),
{
    let before = texts_before(run);
    let now = texts_now(screen);
    assert forall|r: int| 0 <= r < rows_were(run) implies (remains(#[trigger] before[r], now)
        <==> still_there(run, screen, r)) by {
        assert(before[r] == text_was(run, r));
        if remains(before[r], now) {
            let i = choose|i: int| 0 <= i < now.len() && now[i] == before[r];
            assert(text_is(screen, i) == text_was(run, r));
        }
        if still_there(run, screen, r) {
            let i = choose|i: int|
                0 <= i < screen.cells.len() && #[trigger] text_is(screen, i) == text_was(run, r);
            assert(now[i] == before[r]);
        }
    }
}

/// When every line has gone up by `k` rows, as far as it is still on the screen, and the first row
/// shows none of the lines above it, just `k` lines have scrolled off.
pub proof fn law_lines_go_up(run: RunView, screen: ScreenView, k: int)
    requires
        run.valid(),
        screen.valid(),
        !screen.alternate,
        !run.alternate,
        0 < k < rows_were(run),
        rows_were(run) - k <= screen.cells.len(),
        text_is(screen, 0).len() > 0,
        forall|r: int|
            0 <= r < rows_were(run) - k ==> #[trigger] text_is(screen, r) == text_was(run, r + k),
        forall|r: int| 0 <= r < k ==> #[trigger] text_was(run, r) != text_is(screen, 0),
    ensures
        absorbed(run, screen).scrollback == run.scrollback + k,
        absorbed(run, screen).lines == run.lines.take(run.scrollback + k) + screen_lines(
            screen.cells,
        ),
{
    let before = texts_before(run);
    let now = texts_now(screen);
    lemma_texts(run, screen);
    assert(before.skip(k) =~= now.take(before.len() - k)) by {
        assert forall|r: int| 0 <= r < before.len() - k implies before.skip(k)[r] == now.take(
            before.len() - k,
        )[r] by {
            assert(text_is(screen, r) == text_was(run, r + k));
            assert(now[r] == text_is(screen, r));
            assert(before[r + k] == text_was(run, r + k));
        }
    }
    assert(text_is(screen, 0) == text_was(run, 0 + k));
    assert(before.skip(k)[0] == before[k]);
    assert(before[k] == text_was(run, k));
    assert(before.skip(k)[0].len() > 0);
    assert(moved_up(before, now, k));
    assert(before[0] == text_was(run, 0) && now[0] == text_is(screen, 0));
    assert forall|fewer: int| 0 <= fewer < k implies !#[trigger] moved_up(before, now, fewer) by {
        if moved_up(before, now, fewer) {
            assert(before.skip(fewer)[0] == before[fewer]);
            assert(now.take(before.len() - fewer)[0] == now[0]);
            assert(before[fewer] == text_was(run, fewer));
        }
    }
    law_scrolled_lines_are_preserved(run, screen, k);
    law_scrollback_grows(run, screen);
}

/// When the first row shows a text that none of the lines had, nothing has gone up. Then nothing
/// scrolls off if the first line showed nothing or is still there; just the first line does if it
/// is gone and another is still there; and all of them do if none is.
pub proof fn law_new_text_in_the_first_row(run: RunView, screen: ScreenView)
    requires
        run.valid(),
        screen.valid(),
        !screen.alternate,
        !run.alternate,
        0 < rows_were(run),
        screen_lines(screen.cells).len() > 0,
        forall|r: int| 0 <= r < rows_were(run) ==> #[trigger] text_was(run, r) != text_is(screen, 0),
    ensures
        ({
            let first = text_was(run, 0);
            let gone = first.len() > 0 && !still_there(run, screen, 0);
            let others = exists|r: int| 0 < r < rows_were(run) && still_there(run, screen, r);
            let after = absorbed(run, screen);
            &&& !gone ==> after.scrollback == run.scrollback
            &&& gone && others ==> after.scrollback == run.scrollback + 1
            &&& gone && !others ==> after.scrollback == run.lines.len()
            &&& after.lines == run.lines.take(after.scrollback) + screen_lines(screen.cells)
        }),
{
    let before = texts_before(run);
    let now = texts_now(screen);
    let front = before.drop_last();
    lemma_texts(run, screen);
    law_screen_lines(screen);
    assert(now[0] == text_is(screen, 0));
    assert forall|k: int| !#[trigger] moved_up(before, now, k) by {
        if moved_up(before, now, k) {
            assert(before.skip(k)[0] == before[k]);
            assert(now.take(before.len() - k)[0] == now[0]);
            assert(before[k] == text_was(run, k));
        }
    }
    assert forall|k: int| !#[trigger] moved_up(front, now, k) by {
        if moved_up(front, now, k) {
            assert(front.skip(k)[0] == before[k]);
            assert(now.take(front.len() - k)[0] == now[0]);
            assert(before[k] == text_was(run, k));
        }
    }
    lemma_shift_from(before, now, 0);
    lemma_shift_from(front, now, 0);
    assert(before[0] == text_was(run, 0));
    if any_remains(before, now) && !still_there(run, screen, 0) {
        let i = choose|i: int| 0 <= i < before.len() && remains(#[trigger] before[i], now);
        assert(still_there(run, screen, i));
    }
    if exists|r: int| 0 < r < rows_were(run) && still_there(run, screen, r) {
        let r = choose|r: int| 0 < r < rows_were(run) && still_there(run, screen, r);
        assert(remains(before[r], now));
    }
}

/// While the first row shows what it showed, nothing scrolls off.
pub proof fn law_unchanged_first_row(run: RunView, screen: ScreenView)
    requires
        run.valid(),
        !screen.alternate,
        !run.alternate,
        0 < rows_were(run),
        0 < screen.cells.len(),
        text_is(screen, 0) == text_was(run, 0),
    ensures
        absorbed(run, screen).scrollback == run.scrollback,
        absorbed(run, screen).lines == run.lines.take(run.scrollback) + screen_lines(screen.cells),
{
    lemma_texts(run, screen);
    assert(texts_before(run)[0] == text_was(run, 0));
    assert(texts_now(screen)[0] == text_is(screen, 0));
}

/// When nothing is on the screen, or there was nothing of it in the output, nothing scrolls off.
pub proof fn law_empty_screen(run: RunView, screen: ScreenView)
    requires
        run.valid(),
        !screen.alternate,
        !run.alternate,
        rows_were(run) == 0 || screen_lines(screen.cells).len() == 0,
    ensures
        absorbed(run, screen).scrollback == run.scrollback,
{
}

/// Whether the run of `target` that goes on is shown: nothing is started, the end of its output is
/// in view, and the status says so.
pub open spec fn is_shown_instead(
    app: AppView,
    result: (AppView, EffectView),
    target: Seq<char>,
    when: Instant,
) -> bool {
    &&& result.1 is Drain
    &&& result.0.target == target
    &&& result.0.mode == Mode::Output
    &&& result.0.status == Some(("Re-attached to "@ + target, when))
    &&& app.live_run(target) matches Some(run) && result.0.run == (RunView {
        follow: true,
        scroll: if run.lines.len() > 0 {
            run.lines.len() - 1
        } else {
            0
        },
        ..run
    })
    &&& result.0 == (AppView {
        target: result.0.target,
        run: result.0.run,
        mode: result.0.mode,
        status: result.0.status,
        background: result.0.background,
        ..app
    })
}

proof fn lemma_shown_instead(
    app: AppView,
    project_id: Seq<char>,
    task_id: Seq<char>,
    force: bool,
    when: Instant,
)
    requires
        app.valid(),
        app.is_live(target_of(project_id, task_id)),
    ensures
        ({
            let target = target_of(project_id, task_id);
            let piped = app.task_run(project_id, task_id, force, when);
            let interactive = app.terminal_run(project_id, task_id, force, when);
            &&& is_shown_instead(app, piped, target, when)
            &&& is_shown_instead(app, interactive, target, when)
        }),
{
    let target = target_of(project_id, task_id);
    assert(target.len() > 0);
    lemma_place_of(app.background, target);
    law_running_task_is_not_started_again(app, project_id, task_id, force, when);
}

/// Whatever action asks to run a task that is running, its run is shown instead.
pub proof fn law_running_tasks_are_shown(app: AppView, when: Instant)
    requires
        app.valid(),
    ensures
        app.selected_project() matches Some(p) ==> {
            let target = p.id + seq![':'] + "ci"@;
            app.is_live(target) ==> {
                &&& is_shown_instead(app, app.step(Action::RunAll, when), target, when)
                &&& app.panel == Panel::Projects ==> is_shown_instead(
                    app,
                    app.step(Action::ForceRun, when),
                    target,
                    when,
                )
            }
        },
        app.selected_project() is Some && app.selected_task() is Some && app.panel == Panel::Tasks
            ==> {
            let target = app.selected_project()->0.id + seq![':'] + app.selected_task()->0.id;
            app.is_live(target) ==> {
                &&& is_shown_instead(app, app.step(Action::Enter, when), target, when)
                &&& is_shown_instead(app, app.step(Action::ForceRun, when), target, when)
                &&& is_shown_instead(app, app.step(Action::InteractiveRun, when), target, when)
            }
        },
{
    if let Some(p) = app.selected_project() {
        if app.is_live(target_of(p.id, "ci"@)) {
            lemma_shown_instead(app, p.id, "ci"@, false, when);
            lemma_shown_instead(app, p.id, "ci"@, true, when);
        }
        if let Some(t) = app.selected_task() {
            if app.is_live(target_of(p.id, t.id)) {
                lemma_shown_instead(app, p.id, t.id, false, when);
                lemma_shown_instead(app, p.id, t.id, true, when);
            }
        }
    }
}

/// Bytes that leave the screen as it is leave the output as it is, also when the output was cut
/// down just before to the lines that are kept.
pub proof fn law_unchanged_screen_keeps_the_lines(
    run: RunView,
    first: Seq<MsgView>,
    second: Seq<MsgView>,
)
    requires
        run.valid(),
        run.listening,
        run.emulator is Some,
        has_pty(first),
        has_pty(second),
        appended(second).len() == 0,
        fed(run.emulator, first)->0.screen().valid(),
        fed(fed(run.emulator, first), second)->0.screen() == fed(run.emulator, first)->0.screen(),
        ({
            let screen = fed(run.emulator, first)->0.screen();
            screen.alternate || screen_lines(screen.cells).len() <= MAX_OUTPUT_LINES
        }),
    ensures
        polled(polled(run, first), second).lines == polled(run, first).lines,
        polled(polled(run, first), second).scrollback == polled(run, first).scrollback,
{
    let taken = received(run, first);
    let screen = fed(run.emulator, first)->0.screen();
    let shown = screen_lines(screen.cells);
    let all = absorbed(taken, screen);
    let once = polled(run, first);
    let again = received(once, second);
    let n = scrollback_after(taken, screen);
    lemma_absorbed_valid(taken, screen);
    assert(all.lines == taken.lines.take(n) + shown);
    assert(all.lines.take(n) == taken.lines.take(n));
    assert(all.lines.skip(n) == shown);
    assert(again.lines == once.lines);
    let kept = once.scrollback;
    let dropped = all.lines.len() - once.lines.len();
    assert(once.lines == all.lines.skip(dropped));
    if dropped <= n {
        assert(kept == n - dropped);
        assert(once.lines.skip(kept) == shown);
        assert(once.lines.take(kept) + shown == once.lines);
        if !screen.alternate && shown.len() > 0 {
            law_screen_lines(screen);
            assert(texts_before(again)[0] == plain_text(shown[0]));
            assert(texts_now(screen)[0] == trimmed(screen.row_texts()[0]));
        }
        assert(absorbed(again, screen).lines == once.lines);
    } else {
        assert(kept == 0);
        assert(once.lines == shown.skip(dropped - n));
        assert(again.lines.take(0) + shown == shown);
        assert(absorbed(again, screen).lines == shown);
    }
}

/// After bytes for the emulator the output ends with what its screen shows, where there is room
/// for it.
pub proof fn law_output_ends_with_screen(run: RunView, msgs: Seq<MsgView>)
    requires
        run.listening,
        run.emulator is Some,
        has_pty(msgs),
    ensures
        ({
            let shown = screen_lines(fed(run.emulator, msgs)->0.screen().cells);
            let lines = polled(run, msgs).lines;
            shown.len() <= MAX_OUTPUT_LINES ==> shown.len() <= lines.len() && lines.skip(
                lines.len() - shown.len(),
            ) == shown
        }),
{
    let taken = received(run, msgs);
    let screen = fed(run.emulator, msgs)->0.screen();
    let shown = screen_lines(screen.cells);
    let all = absorbed(taken, screen).lines;
    let lines = polled(run, msgs).lines;
    assert(all.skip(all.len() - shown.len()) == shown);
    if shown.len() <= MAX_OUTPUT_LINES && all.len() > MAX_OUTPUT_LINES {
        let d = all.len() - MAX_OUTPUT_LINES;
        assert(all.skip(d).skip(MAX_OUTPUT_LINES - shown.len()) == all.skip(
            all.len() - shown.len(),
        ));
    }
}

// Actions.

/// Leaving the output view leaves everything else as it is: the run goes on.
pub proof fn law_leaving_output_keeps_the_run(app: AppView, when: Instant)
    requires
        app.mode == Mode::Output,
    ensures
        app.step(Action::Quit, when).0 == (AppView { mode: Mode::Normal, ..app }),
        app.step(Action::Back, when).0 == (AppView { mode: Mode::Normal, ..app }),
{
}

/// Only a quit from the panels ends the application.
pub proof fn law_only_quit_ends(app: AppView, action: Action, when: Instant)
    requires
        app.running,
        !app.step(action, when).0.running,
    ensures
        action is Quit,
        app.mode == Mode::Normal,
{
}

/// Toggling the help or the task info twice changes nothing.
pub proof fn law_toggle_twice(app: AppView, when: Instant, later: Instant)
    ensures
        app.step(Action::ToggleHelp, when).0.step(Action::ToggleHelp, later).0 == app,
        app.step(Action::TaskInfo, when).0.step(Action::TaskInfo, later).0 == app,
{
}

/// Whether the lists, the selections and the panel are the same.
pub open spec fn same_lists(a: AppView, b: AppView) -> bool {
    &&& a.projects == b.projects
    &&& a.tasks == b.tasks
    &&& a.project_index == b.project_index
    &&& a.task_index == b.task_index
    &&& a.panel == b.panel
}

proof fn lemma_runs_keep_lists(
    app: AppView,
    project_id: Seq<char>,
    task_id: Seq<char>,
    force: bool,
    when: Instant,
)
    ensures
        same_lists(app, app.task_run(project_id, task_id, force, when).0),
        same_lists(app, app.terminal_run(project_id, task_id, force, when).0),
{
}

proof fn lemma_run_actions_keep_lists(app: AppView, force: bool, when: Instant)
    ensures
        same_lists(app, app.selected_run(force, when).0),
        same_lists(app, app.ci_run(force, when).0),
        same_lists(app, app.selected_terminal_run(when).0),
{
    if let (Some(p), Some(t)) = (app.selected_project(), app.selected_task()) {
        lemma_runs_keep_lists(app, p.id, t.id, force, when);
        lemma_runs_keep_lists(app, p.id, t.id, false, when);
    }
    if let Some(p) = app.selected_project() {
        lemma_runs_keep_lists(app, p.id, "ci"@, force, when);
    }
}

/// Running tasks, from whatever panel, changes neither the lists nor the selections.
pub proof fn law_runs_keep_the_lists(app: AppView, action: Action, when: Instant)
    requires
        action is RunAll || action is ForceRun || action is InteractiveRun || action is Reattach,
    ensures
        same_lists(app, app.step(action, when).0),
{
    lemma_run_actions_keep_lists(app, false, when);
    lemma_run_actions_keep_lists(app, true, when);
}

/// Whether the lists are the same, and the selections stay on items.
pub open spec fn lists_kept(a: AppView, b: AppView) -> bool {
    &&& a.projects == b.projects
    &&& a.tasks == b.tasks
    &&& a.selected_project() is Some ==> b.selected_project() is Some
    &&& a.selected_task() is Some ==> b.selected_task() is Some
}

proof fn lemma_moves_keep_lists(app: AppView, action: Action)
    ensures
        lists_kept(app, app.moved(action)),
{
}

proof fn lemma_navigation_keeps_lists(app: AppView, action: Action, when: Instant)
    ensures
        lists_kept(app, app.navigated(action, when)),
{
}

/// No action changes the lists of projects and tasks, and a selection that stands on an item
/// stays on one.
pub proof fn law_selection_stays_in_range(app: AppView, action: Action, when: Instant)
    ensures
        lists_kept(app, app.step(action, when).0),
{
    match action {
        Action::Enter => {
            lemma_run_actions_keep_lists(app, false, when);
        },
        Action::RunAll | Action::ForceRun | Action::InteractiveRun | Action::Reattach => {
            law_runs_keep_the_lists(app, action, when);
        },
        Action::MoveDown | Action::MoveUp | Action::JumpTop | Action::JumpBottom
        | Action::HalfPageDown | Action::HalfPageUp => {
            lemma_moves_keep_lists(app, action);
            assert(app.step(action, when).0 == app.moved(action));
        },
        _ => {
            lemma_navigation_keeps_lists(app, action, when);
            assert(app.step(action, when).0 == app.navigated(action, when));
        },
    }
}

/// After a jump to the bottom there is nothing below, and after a jump to the top nothing above.
pub proof fn law_jumps_reach_the_ends(app: AppView, when: Instant, later: Instant)
    requires
        app.list_len() > 0,
    ensures
        ({
            let bottom = app.step(Action::JumpBottom, when).0;
            &&& bottom.index() == app.list_len() - 1
            &&& bottom.step(Action::MoveDown, later).0 == bottom
        }),
        ({
            let top = app.step(Action::JumpTop, when).0;
            &&& top.index() == 0
            &&& top.step(Action::MoveUp, later).0 == top
        }),
{
}

/// Moving down and up again leads back, where there is an item below.
pub proof fn law_down_then_up(app: AppView, when: Instant, later: Instant)
    requires
        0 <= app.index() < app.list_len() - 1,
    ensures
        app.step(Action::MoveDown, when).0.step(Action::MoveUp, later).0 == app,
{
}

// Processes.

/// The processes that are reported are those of the runs, without the runs that have none.
pub proof fn law_reported_pids(pids: Seq<u32>, pid: u32)
    ensures
        nonzero(pids).contains(pid) <==> pid != 0 && pids.contains(pid),
    decreases pids.len(),
{
    if pids.len() > 0 {
        let front = pids.drop_last();
        law_reported_pids(front, pid);
        assert(pids == front.push(pids.last()));
        if front.contains(pid) {
            let i = choose|i: int| 0 <= i < front.len() && front[i] == pid;
            assert(pids[i] == pid);
        }
        if nonzero(front).contains(pid) {
            let i = choose|i: int| 0 <= i < nonzero(front).len() && nonzero(front)[i] == pid;
            assert(nonzero(pids)[i] == pid);
        }
        if pids.last() == pid && pid != 0 {
            assert(nonzero(pids)[nonzero(pids).len() - 1] == pid);
        }
        if pids.contains(pid) && pids.last() != pid {
            let i = choose|i: int| 0 <= i < pids.len() && pids[i] == pid;
            assert(front[i] == pid);
        }
    }
}

} // verus!
