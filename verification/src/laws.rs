//! What holds of every terminal, whatever it is sent.

use crate::base64;
use crate::cell::{self, Cell};
use crate::model::{self, GridState};
use crate::sequences::{self, ActionState, TermState};
use crate::text;
use vstd::prelude::*;

verus! {

/// A row's id finds the row: the id of a viewport row names the line that the
/// viewport shows there.
pub proof fn law_ids_name_what_is_shown(s: GridState, y: int)
    ensures
        s.row_at(s.abs_row(y)) == s.view_row(y),
{
}

/// Whether scrolling leaves the line with the id `id` where it is in the text:
/// any line where the whole main screen scrolls, since what leaves it becomes
/// history, and otherwise those of the history and those outside the scroll
/// region.
pub open spec fn keeps_id(s: GridState, id: int) -> bool {
    s.feeds_history() || outside_region(s, id)
}

/// Whether the line with the id `id` is in the history or on a row outside the
/// scroll region.
pub open spec fn outside_region(s: GridState, id: int) -> bool {
    id < s.total() + s.top || s.total() + s.bot < id
}

/// Ids are stable: scrolling leaves every line that is still held under the id
/// it had, from the oldest line of the history down to the bottom of the
/// screen, save for those that it moves within a region of the screen.
pub proof fn law_scrolling_keeps_ids(s: GridState, n: int, id: int)
    requires
        s.wf(),
        0 <= n,
        id < s.total() + s.rows,
    ensures
        keeps_id(s, id) && s.scroll_up(n).trimmed <= id ==> s.scroll_up(n).row_at(id) == s.row_at(
            id,
        ),
        outside_region(s, id) ==> s.scroll_down(n).row_at(id) == s.row_at(id),
{
    let k = model::min(n, s.bot - s.top + 1);
    let t = s.scroll_up(n);
    let all = s.history + s.screen.take(k);
    let gone = model::excess(all.len() as int, s.max_history);
    let i = id - t.trimmed;
    if s.feeds_history() && 0 <= i < t.history.len() {
        assert(t.history[i] == all[i + gone]);
    }
}

/// A viewport that has been scrolled back stays on the lines it shows, for as
/// long as the history holds the first of them.
pub proof fn law_scrolled_back_viewport_is_anchored(s: GridState, n: int, y: int)
    requires
        s.wf(),
        s.feeds_history(),
        0 <= n,
        0 < s.view_offset,
        s.view_offset + model::min(n, s.rows) <= s.scroll_up(n).history.len(),
        0 <= y < s.rows,
    ensures
        s.scroll_up(n).view_offset == s.view_offset + model::min(n, s.rows),
        s.scroll_up(n).abs_row(y) == s.abs_row(y),
        s.scroll_up(n).view_row(y) == s.view_row(y),
{
    s.lemma_scroll_up_total(n);
    law_scrolling_keeps_ids(s, n, s.abs_row(y));
    law_ids_name_what_is_shown(s, y);
    law_ids_name_what_is_shown(s.scroll_up(n), y);
}

/// A viewport at the bottom stays at the bottom.
pub proof fn law_live_viewport_follows(s: GridState, n: int)
    requires
        s.wf(),
        0 <= n,
        s.view_offset == 0,
    ensures
        s.scroll_up(n).view_offset == 0,
{
}

/// Scrolling moves nothing outside the scroll region.
pub proof fn law_scrolling_stays_in_the_region(s: GridState, n: int, y: int)
    requires
        s.wf(),
        0 <= n,
        0 <= y < s.top || s.bot < y < s.rows,
    ensures
        s.scroll_up(n).screen[y] == s.screen[y],
        s.scroll_down(n).screen[y] == s.screen[y],
{
}

/// Printing puts the character where the cursor is, in the pen's colours, and
/// touches no cell but the one or two that it covers.
pub proof fn law_print_writes_at_the_cursor(s: GridState, c: char, w: int, x: int, y: int)
    requires
        s.wf(),
        !s.wrap_pending,
        1 <= w,
        s.cx + w <= s.cols,
        0 <= x < s.cols,
        0 <= y < s.rows,
    ensures
        s.put_glyph(c, w).screen[s.cy][s.cx] == (Cell {
            c,
            fg: s.pen.fg,
            bg: s.pen.bg,
            flags: s.pen.flags,
        }),
        !(y == s.cy && s.cx <= x < s.cx + w) ==> s.put_glyph(c, w).screen[y][x]
            == s.screen[y][x],
{
}

/// The wrap is deferred: filling the last column neither scrolls nor moves to
/// the next line. The character after it does.
pub proof fn law_wrap_is_deferred(s: GridState, c: char, w: int, next: char)
    requires
        s.wf(),
        !s.wrap_pending,
        1 <= w,
        s.cx + w == s.cols,
    ensures
        ({
            let t = s.put_glyph(c, w);
            &&& t.cy == s.cy
            &&& t.history == s.history
            &&& t.wrap_pending
            &&& t.put_glyph(next, 1) == GridState {
                wrap_pending: false,
                ..t.next_line()
            }.stamp(next, 1).advance_cursor(1)
        }),
{
    let t = s.put_glyph(c, w);
    assert(t.next_line().cx == 0);
    assert(t.settle_wrap().cx + 1 <= t.settle_wrap().cols);
}

/// A pending wrap outlives exactly the control sequences that leave the cursor
/// and the screens alone.
pub proof fn law_only_quiet_sequences_keep_a_pending_wrap(
    s: GridState,
    params: Seq<u16>,
    intermediates: Seq<u8>,
    c: char,
)
    ensures
        ({
            let t = s.csi(params, intermediates, c);
            let quiet = s.keeps_wrap(params, intermediates, c);
            &&& t.wrap_pending == (quiet && s.wrap_pending)
            &&& quiet ==> t.cx == s.cx && t.cy == s.cy && t.screen == s.screen && t.parked
                == s.parked
            &&& s.switches_screen(params, intermediates, c) ==> t.alt_active() != s.alt_active()
        }),
{
    if c == 'h' || c == 'l' {
        let private = sequences::marker(intermediates) == Some('?' as u8);
        let ready = s.ready_for(params, intermediates, c);
        let n = params.len() as int;
        lemma_modes_keep(ready, private, params, n, c == 'h');
        if s.switches_screen(params, intermediates, c) {
            let i = choose|i: int|
                0 <= i < params.len() && sequences::is_screen_mode(#[trigger] params[i]);
            lemma_screen_picked(ready, params, n, i, c == 'h');
        } else {
            lemma_quiet_modes(ready, params, intermediates, n, c == 'h');
        }
    }
}

proof fn lemma_quiet_modes(
    s: GridState,
    params: Seq<u16>,
    intermediates: Seq<u8>,
    count: int,
    enable: bool,
)
    requires
        sequences::picks_screen(params, intermediates) ==> enable == s.alt_active(),
        count <= params.len(),
    ensures
        ({
            let private = sequences::marker(intermediates) == Some('?' as u8);
            let t = s.set_modes(private, params, count, enable);
            &&& t.cx == s.cx
            &&& t.cy == s.cy
            &&& t.screen == s.screen
            &&& t.parked == s.parked
        }),
    decreases count,
{
    if count > 0 {
        lemma_quiet_modes(s, params, intermediates, count - 1, enable);
        if sequences::is_screen_mode(params[count - 1]) {
            assert(0 <= count - 1 < params.len());
        }
    }
}

proof fn lemma_screen_picked(s: GridState, params: Seq<u16>, count: int, i: int, enable: bool)
    requires
        0 <= i < params.len(),
        sequences::is_screen_mode(params[i]),
        count <= params.len(),
    ensures
        i < count ==> s.set_modes(true, params, count, enable).alt_active() == enable,
    decreases count,
{
    if count > 0 {
        lemma_screen_picked(s, params, count - 1, i, enable);
    }
}

proof fn lemma_modes_keep(
    s: GridState,
    private: bool,
    params: Seq<u16>,
    count: int,
    enable: bool,
)
    ensures
        ({
            let t = s.set_modes(private, params, count, enable);
            &&& t.wrap_pending == s.wrap_pending
            &&& t.history == s.history
            &&& t.trimmed == s.trimmed
            &&& t.max_history == s.max_history
        }),
    decreases count,
{
    if count > 0 {
        lemma_modes_keep(s, private, params, count - 1, enable);
    }
}

/// Whether an action is the full reset, `ESC c`.
pub open spec fn is_full_reset(action: ActionState) -> bool {
    action matches ActionState::Esc { intermediates, byte } && intermediates.len() == 0 && byte
        == 'c' as u8
}

/// Whether history and parked screen are the same in both.
spec fn same_background(s: GridState, t: GridState) -> bool {
    &&& t.history == s.history
    &&& t.trimmed == s.trimmed
    &&& t.parked == s.parked
}

proof fn lemma_newline_background(s: GridState)
    requires
        s.alt_active(),
    ensures
        same_background(s, s.newline()),
{
}

proof fn lemma_put_background(s: GridState, c: char)
    requires
        s.alt_active(),
    ensures
        same_background(s, s.put(c)),
{
    let glyph = cell::charset_char(s.charset(), c);
    let w = crate::width::columns(glyph);
    let ready = s.settle_wrap();
    lemma_newline_background(s.with_cx(0));
    lemma_newline_background(ready.with_cx(0));
}

proof fn lemma_csi_background(
    s: GridState,
    params: Seq<u16>,
    intermediates: Seq<u8>,
    c: char,
)
    requires
        s.alt_active(),
        c != 'h',
        c != 'l',
    ensures
        same_background(s, s.csi(params, intermediates, c)),
{
}

/// The alternate screen has no history: nothing a full-screen program sends
/// adds a line to the scrollback or takes one from it, short of a full reset.
pub proof fn law_alternate_screen_leaves_history_alone(s: TermState, action: ActionState)
    requires
        s.grid.wf(),
        s.grid.alt_active(),
        !is_full_reset(action),
    ensures
        s.perform(action).grid.history == s.grid.history,
        s.perform(action).grid.trimmed == s.grid.trimmed,
{
    match action {
        ActionState::Csi { params, intermediates, c } if c == 'h' || c == 'l' => {
            let private = sequences::marker(intermediates) == Some('?' as u8);
            let flat = params.flatten();
            lemma_modes_keep(
                s.grid.ready_for(flat, intermediates, c),
                private,
                flat,
                flat.len() as int,
                c == 'h',
            );
        },
        _ => law_main_screen_is_safe_behind_the_alternate(s, action),
    }
}

/// Nothing a full-screen program draws reaches the main screen behind it, or
/// the history: both stay as they are until a mode change puts the main screen
/// back or a full reset throws it away.
pub proof fn law_main_screen_is_safe_behind_the_alternate(s: TermState, action: ActionState)
    requires
        s.grid.wf(),
        s.grid.alt_active(),
        !is_full_reset(action),
        !(action matches ActionState::Csi { params, intermediates, c } && (c == 'h' || c == 'l')),
    ensures
        s.perform(action).grid.parked == s.grid.parked,
        s.perform(action).grid.history == s.grid.history,
        s.perform(action).grid.trimmed == s.grid.trimmed,
{
    match action {
        ActionState::Print(c) => lemma_put_background(s.grid, c),
        ActionState::Execute(byte) => {
            lemma_newline_background(s.grid.with_wrap_pending(false));
        },
        ActionState::Csi { params, intermediates, c } => {
            lemma_csi_background(s.grid, params.flatten(), intermediates, c);
        },
        ActionState::Esc { intermediates, byte } => {
            lemma_newline_background(s.grid);
            lemma_newline_background(s.grid.with_cx(0));
        },
        ActionState::Osc { parts } => {},
    }
}

/// Leaving the alternate screen restores the main screen and its cursor as
/// they were, whatever was drawn in between.
pub proof fn law_leaving_the_alternate_screen_restores_the_main_one(
    before: GridState,
    during: GridState,
)
    requires
        before.wf(),
        !before.alt_active(),
        during.parked == before.set_alt_screen(true).parked,
    ensures
        during.set_alt_screen(false).screen == before.screen,
        during.set_alt_screen(false).cx == before.cx,
        during.set_alt_screen(false).cy == before.cy,
        !during.set_alt_screen(false).alt_active(),
{
}

/// Entering the alternate screen shows an empty screen with the cursor at its
/// top, and keeps the history.
pub proof fn law_alternate_screen_starts_empty(s: GridState, x: int, y: int)
    requires
        s.wf(),
        !s.alt_active(),
        0 <= x < s.cols,
        0 <= y < s.rows,
    ensures
        s.set_alt_screen(true).screen[y][x] == cell::blank(cell::Color::Default),
        s.set_alt_screen(true).cx == 0,
        s.set_alt_screen(true).cy == 0,
        s.set_alt_screen(true).history == s.history,
{
}

/// Whether the history holds no more lines than its limit.
pub open spec fn history_bounded(s: GridState) -> bool {
    s.history.len() <= s.max_history
}

proof fn lemma_scroll_bounded(s: GridState, n: int)
    requires
        s.wf(),
        history_bounded(s),
        0 <= n,
    ensures
        history_bounded(s.scroll_up(n)),
{
}

proof fn lemma_newline_bounded(s: GridState)
    requires
        s.wf(),
        history_bounded(s),
    ensures
        history_bounded(s.newline()),
{
    lemma_scroll_bounded(s, 1);
}

proof fn lemma_put_bounded(s: GridState, c: char)
    requires
        s.wf(),
        history_bounded(s),
    ensures
        history_bounded(s.put(c)),
{
    lemma_newline_bounded(s.with_cx(0));
    s.with_cx(0).lemma_newline_wf();
    let ready = s.settle_wrap();
    assert(ready.wf());
    lemma_newline_bounded(ready.with_cx(0));
}

proof fn lemma_csi_bounded(s: GridState, params: Seq<u16>, intermediates: Seq<u8>, c: char)
    requires
        s.wf(),
        history_bounded(s),
    ensures
        history_bounded(s.csi(params, intermediates, c)),
{
    let n = sequences::arg(params, 0, 1);
    let ready = s.ready_for(params, intermediates, c);
    if c == 'M' && s.top <= s.cy <= s.bot {
        lemma_scroll_bounded(ready.with_top(s.cy), n);
    } else if c == 'S' {
        lemma_scroll_bounded(ready, n);
    } else if c == 'h' || c == 'l' {
        let private = sequences::marker(intermediates) == Some('?' as u8);
        lemma_modes_keep(ready, private, params, params.len() as int, c == 'h');
    }
}

proof fn lemma_execute_bounded(s: GridState, byte: u8)
    requires
        s.wf(),
        history_bounded(s),
    ensures
        history_bounded(s.execute(byte)),
{
    lemma_newline_bounded(s.with_wrap_pending(false));
}

proof fn lemma_esc_bounded(s: GridState, intermediates: Seq<u8>, byte: u8)
    requires
        s.wf(),
        history_bounded(s),
    ensures
        history_bounded(s.esc(intermediates, byte)),
{
    lemma_newline_bounded(s);
    lemma_newline_bounded(s.with_cx(0));
}

/// The history never outgrows its limit, whatever is sent.
pub proof fn law_history_stays_bounded(s: TermState, action: ActionState)
    requires
        s.grid.wf(),
        history_bounded(s.grid),
    ensures
        history_bounded(s.perform(action).grid),
{
    match action {
        ActionState::Print(c) => lemma_put_bounded(s.grid, c),
        ActionState::Execute(byte) => lemma_execute_bounded(s.grid, byte),
        ActionState::Csi { params, intermediates, c } => {
            lemma_csi_bounded(s.grid, params.flatten(), intermediates, c);
        },
        ActionState::Esc { intermediates, byte } => {
            lemma_esc_bounded(s.grid, intermediates, byte);
        },
        ActionState::Osc { parts } => {},
    }
}

/// Nor does it when the window changes size: what a shorter screen adds to the
/// history pushes the oldest lines out.
pub proof fn law_resize_keeps_history_bounded(s: GridState, cols: int, rows: int)
    requires
        s.wf(),
        history_bounded(s),
    ensures
        history_bounded(s.resize(cols, rows)),
{
}

/// Restoring the cursor brings back position, pen and character sets as they
/// were saved, whatever changed since, as long as the screen has not shrunk.
pub proof fn law_restore_brings_back_what_was_saved(saved: GridState, later: GridState)
    requires
        saved.wf(),
        saved.cols <= usize::MAX,
        saved.rows <= usize::MAX,
        later.saved == saved.save_cursor().saved,
        later.cols >= saved.cols,
        later.rows >= saved.rows,
    ensures
        later.restore_cursor().cx == saved.cx,
        later.restore_cursor().cy == saved.cy,
        later.restore_cursor().pen == saved.pen,
        later.restore_cursor().charset() == saved.charset(),
{
}

/// A program reads nothing back by writing to the clipboard or the title: no
/// operating system command is ever answered.
pub proof fn law_operating_system_commands_are_never_answered(
    s: TermState,
    parts: Seq<Seq<u8>>,
)
    ensures
        s.perform(ActionState::Osc { parts }).reply == s.reply,
{
}

/// Asking for the clipboard, or sending an empty one, changes nothing at all.
pub proof fn law_clipboard_is_never_read_or_wiped(s: GridState, parts: Seq<Seq<u8>>)
    requires
        parts.len() > 0,
        parts[0] == seq!['5' as u8, '2' as u8],
        parts.len() < 3 || parts[2].len() == 0 || parts[2] == seq!['?' as u8],
    ensures
        s.osc(parts) == s,
{
    assert(parts[0].len() == 2);
}

/// A copy reaches the clipboard: whatever is sent in base64, short enough and
/// whichever selection it names, is what the clipboard gets.
pub proof fn law_a_copy_reaches_the_clipboard(s: GridState, parts: Seq<Seq<u8>>, bytes: Seq<u8>)
    requires
        bytes.len() > 0,
        parts.len() > 2,
        parts[0] == seq!['5' as u8, '2' as u8],
        parts[2] == base64::encoded(bytes),
        parts[2].len() <= sequences::MAX_CLIPBOARD_BASE64,
    ensures
        s.osc(parts) == s.with_clipboard(text::lossy_text(bytes)),
{
    base64::law_decode_undoes_encode(bytes);
    assert(parts[0].len() == 2);
    assert(parts[2].len() > 1);
}

/// The two device attribute queries are never given each other's answer.
pub proof fn law_attribute_answers_differ(grid: GridState, params: Seq<u16>)
    ensures
        sequences::csi_answer(grid, params, Seq::empty(), 'c') != sequences::csi_answer(
            grid,
            params,
            seq!['>' as u8],
            'c',
        ),
{
    assert(sequences::primary_attributes()[2] != sequences::secondary_attributes()[2]);
}

/// A private status report is not answered: the asker could not parse an
/// ordinary one.
pub proof fn law_private_status_reports_get_no_answer(
    grid: GridState,
    params: Seq<u16>,
    rest: Seq<u8>,
)
    ensures
        sequences::csi_answer(grid, params, seq!['?' as u8] + rest, 'n').len() == 0,
{
    assert((seq!['?' as u8] + rest)[0] == '?' as u8);
}

/// Asking where the cursor is moves nothing.
pub proof fn law_queries_change_nothing(
    s: GridState,
    params: Seq<u16>,
    intermediates: Seq<u8>,
    c: char,
)
    requires
        c == 'n' || c == 'c' || (c == 'q' && sequences::marker(intermediates) != Some(' ' as u8)),
    ensures
        s.csi(params, intermediates, c) == s,
{
}

/// SGR without parameters is SGR 0.
pub proof fn law_bare_sgr_is_a_reset(s: GridState)
    ensures
        s.sgr(Seq::empty()) == s.sgr(seq![0u16]),
{
    reveal_with_fuel(model::sgr_from, 3);
}

/// An attribute switched on and off again leaves the colours as they were.
pub proof fn law_sgr_colours_and_attributes_are_apart(s: GridState, p: u16)
    requires
        p == 1 || p == 3 || p == 4 || p == 7 || p == 22 || p == 23 || p == 24 || p == 27,
    ensures
        s.sgr(seq![p]).pen.fg == s.pen.fg,
        s.sgr(seq![p]).pen.bg == s.pen.bg,
{
    reveal_with_fuel(model::sgr_from, 3);
}

/// A row fitted to the width it has is itself.
proof fn lemma_fit_is_identity(row: Seq<Cell>, cols: int)
    requires
        row.len() == cols,
    ensures
        model::fit_row(row, cols, cols) == row,
{
    assert(model::fit_row(row, cols, cols) =~= row);
}

/// The cursor stays on its line through any resize, of the main screen or the
/// alternate one, and its row never falls off the screen.
pub proof fn law_resize_keeps_the_cursor_line(s: GridState, cols: int, rows: int)
    requires
        s.wf(),
        1 <= cols,
        1 <= rows,
    ensures
        ({
            let t = s.resize(cols, rows);
            &&& 0 <= t.cy < rows
            &&& t.screen[t.cy] == model::fit_row(s.screen[s.cy], s.cols, cols)
        }),
{
    let t = s.resize(cols, rows);
    lemma_fit_is_identity(s.screen[s.cy], s.cols);
    if !(cols == s.cols && rows == s.rows) {
        let kept = s.with_view_offset(0).keep_lost(rows);
        let above = kept.history.skip(kept.history.len() - kept.pulled(rows));
        let from = model::off_top(s.cy, rows);
        let window = s.screen.subrange(from, from + model::min(rows, s.rows));
        let open = rows - window.len() - above.len();
        assert(t.screen[t.cy] == model::fit_rows(window, s.cols, cols)[t.cy - open
            - above.len()]);
    }
}

/// Shrinking the main screen loses no line above or at the cursor. What falls
/// off the top is found in the history under the id it had, as wide as it was;
/// what stays on screen is cut or padded to the new width.
pub proof fn law_shrinking_keeps_lines_and_ids(s: GridState, cols: int, rows: int, id: int)
    requires
        s.wf(),
        !s.alt_active(),
        1 <= cols,
        1 <= rows <= s.rows,
        s.resize(cols, rows).trimmed <= id <= s.total() + s.cy,
    ensures
        ({
            let t = s.resize(cols, rows);
            &&& s.row_at(id) is Some
            &&& t.row_at(id) == (if id < t.total() {
                s.row_at(id)
            } else {
                Some(model::fit_row(s.row_at(id)->0, s.cols, cols))
            })
        }),
{
    let t = s.resize(cols, rows);
    if cols == s.cols && rows == s.rows {
        if id >= t.total() {
            lemma_fit_is_identity(s.row_at(id)->0, s.cols);
        }
    } else {
        let lost = model::off_top(s.cy, rows);
        let kept = s.with_view_offset(0).keep_lost(rows);
        let all = s.history + s.screen.take(lost);
        let gone = model::excess(all.len() as int, s.max_history);
        assert(t.history =~= kept.history);
        if id < t.total() {
            if lost > 0 {
                assert(t.history[id - t.trimmed] == all[id - t.trimmed + gone]);
            }
        } else {
            let y = id - t.total();
            assert(kept.history.skip(kept.history.len() as int).len() == 0);
            let window = s.screen.subrange(lost, lost + rows);
            assert(t.screen[y] == model::fit_rows(window, s.cols, cols)[y]);
        }
    }
}

/// Growing the main screen loses no line. As long as the history has rows to
/// fill the new space with, every line keeps its id; past that, blank rows open
/// above them and the ids move on by as many.
pub proof fn law_growing_keeps_lines(s: GridState, cols: int, rows: int, id: int)
    requires
        s.wf(),
        !s.alt_active(),
        1 <= cols,
        s.rows <= rows,
        s.trimmed <= id < s.total() + s.rows,
    ensures
        ({
            let t = s.resize(cols, rows);
            let open = model::monus(rows - s.rows, s.history.len() as int);
            &&& s.row_at(id) is Some
            &&& t.row_at(id + open) == (if id < t.total() {
                s.row_at(id)
            } else {
                Some(model::fit_row(s.row_at(id)->0, s.cols, cols))
            })
        }),
{
    let t = s.resize(cols, rows);
    if cols == s.cols && rows == s.rows {
        if id >= t.total() {
            lemma_fit_is_identity(s.row_at(id)->0, s.cols);
        }
    } else {
        let pulled = s.pulled(rows);
        let left = s.history.len() - pulled;
        let above = s.history.skip(left);
        let window = s.screen.subrange(0, s.rows);
        let open = rows - s.rows - pulled;
        assert(s.with_view_offset(0).keep_lost(rows) == s.with_view_offset(0));
        assert(t.history =~= s.history.take(left));
        if id >= t.total() {
            let y = id + open - t.total();
            if y < open + pulled {
                assert(t.screen[y] == model::fit_rows(above, s.cols, cols)[y - open]);
                assert(above[y - open] == s.history[left + y - open]);
            } else {
                assert(t.screen[y] == model::fit_rows(window, s.cols, cols)[y - open - pulled]);
                assert(window[y - open - pulled] == s.screen[y - open - pulled]);
            }
        }
    }
}

/// Growing undoes shrinking: with the cursor on the bottom row and a history
/// that is not full, screen, history and cursor come back exactly. Closing a
/// split undoes what opening it did.
pub proof fn law_growing_undoes_shrinking(s: GridState, rows: int)
    requires
        s.wf(),
        !s.alt_active(),
        1 <= rows < s.rows,
        s.cy == s.rows - 1,
        s.history.len() + (s.rows - rows) <= s.max_history,
    ensures
        ({
            let t = s.resize(s.cols, rows).resize(s.cols, s.rows);
            &&& t.cols == s.cols
            &&& t.rows == s.rows
            &&& t.screen == s.screen
            &&& t.history == s.history
            &&& t.trimmed == s.trimmed
            &&& t.cx == s.cx
            &&& t.cy == s.cy
        }),
{
    let lost = s.rows - rows;
    let small = s.resize(s.cols, rows);
    let kept = s.with_view_offset(0).keep_lost(rows);
    let all = s.history + s.screen.take(lost);
    assert(all.skip(0) =~= all);
    assert(kept.history == all);
    assert(small.history =~= all);
    let window = s.screen.subrange(lost, lost + rows);
    assert(kept.history.skip(kept.history.len() as int).len() == 0);
    assert forall|y: int| 0 <= y < rows implies #[trigger] small.screen[y] == s.screen[lost
        + y] by {
        assert(small.screen[y] == model::fit_rows(window, s.cols, s.cols)[y]);
        lemma_fit_is_identity(s.screen[lost + y], s.cols);
    }
    let t = small.resize(s.cols, s.rows);
    assert(small.pulled(s.rows) == lost);
    let back = all.skip(s.history.len() as int);
    assert(back =~= s.screen.take(lost));
    let held = small.screen.subrange(0, rows);
    assert(t.history =~= s.history);
    assert forall|y: int| 0 <= y < s.rows implies #[trigger] t.screen[y] == s.screen[y] by {
        if y < lost {
            assert(t.screen[y] == model::fit_rows(back, s.cols, s.cols)[y]);
            assert(back[y] == s.screen[y]);
        } else {
            assert(t.screen[y] == model::fit_rows(held, s.cols, s.cols)[y - lost]);
            assert(held[y - lost] == small.screen[y - lost]);
        }
        lemma_fit_is_identity(s.screen[y], s.cols);
    }
    assert(t.screen =~= s.screen);
}

/// Splitting a pane does the same to the main screen whether it is visible or
/// parked behind a full-screen program: the same rows stay, and the same rows
/// become history.
pub proof fn law_shrinking_behind_the_alternate_screen_is_the_same(
    s: GridState,
    cols: int,
    rows: int,
)
    requires
        s.wf(),
        !s.alt_active(),
        1 <= cols,
        1 <= rows <= s.rows,
    ensures
        ({
            let behind = s.set_alt_screen(true).resize(cols, rows).set_alt_screen(false);
            let shown = s.resize(cols, rows);
            &&& behind.cols == shown.cols
            &&& behind.rows == shown.rows
            &&& behind.screen == shown.screen
            &&& behind.history == shown.history
            &&& behind.trimmed == shown.trimmed
            &&& behind.cx == shown.cx
            &&& behind.cy == shown.cy
        }),
{
    let behind = s.set_alt_screen(true).resize(cols, rows);
    let shown = s.resize(cols, rows);
    if !(cols == s.cols && rows == s.rows) {
        let kept = s.with_view_offset(0).keep_lost(rows);
        assert(kept.history.skip(kept.history.len() as int) =~= Seq::<Seq<Cell>>::empty());
        assert(kept.history.take(kept.history.len() as int) =~= kept.history);
    }
}

/// The main screen behind a full-screen program is carried through any resize
/// by its own cursor: the cursor stays on its line, and growing keeps every
/// line.
pub proof fn law_resize_carries_the_parked_screen(s: GridState, cols: int, rows: int, y: int)
    requires
        s.wf(),
        s.alt_active(),
        1 <= cols,
        1 <= rows,
        !(cols == s.cols && rows == s.rows),
        y == s.parked->0.cy || (s.rows <= rows && 0 <= y < s.rows),
    ensures
        ({
            let before = s.parked->0;
            let after = s.resize(cols, rows).parked->0;
            let to = model::resized_row(before.cy, s.rows, rows) + (y - before.cy);
            &&& s.resize(cols, rows).alt_active()
            &&& after.cy == model::resized_row(before.cy, s.rows, rows)
            &&& 0 <= after.cy < rows
            &&& after.screen[to] == model::fit_row(before.screen[y], s.cols, cols)
        }),
{
    let before = s.parked->0;
    let after = s.resize(cols, rows).parked->0;
    let from = model::off_top(before.cy, rows);
    let window = before.screen.subrange(from, from + model::min(rows, s.rows));
    let open = rows - window.len();
    let to = model::resized_row(before.cy, s.rows, rows) + (y - before.cy);
    assert(after.screen[to] == model::fit_rows(window, s.cols, cols)[to - open]);
    assert(window[to - open] == before.screen[y]);
}

/// A resize shows the live screen, with the whole of it as the scroll region.
pub proof fn law_resize_resets_viewport_and_region(s: GridState, cols: int, rows: int)
    requires
        s.wf(),
        1 <= cols,
        1 <= rows,
        !(cols == s.cols && rows == s.rows),
    ensures
        s.resize(cols, rows).view_offset == 0,
        s.resize(cols, rows).top == 0,
        s.resize(cols, rows).bot == rows - 1,
{
}

} // verus!
