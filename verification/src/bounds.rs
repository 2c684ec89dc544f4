//! What every operation keeps of a terminal: rectangular screens, a cursor and
//! a scroll region on the screen, a viewport within the history.

use crate::cell;
use crate::laws;
use crate::model::{self, GridState};
use crate::sequences::{self, ActionState, TermState};
use crate::width;
use vstd::prelude::*;

verus! {

/// Whether `t` is a sound terminal of the size that `s` has.
pub open spec fn keeps_shape(s: GridState, t: GridState) -> bool {
    t.wf() && t.cols == s.cols && t.rows == s.rows
}

proof fn lemma_scroll_up(s: GridState, n: int)
    requires
        s.wf(),
        0 <= n,
    ensures
        keeps_shape(s, s.scroll_up(n)),
{
    let t = s.scroll_up(n);
    let k = model::min(n, s.bot - s.top + 1);
    assert forall|y: int| 0 <= y < t.rows implies (#[trigger] t.screen[y]).len() == t.cols by {
        assert(s.screen[y].len() == s.cols);
        if y + k <= s.bot {
            assert(s.screen[y + k].len() == s.cols);
        }
    }
}

proof fn lemma_scroll_down(s: GridState, n: int)
    requires
        s.wf(),
        0 <= n,
    ensures
        keeps_shape(s, s.scroll_down(n)),
{
    let t = s.scroll_down(n);
    let k = model::min(n, s.bot - s.top + 1);
    assert forall|y: int| 0 <= y < t.rows implies (#[trigger] t.screen[y]).len() == t.cols by {
        assert(s.screen[y].len() == s.cols);
        if y - k >= s.top {
            assert(s.screen[y - k].len() == s.cols);
        }
    }
}

proof fn lemma_newline(s: GridState)
    requires
        s.wf(),
    ensures
        keeps_shape(s, s.newline()),
{
    lemma_scroll_up(s, 1);
}

proof fn lemma_next_line(s: GridState)
    requires
        s.wf(),
    ensures
        keeps_shape(s, s.next_line()),
{
    lemma_newline(s.with_cx(0));
}

proof fn lemma_stamp(s: GridState, c: char, w: int)
    requires
        s.wf(),
    ensures
        keeps_shape(s, s.stamp(c, w)),
{
    let t = s.stamp(c, w);
    assert forall|y: int| 0 <= y < t.rows implies (#[trigger] t.screen[y]).len() == t.cols by {
        assert(s.screen[y].len() == s.cols);
    }
}

proof fn lemma_settle_wrap(s: GridState)
    requires
        s.wf(),
    ensures
        keeps_shape(s, s.settle_wrap()),
{
    lemma_next_line(s);
}

proof fn lemma_wrapped_for(s: GridState, w: int)
    requires
        s.wf(),
    ensures
        keeps_shape(s, s.wrapped_for(w)),
{
    lemma_settle_wrap(s);
    lemma_next_line(s.settle_wrap());
}

proof fn lemma_advance_cursor(s: GridState, w: int)
    requires
        s.wf(),
        1 <= w,
    ensures
        keeps_shape(s, s.advance_cursor(w)),
{
}

proof fn lemma_put(s: GridState, c: char)
    requires
        s.wf(),
    ensures
        keeps_shape(s, s.put(c)),
{
    let glyph = cell::charset_char(s.charset(), c);
    let w = width::columns(glyph);
    let ready = s.wrapped_for(w);
    lemma_wrapped_for(s, w);
    lemma_stamp(ready, glyph, w);
    lemma_advance_cursor(ready.stamp(glyph, w), w);
}

/// A row of the screen replaced by one as long.
proof fn lemma_row_replaced(s: GridState, row: Seq<cell::Cell>)
    requires
        s.wf(),
        row.len() == s.cols,
    ensures
        keeps_shape(s, GridState { screen: s.screen.update(s.cy, row), ..s }),
{
    let t = GridState { screen: s.screen.update(s.cy, row), ..s };
    assert forall|y: int| 0 <= y < t.rows implies (#[trigger] t.screen[y]).len() == t.cols by {
        assert(s.screen[y].len() == s.cols);
    }
}

proof fn lemma_erase_in_display(s: GridState, mode: u16)
    requires
        s.wf(),
    ensures
        keeps_shape(s, s.erase_in_display(mode)),
{
    let t = s.erase_in_display(mode);
    assert forall|y: int| 0 <= y < t.rows implies (#[trigger] t.screen[y]).len() == t.cols by {
        assert(s.screen[y].len() == s.cols);
        assert(s.screen[s.cy].len() == s.cols);
    }
}

proof fn lemma_line_edits(s: GridState, mode: u16, n: int)
    requires
        s.wf(),
        0 <= n,
    ensures
        keeps_shape(s, s.erase_in_line(mode)),
        keeps_shape(s, s.delete_chars(n)),
        keeps_shape(s, s.insert_blanks(n)),
        keeps_shape(s, s.erase_chars(n)),
{
    let row = s.screen[s.cy];
    let blank = cell::blank(s.pen.bg);
    let k = model::min(n, s.cols - s.cx);
    assert(row.len() == s.cols);
    lemma_row_replaced(s, crate::rows::span_filled(row, s.cx, s.cols, blank));
    lemma_row_replaced(s, crate::rows::span_filled(row, 0, s.cx + 1, blank));
    lemma_row_replaced(s, crate::rows::span_filled(row, 0, s.cols, blank));
    lemma_row_replaced(s, crate::rows::span_filled(row, s.cx, s.cx + k, blank));
    lemma_row_replaced(s, crate::rows::shifted_left(row, s.cx, k, blank));
    lemma_row_replaced(s, crate::rows::shifted_right(row, s.cx, k, blank));
}

proof fn lemma_line_moves(s: GridState, n: int)
    requires
        s.wf(),
        0 <= n,
    ensures
        keeps_shape(s, s.insert_lines(n)),
        keeps_shape(s, s.delete_lines(n)),
{
    if s.top <= s.cy <= s.bot {
        lemma_scroll_down(s.with_top(s.cy), n);
        lemma_scroll_up(s.with_top(s.cy), n);
    }
}

proof fn lemma_set_alt_screen(s: GridState, on: bool)
    requires
        s.wf(),
    ensures
        keeps_shape(s, s.set_alt_screen(on)),
{
    let t = s.set_alt_screen(on);
    if on != s.alt_active() && !on {
        let back = s.parked->0;
        assert forall|y: int| 0 <= y < t.rows implies (#[trigger] t.screen[y]).len() == t.cols by {
            assert(back.screen[y].len() == s.cols);
        }
    }
}

proof fn lemma_set_modes(
    s: GridState,
    private: bool,
    params: Seq<u16>,
    count: int,
    enable: bool,
)
    requires
        s.wf(),
    ensures
        keeps_shape(s, s.set_modes(private, params, count, enable)),
    decreases count,
{
    if count > 0 {
        lemma_set_modes(s, private, params, count - 1, enable);
        lemma_set_alt_screen(s.set_modes(private, params, count - 1, enable), enable);
    }
}

/// The cursor elsewhere on the screen.
proof fn lemma_moved(s: GridState, cx: int, cy: int)
    requires
        s.wf(),
        0 <= cx < s.cols,
        0 <= cy < s.rows,
    ensures
        keeps_shape(s, s.with_cx(cx)),
        keeps_shape(s, s.with_cy(cy)),
        keeps_shape(s, s.with_cx(cx).with_cy(cy)),
        keeps_shape(s, s.with_cy(cy).with_cx(cx)),
{
}

proof fn lemma_moves(s: GridState, n: int, m: int)
    requires
        s.wf(),
        1 <= n,
        1 <= m,
    ensures
        keeps_shape(s, s.cursor_up(n)),
        keeps_shape(s, s.cursor_down(n)),
        keeps_shape(s, s.cursor_right(n)),
        keeps_shape(s, s.cursor_left(n)),
        keeps_shape(s, s.with_cx(0).cursor_down(n)),
        keeps_shape(s, s.with_cx(0).cursor_up(n)),
        keeps_shape(s, s.cursor_column(n)),
        keeps_shape(s, s.cursor_row(n)),
        keeps_shape(s, s.cursor_row(n).cursor_column(m)),
{
    let up = model::monus(s.cy, n);
    let down = model::min(s.cy + n, s.rows - 1);
    lemma_moved(s, 0, up);
    lemma_moved(s, 0, down);
    lemma_moved(s, model::min(s.cx + n, s.cols - 1), up);
    lemma_moved(s, model::monus(s.cx, n), up);
    lemma_moved(s, model::min(n - 1, s.cols - 1), up);
    lemma_moved(s, model::min(m - 1, s.cols - 1), model::min(n - 1, s.rows - 1));
}

proof fn lemma_settings(s: GridState, params: Seq<u16>, first: int, last: int)
    requires
        s.wf(),
        1 <= first,
    ensures
        keeps_shape(s, s.sgr(params)),
        keeps_shape(s, s.set_region(first, last)),
        keeps_shape(s, s.save_cursor()),
        keeps_shape(s, s.restore_cursor()),
        keeps_shape(
            s,
            s.with_cursor_shape(sequences::shape_for(sequences::first(params))),
        ),
{
}

/// Whether `c` ends a control sequence that does nothing but move the cursor.
spec fn only_moves(c: char) -> bool {
    ||| c == 'A'
    ||| c == 'B'
    ||| c == 'e'
    ||| c == 'C'
    ||| c == 'a'
    ||| c == 'D'
    ||| c == 'E'
    ||| c == 'F'
    ||| c == 'G'
    ||| c == '`'
    ||| c == 'd'
    ||| c == 'H'
    ||| c == 'f'
}

proof fn lemma_csi_moves(s: GridState, params: Seq<u16>, intermediates: Seq<u8>, c: char)
    requires
        s.wf(),
        only_moves(c),
    ensures
        keeps_shape(s, s.csi_effect(params, intermediates, c)),
{
    lemma_moves(s, sequences::arg(params, 0, 1), sequences::arg(params, 1, 1));
}

proof fn lemma_csi_draws(s: GridState, params: Seq<u16>, intermediates: Seq<u8>, c: char)
    requires
        s.wf(),
        !only_moves(c),
        sequences::moves_or_draws(c),
    ensures
        keeps_shape(s, s.csi_effect(params, intermediates, c)),
{
    let n = sequences::arg(params, 0, 1);
    if c == 'J' {
        lemma_erase_in_display(s, sequences::first(params));
    } else if c == 'S' {
        lemma_scroll_up(s, n);
    } else if c == 'T' {
        lemma_scroll_down(s, n);
    } else if c == 'r' || c == 'u' {
        lemma_settings(s, params, n, s.region_end(params));
    } else if c == 'L' || c == 'M' {
        lemma_line_moves(s, n);
    } else {
        lemma_line_edits(s, sequences::first(params), n);
    }
}

proof fn lemma_csi_rest(s: GridState, params: Seq<u16>, intermediates: Seq<u8>, c: char)
    requires
        s.wf(),
        !sequences::moves_or_draws(c),
    ensures
        keeps_shape(s, s.csi_effect(params, intermediates, c)),
{
    let private = sequences::marker(intermediates) == Some('?' as u8);
    if c == 'h' || c == 'l' {
        lemma_set_modes(s, private, params, params.len() as int, c == 'h');
    } else {
        lemma_settings(s, params, sequences::arg(params, 0, 1), s.region_end(params));
    }
}

proof fn lemma_csi_effect(s: GridState, params: Seq<u16>, intermediates: Seq<u8>, c: char)
    requires
        s.wf(),
    ensures
        keeps_shape(s, s.csi_effect(params, intermediates, c)),
{
    if only_moves(c) {
        lemma_csi_moves(s, params, intermediates, c);
    } else if sequences::moves_or_draws(c) {
        lemma_csi_draws(s, params, intermediates, c);
    } else {
        lemma_csi_rest(s, params, intermediates, c);
    }
}

proof fn lemma_execute(s: GridState, byte: u8)
    requires
        s.wf(),
    ensures
        keeps_shape(s, s.execute(byte)),
{
    lemma_newline(s.with_wrap_pending(false));
}

proof fn lemma_esc(s: GridState, intermediates: Seq<u8>, byte: u8)
    requires
        s.wf(),
    ensures
        keeps_shape(s, s.esc(intermediates, byte)),
{
    lemma_newline(s);
    lemma_next_line(s);
    lemma_scroll_down(s, 1);
}

/// Whatever is sent, the screens stay rectangles of the size they have, the
/// cursor and the scroll region stay on the screen, the viewport stays within
/// the history, and the history within its limit.
pub proof fn law_every_action_keeps_the_invariant(s: TermState, action: ActionState)
    requires
        s.grid.wf(),
        laws::history_bounded(s.grid),
    ensures
        keeps_shape(s.grid, s.perform(action).grid),
        laws::history_bounded(s.perform(action).grid),
{
    laws::law_history_stays_bounded(s, action);
    match action {
        ActionState::Print(c) => lemma_put(s.grid, c),
        ActionState::Execute(byte) => lemma_execute(s.grid, byte),
        ActionState::Csi { params, intermediates, c } => {
            let flat = params.flatten();
            lemma_csi_effect(s.grid.ready_for(flat, intermediates, c), flat, intermediates, c);
        },
        ActionState::Esc { intermediates, byte } => lemma_esc(s.grid, intermediates, byte),
        ActionState::Osc { parts } => {},
    }
}

proof fn lemma_reshaped(
    screen: Seq<Seq<cell::Cell>>,
    old_cols: int,
    cy: int,
    above: Seq<Seq<cell::Cell>>,
    cols: int,
    rows: int,
)
    requires
        0 <= cy < screen.len(),
        1 <= cols,
        1 <= rows,
        above.len() <= model::monus(rows, screen.len() as int),
    ensures
        ({
            let next = model::reshaped(screen, old_cols, cy, above, cols, rows);
            &&& next.len() == rows
            &&& forall|y: int| 0 <= y < rows ==> (#[trigger] next[y]).len() == cols
        }),
{
}

proof fn lemma_reshape_to(s: GridState, cols: int, rows: int)
    requires
        s.wf(),
        s.view_offset == 0,
        1 <= cols,
        1 <= rows,
    ensures
        s.reshape_to(cols, rows).wf(),
{
    let left = s.history.len() - s.pulled(rows);
    lemma_reshaped(s.screen, s.cols, s.cy, s.history.skip(left), cols, rows);
    if let Some(p) = s.parked {
        lemma_reshaped(p.screen, s.cols, p.cy, Seq::empty(), cols, rows);
    }
}

/// Resizing, to any size, keeps all of that too: the screens have the size that
/// was asked for, of at least one cell. Resizing to the size there is changes
/// nothing.
pub proof fn law_resize_keeps_the_invariant(s: GridState, cols: int, rows: int)
    requires
        s.wf(),
        laws::history_bounded(s),
    ensures
        ({
            let t = s.resize(cols, rows);
            &&& t.wf()
            &&& t.cols == model::max(cols, 1)
            &&& t.rows == model::max(rows, 1)
            &&& laws::history_bounded(t)
            &&& t.cols == s.cols && t.rows == s.rows ==> t == s
        }),
{
    laws::law_resize_keeps_history_bounded(s, cols, rows);
    let (c, r) = (model::max(cols, 1), model::max(rows, 1));
    if !(c == s.cols && r == s.rows) {
        lemma_reshape_to(s.with_view_offset(0).keep_lost(r), c, r);
    }
}

} // verus!
