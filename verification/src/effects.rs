//! What the control functions are for, cell by cell.
//!
//! Each law here speaks of what is sent and of what is then on the screen, in
//! plain terms: cells, rows and numbers.

use crate::base64;
use crate::bounds;
use crate::cell::{Cell, Color};
use crate::laws;
use crate::model::GridState;
use crate::sequences::{ActionState, TermState};
use crate::text;
use vstd::prelude::*;

verus! {

/// The terminal once it was sent a control sequence.
pub open spec fn sent(s: TermState, params: Seq<Seq<u16>>, marks: Seq<u8>, c: char) -> TermState {
    s.perform(ActionState::Csi { params, intermediates: marks, c })
}

/// The number that parameter `i` stands for where it is a count or a position,
/// sub-parameters counting as parameters: one where it is missing or zero.
pub open spec fn number_in(params: Seq<Seq<u16>>, i: int) -> int {
    let flat = params.flatten();
    if i < flat.len() && flat[i] != 0 { flat[i] as int } else { 1 }
}

/// The number that the first parameter stands for where it chooses a variant:
/// zero where it is missing.
pub open spec fn choice_in(params: Seq<Seq<u16>>) -> int {
    let flat = params.flatten();
    if flat.len() > 0 { flat[0] as int } else { 0 }
}

/// Whether `to` is `by` away from `from`, or as far as `0..=last` goes.
pub open spec fn reaches(from: int, by: int, to: int, last: int) -> bool {
    &&& 0 <= to <= last
    &&& to == from + by || (to == 0 && from + by < 0) || (to == last && from + by > last)
}

/// Whether `t` is `s` but for the cursor's place, with no wrap pending.
pub open spec fn only_moved(s: GridState, t: GridState) -> bool {
    t == GridState { cx: t.cx, cy: t.cy, wrap_pending: false, ..s }
}

/// CUU and CUD move the cursor by as many rows as they say, and no further than
/// the edge of the screen; CPL and CNL go to the start of the line as well. VPR
/// is CUD.
pub proof fn law_the_cursor_moves_by_rows(s: TermState, params: Seq<Seq<u16>>, marks: Seq<u8>)
    requires
        s.grid.wf(),
    ensures
        ({
            let n = number_in(params, 0);
            let g = s.grid;
            let up = sent(s, params, marks, 'A').grid;
            let down = sent(s, params, marks, 'B').grid;
            &&& only_moved(g, up) && up.cx == g.cx && reaches(g.cy, -n, up.cy, g.rows - 1)
            &&& only_moved(g, down) && down.cx == g.cx && reaches(g.cy, n, down.cy, g.rows - 1)
            &&& sent(s, params, marks, 'e').grid == down
            &&& sent(s, params, marks, 'F').grid == GridState { cx: 0, ..up }
            &&& sent(s, params, marks, 'E').grid == GridState { cx: 0, ..down }
        }),
{
    let g = settled(s.grid);
    let n = number_in(params, 0);
    lemma_effect(s, params, marks, 'A');
    lemma_effect(s, params, marks, 'B');
    lemma_effect(s, params, marks, 'e');
    lemma_effect(s, params, marks, 'E');
    lemma_effect(s, params, marks, 'F');
    assert(sent(s, params, marks, 'A').grid == g.cursor_up(n));
    assert(sent(s, params, marks, 'B').grid == g.cursor_down(n));
    assert(sent(s, params, marks, 'e').grid == g.cursor_down(n));
    assert(sent(s, params, marks, 'E').grid == g.with_cx(0).cursor_down(n));
    assert(sent(s, params, marks, 'F').grid == g.with_cx(0).cursor_up(n));
}

/// CUF and CUB move the cursor by as many columns as they say, and no further
/// than the edge of the screen. HPR is CUF.
pub proof fn law_the_cursor_moves_by_columns(s: TermState, params: Seq<Seq<u16>>, marks: Seq<u8>)
    requires
        s.grid.wf(),
    ensures
        ({
            let n = number_in(params, 0);
            let g = s.grid;
            let right = sent(s, params, marks, 'C').grid;
            let left = sent(s, params, marks, 'D').grid;
            &&& only_moved(g, right) && right.cy == g.cy && reaches(g.cx, n, right.cx, g.cols - 1)
            &&& only_moved(g, left) && left.cy == g.cy && reaches(g.cx, -n, left.cx, g.cols - 1)
            &&& sent(s, params, marks, 'a').grid == right
        }),
{
    let g = settled(s.grid);
    let n = number_in(params, 0);
    lemma_effect(s, params, marks, 'C');
    lemma_effect(s, params, marks, 'a');
    lemma_effect(s, params, marks, 'D');
    assert(sent(s, params, marks, 'C').grid == g.cursor_right(n));
    assert(sent(s, params, marks, 'a').grid == g.cursor_right(n));
    assert(sent(s, params, marks, 'D').grid == g.cursor_left(n));
}

/// The terminal without a pending wrap.
pub open spec fn settled(g: GridState) -> GridState {
    GridState { wrap_pending: false, ..g }
}

/// A control sequence that moves or draws drops a pending wrap first.
proof fn lemma_effect(s: TermState, params: Seq<Seq<u16>>, marks: Seq<u8>, c: char)
    requires
        crate::sequences::moves_or_draws(c),
    ensures
        sent(s, params, marks, c).grid == settled(s.grid).csi_effect(params.flatten(), marks, c),
{
}

/// CUP sends the cursor to the row and the column it names, counting from one;
/// CHA sends it to a column and VPA to a row. Past the edge is at the edge.
pub proof fn law_the_cursor_goes_where_it_is_sent(
    s: TermState,
    params: Seq<Seq<u16>>,
    marks: Seq<u8>,
)
    requires
        s.grid.wf(),
    ensures
        ({
            let n = number_in(params, 0);
            let m = number_in(params, 1);
            let g = s.grid;
            let at = sent(s, params, marks, 'H').grid;
            let column = sent(s, params, marks, 'G').grid;
            let row = sent(s, params, marks, 'd').grid;
            &&& only_moved(g, at)
            &&& reaches(0, n - 1, at.cy, g.rows - 1)
            &&& reaches(0, m - 1, at.cx, g.cols - 1)
            &&& only_moved(g, column) && column.cy == g.cy
            &&& reaches(0, n - 1, column.cx, g.cols - 1)
            &&& only_moved(g, row) && row.cx == g.cx && reaches(0, n - 1, row.cy, g.rows - 1)
            &&& sent(s, params, marks, 'f').grid == at
            &&& sent(s, params, marks, '`').grid == column
        }),
{
}

/// A program that sends the cursor somewhere on the screen and asks where it is
/// is told just that.
pub proof fn law_the_cursor_is_where_it_was_sent(
    s: TermState,
    to: Seq<Seq<u16>>,
    ask: Seq<Seq<u16>>,
    row: u16,
    column: u16,
)
    requires
        s.grid.wf(),
        to.flatten() == seq![row, column],
        ask.flatten() == seq![6u16],
        1 <= row <= s.grid.rows,
        1 <= column <= s.grid.cols,
    ensures
        ({
            let there = sent(s, to, Seq::empty(), 'H');
            let told = sent(there, ask, Seq::empty(), 'n');
            &&& told.grid == there.grid
            &&& told.reply == s.reply + seq![0x1bu8, '[' as u8] + text::decimal(row as nat)
                + seq![';' as u8] + text::decimal(column as nat) + seq!['R' as u8]
        }),
{
    let there = sent(s, to, Seq::empty(), 'H');
    let told = sent(there, ask, Seq::empty(), 'n');
    assert(there.reply =~= s.reply);
    assert(told.reply =~= s.reply + seq![0x1bu8, '[' as u8] + text::decimal(row as nat)
        + seq![';' as u8] + text::decimal(column as nat) + seq!['R' as u8]);
}

/// A blank cell on background `bg`.
pub open spec fn is_blank(cell: Cell, bg: Color) -> bool {
    cell.c == ' ' && cell.fg == Color::Default && cell.bg == bg && cell.flags == 0
}

/// Whether `row` is `cols` blank cells on background `bg`.
pub open spec fn is_blank_row(row: Seq<Cell>, cols: int, bg: Color) -> bool {
    row.len() == cols && forall|x: int| 0 <= x < cols ==> is_blank(#[trigger] row[x], bg)
}

/// Whether `t` is `s` with other text on its screen, and no wrap pending.
pub open spec fn only_redrawn(s: GridState, t: GridState) -> bool {
    t == GridState { screen: t.screen, wrap_pending: false, ..s }
}

/// Whether a cell comes before the cursor in reading order.
pub open spec fn before_cursor(s: GridState, x: int, y: int) -> bool {
    y < s.cy || (y == s.cy && x < s.cx)
}

/// Whether a cell is the one under the cursor.
pub open spec fn at_cursor(s: GridState, x: int, y: int) -> bool {
    y == s.cy && x == s.cx
}

/// Whether the cells of `t` for which `gone` holds are blank, in the current
/// background, and the others are as they were in `s`.
pub open spec fn erased(s: GridState, t: GridState, gone: spec_fn(int, int) -> bool) -> bool {
    forall|x: int, y: int|
        0 <= x < s.cols && 0 <= y < s.rows ==> if gone(x, y) {
            is_blank(#[trigger] t.screen[y][x], s.pen.bg)
        } else {
            t.screen[y][x] == s.screen[y][x]
        }
}

/// Whether the screen is a rectangle of the size it had.
pub open spec fn same_shape(s: GridState, t: GridState) -> bool {
    &&& t.screen.len() == s.rows
    &&& forall|y: int| 0 <= y < s.rows ==> (#[trigger] t.screen[y]).len() == s.cols
}

/// ED erases from the cursor to the end of the screen, or from its start up to
/// and including the cursor, or all of it. Nothing else is touched.
pub proof fn law_erasing_the_display(s: TermState, params: Seq<Seq<u16>>, marks: Seq<u8>)
    requires
        s.grid.wf(),
    ensures
        ({
            let g = s.grid;
            let t = sent(s, params, marks, 'J').grid;
            let mode = choice_in(params);
            &&& only_redrawn(g, t)
            &&& same_shape(g, t)
            &&& mode == 0 ==> erased(g, t, |x: int, y: int| !before_cursor(g, x, y))
            &&& mode == 1 ==> erased(
                g,
                t,
                |x: int, y: int| before_cursor(g, x, y) || at_cursor(g, x, y),
            )
            &&& mode == 2 || mode == 3 ==> erased(g, t, |x: int, y: int| true)
            &&& mode > 3 ==> t.screen == g.screen
        }),
{
    let g = settled(s.grid);
    let mode = choice_in(params) as u16;
    lemma_effect(s, params, marks, 'J');
    assert(sent(s, params, marks, 'J').grid == g.erase_in_display(mode));
    let h = s.grid;
    let t = g.erase_in_display(mode);
    if mode == 0 {
        lemma_erase_below(g);
        lemma_erased_alike(
            h,
            g,
            t,
            |x: int, y: int| !before_cursor(g, x, y),
            |x: int, y: int| !before_cursor(h, x, y),
        );
    } else if mode == 1 {
        lemma_erase_above(g);
        lemma_erased_alike(
            h,
            g,
            t,
            |x: int, y: int| before_cursor(g, x, y) || at_cursor(g, x, y),
            |x: int, y: int| before_cursor(h, x, y) || at_cursor(h, x, y),
        );
    } else if mode == 2 || mode == 3 {
        lemma_erase_all(g, mode);
        lemma_erased_alike(h, g, t, |x: int, y: int| true, |x: int, y: int| true);
    }
}

proof fn lemma_erase_below(g: GridState)
    requires
        g.wf(),
    ensures
        only_redrawn(settled(g), settled(g.erase_in_display(0))),
        same_shape(g, g.erase_in_display(0)),
        erased(g, g.erase_in_display(0), |x: int, y: int| !before_cursor(g, x, y)),
{
    let t = g.erase_in_display(0);
    assert forall|y: int| 0 <= y < g.rows implies (#[trigger] t.screen[y]).len() == g.cols by {
        assert(g.screen[y].len() == g.cols);
    }
}

proof fn lemma_erase_above(g: GridState)
    requires
        g.wf(),
    ensures
        only_redrawn(settled(g), settled(g.erase_in_display(1))),
        same_shape(g, g.erase_in_display(1)),
        erased(
            g,
            g.erase_in_display(1),
            |x: int, y: int| before_cursor(g, x, y) || at_cursor(g, x, y),
        ),
{
    let t = g.erase_in_display(1);
    assert forall|y: int| 0 <= y < g.rows implies (#[trigger] t.screen[y]).len() == g.cols by {
        assert(g.screen[y].len() == g.cols);
    }
}

proof fn lemma_erase_all(g: GridState, mode: u16)
    requires
        g.wf(),
        mode == 2 || mode == 3,
    ensures
        only_redrawn(settled(g), settled(g.erase_in_display(mode))),
        same_shape(g, g.erase_in_display(mode)),
        erased(g, g.erase_in_display(mode), |x: int, y: int| true),
{
}

proof fn lemma_erase_span(g: GridState, from: int, to: int)
    requires
        g.wf(),
        0 <= from <= to <= g.cols,
    ensures
        only_redrawn(settled(g), settled(g.erase_span(from, to))),
        same_shape(g, g.erase_span(from, to)),
        erased(g, g.erase_span(from, to), |x: int, y: int| y == g.cy && from <= x < to),
{
    let t = g.erase_span(from, to);
    assert forall|y: int| 0 <= y < g.rows implies (#[trigger] t.screen[y]).len() == g.cols by {
        assert(g.screen[y].len() == g.cols);
    }
}

/// Cells are erased by where they are.
proof fn lemma_erased_alike(
    s: GridState,
    g: GridState,
    t: GridState,
    a: spec_fn(int, int) -> bool,
    b: spec_fn(int, int) -> bool,
)
    requires
        erased(g, t, a),
        g == settled(s),
        forall|x: int, y: int| 0 <= x < s.cols && 0 <= y < s.rows ==> a(x, y) == #[trigger] b(x, y),
    ensures
        erased(s, t, b),
{
    assert forall|x: int, y: int| 0 <= x < s.cols && 0 <= y < s.rows implies if b(x, y) {
        is_blank(#[trigger] t.screen[y][x], s.pen.bg)
    } else {
        t.screen[y][x] == s.screen[y][x]
    } by {
        assert(a(x, y) == b(x, y));
        assert(t.screen[y][x] == t.screen[y][x]);
    }
}

/// EL does the same within the cursor's line.
pub proof fn law_erasing_the_line(s: TermState, params: Seq<Seq<u16>>, marks: Seq<u8>)
    requires
        s.grid.wf(),
    ensures
        ({
            let g = s.grid;
            let t = sent(s, params, marks, 'K').grid;
            let mode = choice_in(params);
            &&& only_redrawn(g, t)
            &&& same_shape(g, t)
            &&& mode == 0 ==> erased(g, t, |x: int, y: int| y == g.cy && x >= g.cx)
            &&& mode == 1 ==> erased(g, t, |x: int, y: int| y == g.cy && x <= g.cx)
            &&& mode == 2 ==> erased(g, t, |x: int, y: int| y == g.cy)
            &&& mode > 2 ==> t.screen == g.screen
        }),
{
    let g = settled(s.grid);
    let mode = choice_in(params) as u16;
    lemma_effect(s, params, marks, 'K');
    let t = sent(s, params, marks, 'K').grid;
    assert(t == g.erase_in_line(mode));
    let (from, to) = if mode == 0 {
        (g.cx, g.cols)
    } else if mode == 1 {
        (0, g.cx + 1)
    } else {
        (0, g.cols)
    };
    if mode <= 2 {
        lemma_erase_span(g, from, to);
        let a = |x: int, y: int| y == g.cy && from <= x < to;
        let h = s.grid;
        if mode == 0 {
            lemma_erased_alike(h, g, t, a, |x: int, y: int| y == h.cy && x >= h.cx);
        } else if mode == 1 {
            lemma_erased_alike(h, g, t, a, |x: int, y: int| y == h.cy && x <= h.cx);
        } else {
            lemma_erased_alike(h, g, t, a, |x: int, y: int| y == h.cy);
        }
    }
}

/// ECH erases as many cells as it says from the cursor on, within its line.
pub proof fn law_erasing_characters(s: TermState, params: Seq<Seq<u16>>, marks: Seq<u8>)
    requires
        s.grid.wf(),
    ensures
        ({
            let g = s.grid;
            let t = sent(s, params, marks, 'X').grid;
            let n = number_in(params, 0);
            &&& only_redrawn(g, t)
            &&& same_shape(g, t)
            &&& erased(g, t, |x: int, y: int| y == g.cy && g.cx <= x < g.cx + n)
        }),
{
    let h = s.grid;
    let g = settled(h);
    let n = number_in(params, 0);
    lemma_effect(s, params, marks, 'X');
    let t = sent(s, params, marks, 'X').grid;
    let to = if n < g.cols - g.cx { g.cx + n } else { g.cols };
    assert(t == g.erase_span(g.cx, to));
    lemma_erase_span(g, g.cx, to);
    lemma_erased_alike(
        h,
        g,
        t,
        |x: int, y: int| y == g.cy && g.cx <= x < to,
        |x: int, y: int| y == h.cy && h.cx <= x < h.cx + n,
    );
}

/// DCH closes a gap of as many cells as it says at the cursor: what was right of
/// them is where they were, and blanks come in at the end of the line.
pub proof fn law_deleting_characters(
    s: TermState,
    params: Seq<Seq<u16>>,
    marks: Seq<u8>,
    x: int,
    y: int,
)
    requires
        s.grid.wf(),
        0 <= x < s.grid.cols,
        0 <= y < s.grid.rows,
    ensures
        ({
            let g = s.grid;
            let t = sent(s, params, marks, 'P').grid;
            let n = number_in(params, 0);
            &&& only_redrawn(g, t)
            &&& t.screen.len() == g.rows && t.screen[y].len() == g.cols
            &&& y != g.cy || x < g.cx ==> t.screen[y][x] == g.screen[y][x]
            &&& y == g.cy && g.cx <= x && x + n < g.cols ==> t.screen[y][x] == g.screen[y][x + n]
            &&& y == g.cy && g.cx <= x && g.cols <= x + n ==> is_blank(t.screen[y][x], g.pen.bg)
        }),
{
    assert(s.grid.screen[y].len() == s.grid.cols);
    assert(s.grid.screen[s.grid.cy].len() == s.grid.cols);
}

/// ICH opens a gap of as many blanks as it says at the cursor: what was there is
/// right of them, and what is pushed past the end of the line is lost.
pub proof fn law_inserting_blanks(
    s: TermState,
    params: Seq<Seq<u16>>,
    marks: Seq<u8>,
    x: int,
    y: int,
)
    requires
        s.grid.wf(),
        0 <= x < s.grid.cols,
        0 <= y < s.grid.rows,
    ensures
        ({
            let g = s.grid;
            let t = sent(s, params, marks, '@').grid;
            let n = number_in(params, 0);
            &&& only_redrawn(g, t)
            &&& t.screen.len() == g.rows && t.screen[y].len() == g.cols
            &&& y != g.cy || x < g.cx ==> t.screen[y][x] == g.screen[y][x]
            &&& y == g.cy && g.cx <= x < g.cx + n ==> is_blank(t.screen[y][x], g.pen.bg)
            &&& y == g.cy && g.cx + n <= x ==> t.screen[y][x] == g.screen[y][x - n]
        }),
{
    assert(s.grid.screen[y].len() == s.grid.cols);
    assert(s.grid.screen[s.grid.cy].len() == s.grid.cols);
}

/// Whether rows `top..=bot` of `s` are `n` rows further up in `t`, blank rows
/// follow them there, and the other rows are where they were.
pub open spec fn moved_up(s: GridState, t: GridState, top: int, n: int) -> bool {
    &&& t.screen.len() == s.rows
    &&& forall|y: int|
        0 <= y < s.rows ==> if y < top || s.bot < y {
            #[trigger] t.screen[y] == s.screen[y]
        } else if y + n <= s.bot {
            t.screen[y] == s.screen[y + n]
        } else {
            is_blank_row(t.screen[y], s.cols, s.pen.bg)
        }
}

/// Whether rows `top..=bot` of `s` are `n` rows further down in `t`, blank rows
/// precede them there, and the other rows are where they were.
pub open spec fn moved_down(s: GridState, t: GridState, top: int, n: int) -> bool {
    &&& t.screen.len() == s.rows
    &&& forall|y: int|
        0 <= y < s.rows ==> if y < top || s.bot < y {
            #[trigger] t.screen[y] == s.screen[y]
        } else if top <= y - n {
            t.screen[y] == s.screen[y - n]
        } else {
            is_blank_row(t.screen[y], s.cols, s.pen.bg)
        }
}

/// Line `i` of the history of `s` followed by its screen.
pub open spec fn line_of(s: GridState, i: int) -> Seq<Cell> {
    if i < s.history.len() { s.history[i] } else { s.screen[i - s.history.len()] }
}

/// Whether the first `n` rows of the screen of `s` became history in `t`, whose
/// oldest lines went where there were too many.
pub open spec fn kept_as_history(s: GridState, t: GridState, n: int) -> bool {
    &&& s.max_history < s.history.len() + n ==> t.history.len() == s.max_history
    &&& s.history.len() + n <= s.max_history ==> t.history.len() == s.history.len() + n
    &&& t.trimmed + t.history.len() == s.trimmed + s.history.len() + n
    &&& forall|i: int|
        0 <= i < t.history.len() ==> #[trigger] t.history[i] == line_of(
            s,
            i + t.trimmed - s.trimmed,
        )
}

/// Whether scrolling from row `top` on is scrolling of the whole main screen.
pub open spec fn whole_screen(s: GridState, top: int) -> bool {
    top == 0 && s.bot == s.rows - 1 && s.parked is None
}

/// Whether `t` is `s` with the text from row `top` to the end of the scroll
/// region moved up by `n`. Where that is the whole main screen, what leaves it
/// becomes history, and a viewport that shows the history stays on its lines as
/// long as they are held.
pub open spec fn scrolled_up(s: GridState, t: GridState, top: int, n: int) -> bool {
    let k = if n < s.bot - top + 1 { n } else { s.bot - top + 1 };
    &&& t == GridState {
        screen: t.screen,
        history: t.history,
        trimmed: t.trimmed,
        view_offset: t.view_offset,
        ..s
    }
    &&& moved_up(s, t, top, k)
    &&& if whole_screen(s, top) {
        &&& kept_as_history(s, t, k)
        &&& s.view_offset == 0 ==> t.view_offset == 0
        &&& s.view_offset > 0 ==> reaches(
            s.view_offset,
            k,
            t.view_offset,
            t.history.len() as int,
        )
    } else {
        t.history == s.history && t.trimmed == s.trimmed && t.view_offset == s.view_offset
    }
}

/// Whether `t` is `s` with the text from row `top` to the end of the scroll
/// region moved down by `n`.
pub open spec fn scrolled_down(s: GridState, t: GridState, top: int, n: int) -> bool {
    let k = if n < s.bot - top + 1 { n } else { s.bot - top + 1 };
    &&& t == GridState { screen: t.screen, ..s }
    &&& moved_down(s, t, top, k)
}

proof fn lemma_moved_up(g: GridState, n: int)
    requires
        g.wf(),
        1 <= n <= g.bot - g.top + 1,
    ensures
        moved_up(g, g.shift_up(n), g.top, n),
{
}

proof fn lemma_fed(g: GridState, n: int)
    requires
        g.wf(),
        1 <= n <= g.rows,
    ensures
        kept_as_history(g, g.feed_history(n), n),
{
    let t = g.feed_history(n);
    let all = g.history + g.screen.take(n);
    assert forall|i: int| 0 <= i < t.history.len() implies #[trigger] t.history[i] == line_of(
        g,
        i + t.trimmed - g.trimmed,
    ) by {
        assert(t.history[i] == all[i + t.trimmed - g.trimmed]);
    }
}

/// Moving the text of a terminal looks at nothing but that text.
proof fn lemma_same_text(g: GridState, fed: GridState, n: int)
    requires
        fed == (GridState {
            history: fed.history,
            trimmed: fed.trimmed,
            view_offset: fed.view_offset,
            ..g
        }),
    ensures
        fed.shift_up(n) == (GridState { screen: g.shift_up(n).screen, ..fed }),
{
}

proof fn lemma_scroll_up(g: GridState, n: int)
    requires
        g.wf(),
        1 <= n,
    ensures
        scrolled_up(g, g.scroll_up(n), g.top, n),
{
    let k = if n < g.bot - g.top + 1 { n } else { g.bot - g.top + 1 };
    if whole_screen(g, g.top) {
        lemma_scroll_fed(g, k);
    } else {
        lemma_moved_up(g, k);
    }
}

proof fn lemma_scroll_fed(g: GridState, n: int)
    requires
        g.wf(),
        1 <= n <= g.bot - g.top + 1,
        whole_screen(g, g.top),
    ensures
        scrolled_up(g, g.feed_history(n).shift_up(n), g.top, n),
{
    let fed = g.feed_history(n);
    let t = fed.shift_up(n);
    lemma_moved_up(g, n);
    lemma_same_text(g, fed, n);
    lemma_fed(g, n);
    assert(t.history == fed.history && t.trimmed == fed.trimmed);
    assert(kept_as_history(g, t, n)) by {
        assert forall|i: int| 0 <= i < t.history.len() implies #[trigger] t.history[i] == line_of(
            g,
            i + t.trimmed - g.trimmed,
        ) by {
            assert(fed.history[i] == line_of(g, i + fed.trimmed - g.trimmed));
        }
    }
    assert(moved_up(g, t, g.top, n)) by {
        assert(t.screen == g.shift_up(n).screen);
        assert(moved_up(g, g.shift_up(n), g.top, n));
    }
}

proof fn lemma_scroll_down(g: GridState, n: int)
    requires
        g.wf(),
        1 <= n,
    ensures
        scrolled_down(g, g.scroll_down(n), g.top, n),
{
}

/// Scrolling from a row in the middle of the region on.
proof fn lemma_scroll_from(g: GridState, top: int, n: int, t: GridState)
    requires
        ({
            let from = GridState { top, ..g };
            &&& g.wf()
            &&& g.top <= top <= g.bot
            &&& scrolled_up(from, t, top, n)
        }),
    ensures
        scrolled_up(g, GridState { top: g.top, ..t }, top, n),
{
    let from = GridState { top, ..g };
    let u = GridState { top: g.top, ..t };
    let k = if n < g.bot - top + 1 { n } else { g.bot - top + 1 };
    assert(moved_up(from, t, top, k));
    assert forall|y: int| 0 <= y < g.rows implies if y < top || g.bot < y {
        #[trigger] u.screen[y] == g.screen[y]
    } else if y + k <= g.bot {
        u.screen[y] == g.screen[y + k]
    } else {
        is_blank_row(u.screen[y], g.cols, g.pen.bg)
    } by {
        assert(t.screen[y] == u.screen[y]);
    }
    if whole_screen(g, top) {
        assert(kept_as_history(from, t, k));
        assert forall|i: int| 0 <= i < u.history.len() implies #[trigger] u.history[i] == line_of(
            g,
            i + u.trimmed - g.trimmed,
        ) by {
            assert(t.history[i] == line_of(from, i + t.trimmed - from.trimmed));
        }
    }
}

proof fn lemma_scroll_down_from(g: GridState, top: int, n: int, t: GridState)
    requires
        ({
            let from = GridState { top, ..g };
            &&& g.wf()
            &&& g.top <= top <= g.bot
            &&& scrolled_down(from, t, top, n)
        }),
    ensures
        scrolled_down(g, GridState { top: g.top, ..t }, top, n),
{
    let from = GridState { top, ..g };
    let u = GridState { top: g.top, ..t };
    let k = if n < g.bot - top + 1 { n } else { g.bot - top + 1 };
    assert(moved_down(from, t, top, k));
    assert forall|y: int| 0 <= y < g.rows implies if y < top || g.bot < y {
        #[trigger] u.screen[y] == g.screen[y]
    } else if top <= y - k {
        u.screen[y] == g.screen[y - k]
    } else {
        is_blank_row(u.screen[y], g.cols, g.pen.bg)
    } by {
        assert(t.screen[y] == u.screen[y]);
    }
}

/// SU moves the text of the scroll region up, and SD moves it down.
pub proof fn law_scrolling_the_region(s: TermState, params: Seq<Seq<u16>>, marks: Seq<u8>)
    requires
        s.grid.wf(),
    ensures
        ({
            let n = number_in(params, 0);
            let g = settled(s.grid);
            &&& scrolled_up(g, sent(s, params, marks, 'S').grid, g.top, n)
            &&& scrolled_down(g, sent(s, params, marks, 'T').grid, g.top, n)
        }),
{
    let n = number_in(params, 0);
    let g = settled(s.grid);
    lemma_effect(s, params, marks, 'S');
    lemma_effect(s, params, marks, 'T');
    lemma_scroll_up(g, n);
    lemma_scroll_down(g, n);
    assert(sent(s, params, marks, 'S').grid == g.scroll_up(n));
    assert(sent(s, params, marks, 'T').grid == g.scroll_down(n));
}

/// DL takes the cursor's line and those after it out of the scroll region, and
/// IL puts blank ones in there; the lines below move. Outside the scroll region
/// they do nothing.
pub proof fn law_deleting_and_inserting_lines(
    s: TermState,
    params: Seq<Seq<u16>>,
    marks: Seq<u8>,
)
    requires
        s.grid.wf(),
    ensures
        ({
            let n = number_in(params, 0);
            let g = settled(s.grid);
            let deleted = sent(s, params, marks, 'M').grid;
            let inserted = sent(s, params, marks, 'L').grid;
            if g.top <= g.cy <= g.bot {
                &&& scrolled_up(g, deleted, g.cy, n)
                &&& scrolled_down(g, inserted, g.cy, n)
            } else {
                &&& deleted == g
                &&& inserted == g
            }
        }),
{
    let n = number_in(params, 0);
    let g = settled(s.grid);
    lemma_effect(s, params, marks, 'M');
    lemma_effect(s, params, marks, 'L');
    lemma_delete_lines(g, n);
    lemma_insert_lines(g, n);
    assert(sent(s, params, marks, 'M').grid == g.delete_lines(n));
    assert(sent(s, params, marks, 'L').grid == g.insert_lines(n));
}

proof fn lemma_delete_lines(g: GridState, n: int)
    requires
        g.wf(),
        1 <= n,
    ensures
        if g.top <= g.cy <= g.bot {
            scrolled_up(g, g.delete_lines(n), g.cy, n)
        } else {
            g.delete_lines(n) == g
        },
{
    if g.top <= g.cy <= g.bot {
        let from = GridState { top: g.cy, ..g };
        lemma_scroll_up(from, n);
        lemma_scroll_from(g, g.cy, n, from.scroll_up(n));
    }
}

proof fn lemma_insert_lines(g: GridState, n: int)
    requires
        g.wf(),
        1 <= n,
    ensures
        if g.top <= g.cy <= g.bot {
            scrolled_down(g, g.insert_lines(n), g.cy, n)
        } else {
            g.insert_lines(n) == g
        },
{
    if g.top <= g.cy <= g.bot {
        let from = GridState { top: g.cy, ..g };
        lemma_scroll_down(from, n);
        lemma_scroll_down_from(g, g.cy, n, from.scroll_down(n));
    }
}

/// Whether `t` is `s` with the cursor a line further down: on the next row, or,
/// where the cursor is at the bottom of the scroll region, with the region
/// scrolled up by one. On the last row below the region there is nowhere to go.
pub open spec fn line_fed(s: GridState, t: GridState) -> bool {
    if s.cy == s.bot {
        scrolled_up(s, t, s.top, 1)
    } else {
        t == GridState { cy: t.cy, ..s } && reaches(s.cy, 1, t.cy, s.rows - 1)
    }
}

/// LF, VT and FF feed a line and stay in the column; so does IND, which leaves a
/// pending wrap. NEL goes to the start of the line first.
pub proof fn law_line_feeds(s: TermState, byte: u8)
    requires
        s.grid.wf(),
        0x0a <= byte <= 0x0c,
    ensures
        line_fed(settled(s.grid), s.perform(ActionState::Execute(byte)).grid),
        line_fed(
            s.grid,
            s.perform(
                ActionState::Esc { intermediates: Seq::empty(), byte: 'D' as u8 },
            ).grid,
        ),
        line_fed(
            GridState { cx: 0, ..s.grid },
            s.perform(
                ActionState::Esc { intermediates: Seq::empty(), byte: 'E' as u8 },
            ).grid,
        ),
{
    lemma_line_fed(settled(s.grid));
    lemma_line_fed(s.grid);
    lemma_line_fed(GridState { cx: 0, ..s.grid });
    assert(s.perform(ActionState::Execute(byte)).grid == settled(s.grid).newline());
}

proof fn lemma_line_fed(g: GridState)
    requires
        g.wf(),
    ensures
        line_fed(g, g.newline()),
{
    lemma_scroll_up(g, 1);
}

/// RI goes a row up, and scrolls the region down at its top.
pub proof fn law_reverse_index(s: TermState)
    requires
        s.grid.wf(),
    ensures
        ({
            let g = s.grid;
            let t = s.perform(
                ActionState::Esc { intermediates: Seq::empty(), byte: 'M' as u8 },
            ).grid;
            if g.cy == g.top {
                scrolled_down(g, t, g.top, 1)
            } else {
                t == GridState { cy: t.cy, ..g } && reaches(g.cy, -1, t.cy, g.rows - 1)
            }
        }),
{
}

/// CR goes to the start of the line, BS one column back, and HT to the next
/// column whose number is a multiple of eight; none of them leaves the line.
/// The bell rings and does nothing else.
pub proof fn law_single_controls(s: TermState)
    requires
        s.grid.wf(),
    ensures
        ({
            let g = s.grid;
            let home = s.perform(ActionState::Execute(0x0d)).grid;
            let back = s.perform(ActionState::Execute(0x08)).grid;
            let tab = s.perform(ActionState::Execute(0x09)).grid;
            &&& only_moved(g, home) && home.cx == 0 && home.cy == g.cy
            &&& only_moved(g, back) && back.cy == g.cy && reaches(g.cx, -1, back.cx, g.cols - 1)
            &&& only_moved(g, tab) && tab.cy == g.cy
            &&& g.cx <= tab.cx < g.cols && tab.cx <= g.cx + 8
            &&& tab.cx < g.cols - 1 ==> g.cx < tab.cx && tab.cx % 8 == 0
            &&& forall|x: int| g.cx < x < tab.cx ==> #[trigger] (x % 8) != 0
            &&& s.perform(ActionState::Execute(0x07)).grid == GridState { bell: true, ..g }
        }),
{
}

/// Any other single control does nothing.
pub proof fn law_other_controls_do_nothing(s: TermState, byte: u8)
    requires
        byte < 0x07 || 0x0f < byte,
    ensures
        s.perform(ActionState::Execute(byte)) == s,
{
}

/// DECSTBM makes the rows it names the scroll region, counting from one, and
/// sends the cursor to the start of its first row; a missing last row is the
/// bottom of the screen. Fewer than two rows, or rows that are not there, are
/// not a region, and nothing changes.
pub proof fn law_setting_the_scroll_region(
    s: TermState,
    params: Seq<Seq<u16>>,
    marks: Seq<u8>,
)
    requires
        s.grid.wf(),
        s.grid.rows < 0x1_0000,
    ensures
        ({
            let g = settled(s.grid);
            let t = sent(s, params, marks, 'r').grid;
            let flat = params.flatten();
            let first = number_in(params, 0);
            let last = if flat.len() > 1 && flat[1] != 0 { flat[1] as int } else { g.rows };
            if first < last && last <= g.rows {
                t == GridState { top: first - 1, bot: last - 1, cx: 0, cy: first - 1, ..g }
            } else {
                t == g
            }
        }),
{
}

/// Whatever is sent is carried out, as long as the lines it may scroll off can
/// still be counted in a machine word.
pub proof fn law_what_is_sent_is_carried_out(s: TermState, action: ActionState)
    requires
        s.grid.wf(),
        s.grid.trimmed + s.grid.history.len() + s.grid.rows + 1 <= usize::MAX,
    ensures
        s.attempt(action) == s.perform(action),
{
    reveal(TermState::attempt);
}

/// The same of a whole stream: everything in it is carried out.
pub proof fn law_a_stream_is_carried_out(s: TermState, actions: Seq<ActionState>)
    requires
        s.grid.wf(),
        s.grid.trimmed + s.grid.history.len() + actions.len() * (s.grid.rows + 1) <= usize::MAX,
        laws::history_bounded(s.grid),
    ensures
        s.perform_fitting(actions, actions.len() as int) == s.perform_all(
            actions,
            actions.len() as int,
        ),
{
    lemma_stream(s, actions, actions.len() as int);
}

proof fn lemma_stream(s: TermState, actions: Seq<ActionState>, n: int)
    requires
        s.grid.wf(),
        laws::history_bounded(s.grid),
        0 <= n <= actions.len(),
        s.grid.total() + n * (s.grid.rows + 1) <= usize::MAX,
    ensures
        ({
            let t = s.perform_all(actions, n);
            &&& s.perform_fitting(actions, n) == t
            &&& t.grid.wf()
            &&& t.grid.rows == s.grid.rows
            &&& laws::history_bounded(t.grid)
            &&& t.grid.total() <= s.grid.total() + n * (s.grid.rows + 1)
        }),
    decreases n,
{
    let each = s.grid.rows + 1;
    if n > 0 {
        assert(n * each == (n - 1) * each + each) by (nonlinear_arith);
        lemma_stream(s, actions, n - 1);
        let t = s.perform_all(actions, n - 1);
        let action = actions[n - 1];
        bounds::law_every_action_keeps_the_invariant(t, action);
        t.lemma_perform_total(action);
        law_what_is_sent_is_carried_out(t, action);
    } else {
        assert(0 * each == 0);
    }
}

/// Actions are carried out in the order they come in, each on what the ones
/// before it left.
pub proof fn law_actions_come_in_order(s: TermState, actions: Seq<ActionState>, last: ActionState)
    ensures
        s.perform_all(actions.push(last), actions.len() as int + 1) == s.perform_all(
            actions,
            actions.len() as int,
        ).perform(last),
        s.perform_all(Seq::empty(), 0) == s,
{
    let n = actions.len() as int;
    lemma_prefix(s, actions, last, n);
    assert(actions.push(last)[n] == last);
}

proof fn lemma_prefix(s: TermState, actions: Seq<ActionState>, last: ActionState, n: int)
    requires
        0 <= n <= actions.len(),
    ensures
        s.perform_all(actions.push(last), n) == s.perform_all(actions, n),
    decreases n,
{
    if n > 0 {
        lemma_prefix(s, actions, last, n - 1);
    }
}

/// A copy of up to eight mebibytes of base64 reaches the clipboard and nothing
/// else of the terminal; a longer one is not decoded.
pub proof fn law_copies_reach_the_clipboard(
    s: TermState,
    parts: Seq<Seq<u8>>,
    bytes: Seq<u8>,
)
    requires
        parts.len() > 2,
        parts[0] == seq![0x35u8, 0x32],
    ensures
        ({
            let t = s.perform(ActionState::Osc { parts });
            &&& base64::decoded(parts[2]) == Some(bytes) && parts[2].len() > 0 && parts[2].len()
                <= 8 * 1024 * 1024 ==> t == TermState {
                grid: GridState { clipboard: Some(text::lossy_text(bytes)), ..s.grid },
                ..s
            }
            &&& parts[2].len() > 8 * 1024 * 1024 ==> t == s
            &&& base64::decoded(parts[2]) is None ==> t == s
        }),
{
    assert(seq![0x35u8, 0x32].len() == 2);
    if parts[2] == seq!['?' as u8] {
        base64::law_other_characters('?' as u8, Seq::empty());
        assert(seq!['?' as u8] + Seq::<u8>::empty() =~= seq!['?' as u8]);
    }
}

} // verus!
