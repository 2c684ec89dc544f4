//! Terminal screen state: the cell grid and its scrollback.

use crate::cell::{self, Cell, Charset, Color, CursorShape, Pen};
use crate::model::{self, GridState, ParkedState, SavedCursor};
use crate::mouse::{Encoding as MouseEncoding, Tracking as MouseTracking};
use crate::rows;
use crate::width::{columns_for, width_of};
use vstd::prelude::*;

verus! {

/// The main screen while the alternate screen stands in for it, with its
/// cursor.
pub struct Parked {
    pub cells: Vec<Cell>,
    pub cx: usize,
    pub cy: usize,
}

/// The state that a parked screen of the given size stands for.
pub open spec fn parked_state(alt: Option<Parked>, cols: int, rows: int) -> Option<ParkedState> {
    match alt {
        Some(p) => Some(
            ParkedState {
                screen: rows::rows_of(p.cells@, cols, rows),
                cx: p.cx as int,
                cy: p.cy as int,
            },
        ),
        None => None,
    }
}

/// A parked screen is a rectangle with its cursor on it.
pub open spec fn parked_ok(alt: Option<Parked>, cols: int, rows: int) -> bool {
    alt matches Some(p) ==> {
        &&& rows::is_rect(p.cells@, cols, rows)
        &&& p.cx < cols
        &&& p.cy < rows
    }
}

/// A size that can be had can also be had with at least one cell.
proof fn lemma_at_least_one_cell(cols: usize, rows: usize)
    requires
        cols * rows <= usize::MAX,
    ensures
        model::max(cols as int, 1) * model::max(rows as int, 1) <= usize::MAX,
{
    assert(cols == 0 ==> model::max(cols as int, 1) * model::max(rows as int, 1) == model::max(
        rows as int,
        1,
    )) by (nonlinear_arith);
    assert(rows == 0 ==> model::max(cols as int, 1) * model::max(rows as int, 1) == model::max(
        cols as int,
        1,
    )) by (nonlinear_arith);
    assert(cols > 0 && rows > 0 ==> model::max(cols as int, 1) * model::max(rows as int, 1) == cols
        * rows) by (nonlinear_arith);
}

pub struct Grid {
    pub cols: usize,
    pub rows: usize,
    /// Row-major, `rows * cols` cells.
    pub cells: Vec<Cell>,
    /// Lines that have scrolled off the top. Front is oldest.
    pub scrollback: Vec<Vec<Cell>>,
    pub max_scrollback: usize,
    /// Lines dropped off the front of `scrollback` over the session. Added to
    /// a scrollback index it gives a row id that stays valid as history is
    /// trimmed, which is what selection coordinates are built on.
    pub trimmed: usize,
    /// How many lines up from the live screen the viewport is scrolled.
    pub view_offset: usize,
    pub cx: usize,
    pub cy: usize,
    pub cursor_visible: bool,
    pub cursor_shape: CursorShape,
    pub pen: Pen,
    pub saved: Option<SavedCursor>,
    /// The G0 and G1 character sets, and which of them SO/SI has mapped into
    /// the printable range.
    pub g0: Charset,
    pub g1: Charset,
    pub gl: usize,
    /// Scroll region, inclusive rows.
    pub top: usize,
    pub bot: usize,
    /// Set once the cursor has been pushed past the last column; the next
    /// printable character wraps first. (deferred wrap / "pending wrap" state)
    pub wrap_pending: bool,
    pub title: String,
    pub bell: bool,
    /// Text a program asked us to put on the system clipboard (OSC 52), waiting
    /// for the app to pick it up. Over ssh this is the only route a copy has:
    /// the program, tmux say, is on the far end, and its own paste buffer
    /// lives there with it.
    pub pending_clipboard: Option<String>,
    /// Application cursor keys (DECCKM): changes what arrow keys send.
    pub app_cursor_keys: bool,
    /// Bracketed paste (DECSET 2004). When the program asks for it, pasted
    /// text is wrapped in markers so it can tell a paste from typing.
    pub bracketed_paste: bool,
    /// Which mouse events the program wants (DECSET 1000/1002/1003).
    pub mouse_tracking: MouseTracking,
    /// How to spell them (DECSET 1006).
    pub mouse_encoding: MouseEncoding,
    /// Alternate scroll (DECSET 1007): may the wheel be turned into arrow keys
    /// on the alternate screen? On by default, which is what less and man
    /// expect; tmux turns it off once it handles the mouse itself.
    pub alternate_scroll: bool,
    /// Alternate screen buffer, saved main screen while active.
    pub alt: Option<Parked>,
    pub alt_active: bool,
    /// Whether the program that brought the alternate screen up has gone
    /// without putting it away.
    pub orphaned: bool,
}

impl View for Grid {
    type V = GridState;

    open spec fn view(&self) -> GridState {
        GridState {
            cols: self.cols as int,
            rows: self.rows as int,
            screen: rows::rows_of(self.cells@, self.cols as int, self.rows as int),
            history: rows::lines_of(self.scrollback@),
            max_history: self.max_scrollback as int,
            trimmed: self.trimmed as int,
            view_offset: self.view_offset as int,
            cx: self.cx as int,
            cy: self.cy as int,
            cursor_visible: self.cursor_visible,
            cursor_shape: self.cursor_shape,
            pen: self.pen,
            saved: self.saved,
            g0: self.g0,
            g1: self.g1,
            gl: self.gl as int,
            top: self.top as int,
            bot: self.bot as int,
            wrap_pending: self.wrap_pending,
            title: self.title@,
            bell: self.bell,
            clipboard: match self.pending_clipboard {
                Some(text) => Some(text@),
                None => None,
            },
            app_cursor_keys: self.app_cursor_keys,
            bracketed_paste: self.bracketed_paste,
            mouse_tracking: self.mouse_tracking,
            mouse_encoding: self.mouse_encoding,
            alternate_scroll: self.alternate_scroll,
            parked: parked_state(self.alt, self.cols as int, self.rows as int),
            orphaned: self.orphaned,
        }
    }
}

/// Moves the top `count` rows of `buf` into `scrollback`, trimming to `max` and
/// counting whatever is dropped so row ids stay valid.
fn archive(
    scrollback: &mut Vec<Vec<Cell>>,
    trimmed: &mut usize,
    max: usize,
    buf: &Vec<Cell>,
    cols: usize,
    rows: usize,
    count: usize,
)
    requires
        rows::is_rect(buf@, cols as int, rows as int),
        count <= rows,
        *old(trimmed) + old(scrollback)@.len() + count <= usize::MAX,
    ensures
        ({
            let all = rows::lines_of(old(scrollback)@) + rows::rows_of(
                buf@,
                cols as int,
                rows as int,
            ).take(count as int);
            let gone = model::excess(all.len() as int, max as int);
            &&& rows::lines_of(final(scrollback)@) == all.skip(gone)
            &&& *final(trimmed) == *old(trimmed) + gone
        }),
{
    let ghost before = rows::lines_of(scrollback@);
    let ghost screen = rows::rows_of(buf@, cols as int, rows as int);
    proof {
        rows::lemma_rectangle(buf@, cols as int, rows as int);
    }
    let mut r: usize = 0;
    while r < count
        invariant
            r <= count <= rows,
            screen.len() == rows,
            rows::is_rect(buf@, cols as int, rows as int),
            screen == rows::rows_of(buf@, cols as int, rows as int),
            rows::lines_of(scrollback@) == before + screen.take(r as int),
        decreases count - r,
    {
        let ghost prior = scrollback@;
        let line = rows::read_row(buf, cols, rows, r);
        let ghost text = line@;
        scrollback.push(line);
        r = r + 1;
        proof {
            assert(rows::lines_of(scrollback@) =~= rows::lines_of(prior).push(text));
            assert((before + screen.take(r - 1)).push(text) =~= before + screen.take(r as int));
        }
    }
    let ghost all = rows::lines_of(scrollback@);
    assert(all.len() == scrollback@.len());
    if scrollback.len() > max {
        let gone: usize = scrollback.len() - max;
        let tail = scrollback.split_off(gone);
        *scrollback = tail;
        *trimmed = *trimmed + gone;
        assert(rows::lines_of(scrollback@) =~= all.skip(gone as int));
    } else {
        assert(all =~= all.skip(0));
    }
}

/// `line` cut or padded to `cols` cells, keeping no more than its first
/// `limit` cells.
fn fit_row(line: &[Cell], limit: usize, cols: usize) -> (row: Vec<Cell>)
    ensures
        row@ == model::fit_row(line@, limit as int, cols as int),
{
    let blank = Cell::default();
    let mut row: Vec<Cell> = Vec::with_capacity(cols);
    let mut x: usize = 0;
    while x < cols
        invariant
            x <= cols,
            blank == cell::blank(Color::Default),
            row@ =~= model::fit_row(line@, limit as int, cols as int).take(x as int),
        decreases cols - x,
    {
        row.push(if x < limit && x < line.len() { line[x] } else { blank });
        x = x + 1;
    }
    assert(row@ =~= model::fit_row(line@, limit as int, cols as int));
    row
}

/// How many rows leave the top of a screen cut to `rows` rows while its
/// cursor is on row `cy`.
fn off_top(cy: usize, rows: usize) -> (lost: usize)
    requires
        1 <= rows,
    ensures
        lost == model::off_top(cy as int, rows as int),
{
    if cy >= rows { cy - (rows - 1) } else { 0 }
}

/// A buffer of a new size made of what is kept of `old`, whose cursor is on
/// row `cy`, under the lines of `above` from `skip` on.
fn reshape(
    old: &Vec<Cell>,
    old_cols: usize,
    old_rows: usize,
    cy: usize,
    above: &Vec<Vec<Cell>>,
    skip: usize,
    cols: usize,
    rows: usize,
) -> (next: Vec<Cell>)
    requires
        rows::is_rect(old@, old_cols as int, old_rows as int),
        cy < old_rows,
        skip <= above@.len(),
        above@.len() - skip <= model::monus(rows as int, old_rows as int),
        1 <= rows,
        cols * rows <= usize::MAX,
    ensures
        rows::is_rect(next@, cols as int, rows as int),
        rows::rows_of(next@, cols as int, rows as int) == model::reshaped(
            rows::rows_of(old@, old_cols as int, old_rows as int),
            old_cols as int,
            cy as int,
            rows::lines_of(above@).skip(skip as int),
            cols as int,
            rows as int,
        ),
{
    let ghost screen = rows::rows_of(old@, old_cols as int, old_rows as int);
    let ghost pulled = rows::lines_of(above@).skip(skip as int);
    let ghost target = model::reshaped(
        screen,
        old_cols as int,
        cy as int,
        pulled,
        cols as int,
        rows as int,
    );
    proof {
        rows::lemma_rectangle(old@, old_cols as int, old_rows as int);
    }
    let from: usize = off_top(cy, rows);
    let keep: usize = if rows < old_rows { rows } else { old_rows };
    let back: usize = above.len() - skip;
    let open: usize = rows - keep - back;
    let mut next: Vec<Cell> = rows::empty(cols, rows);
    let mut done: usize = 0;
    assert(target.len() == rows);
    assert(target.take(0) =~= Seq::<Seq<Cell>>::empty());
    while done < open
        invariant
            done <= open <= rows,
            cols * rows <= usize::MAX,
            rows::is_rect(next@, cols as int, done as int),
            target.len() == rows,
            rows::rows_of(next@, cols as int, done as int) == target.take(done as int),
            forall|y: int|
                0 <= y < open ==> #[trigger] target[y] == cell::blank_row(
                    cols as int,
                    Color::Default,
                ),
        decreases open - done,
    {
        let line: Vec<Cell> = Vec::new();
        let row = fit_row(line.as_slice(), 0, cols);
        assert(row@ =~= target[done as int]);
        rows::push_row(&mut next, cols, rows, done, row);
        done = done + 1;
        assert(target.take(done - 1).push(target[done - 1]) =~= target.take(done as int));
    }
    while done < open + back
        invariant
            open <= done <= open + back <= rows,
            back == above.len() - skip,
            cols * rows <= usize::MAX,
            rows::is_rect(next@, cols as int, done as int),
            target.len() == rows,
            rows::rows_of(next@, cols as int, done as int) == target.take(done as int),
            pulled == rows::lines_of(above@).skip(skip as int),
            forall|y: int|
                open <= y < open + back ==> #[trigger] target[y] == model::fit_row(
                    pulled[y - open],
                    old_cols as int,
                    cols as int,
                ),
        decreases open + back - done,
    {
        let line = &above[skip + (done - open)];
        assert(line@ == pulled[done - open]);
        let row = fit_row(line.as_slice(), old_cols, cols);
        assert(row@ == target[done as int]);
        rows::push_row(&mut next, cols, rows, done, row);
        done = done + 1;
        assert(target.take(done - 1).push(target[done - 1]) =~= target.take(done as int));
    }
    let start: usize = open + back;
    while done < rows
        invariant
            start <= done <= rows,
            rows - start == keep,
            from + keep <= old_rows,
            cols * rows <= usize::MAX,
            rows::is_rect(old@, old_cols as int, old_rows as int),
            rows::is_rect(next@, cols as int, done as int),
            target.len() == rows,
            screen == rows::rows_of(old@, old_cols as int, old_rows as int),
            rows::rows_of(next@, cols as int, done as int) == target.take(done as int),
            forall|y: int|
                start <= y < rows ==> #[trigger] target[y] == model::fit_row(
                    screen[from + (y - start)],
                    old_cols as int,
                    cols as int,
                ),
        decreases rows - done,
    {
        let line = rows::borrow_row(old, old_cols, old_rows, from + (done - start));
        let row = fit_row(line, old_cols, cols);
        assert(row@ == target[done as int]);
        rows::push_row(&mut next, cols, rows, done, row);
        done = done + 1;
        assert(target.take(done - 1).push(target[done - 1]) =~= target.take(done as int));
    }
    assert(target.take(rows as int) =~= target);
    next
}

/// Where a cursor on row `cy` of `old_rows` ends up when there are `rows`.
fn resized_row(cy: usize, old_rows: usize, rows: usize) -> (next: usize)
    requires
        cy < old_rows,
        1 <= rows,
    ensures
        next == model::resized_row(cy as int, old_rows as int, rows as int),
        next < rows,
{
    if rows < old_rows {
        cy - off_top(cy, rows)
    } else {
        cy + (rows - old_rows)
    }
}

impl Grid {
    /// The screen is a rectangle of at least one cell.
    pub open spec fn shape_ok(&self) -> bool {
        &&& 1 <= self.cols
        &&& 1 <= self.rows
        &&& rows::is_rect(self.cells@, self.cols as int, self.rows as int)
    }

    /// What every operation keeps: rectangular screens, a cursor and a scroll
    /// region on the screen, a viewport within the history.
    pub open spec fn wf(&self) -> bool {
        &&& self.shape_ok()
        &&& self.cx < self.cols
        &&& self.cy < self.rows
        &&& self.top <= self.bot < self.rows
        &&& self.gl < 2
        &&& self.view_offset <= self.scrollback.len()
        &&& self.alt_active <==> self.alt is Some
        &&& self.saved matches Some(s) ==> s.gl < 2
        &&& parked_ok(self.alt, self.cols as int, self.rows as int)
    }

    /// A well-formed grid stands for a well-formed state.
    pub proof fn lemma_wf(&self)
        requires
            self.wf(),
        ensures
            self@.wf(),
    {
        rows::lemma_rectangle(self.cells@, self.cols as int, self.rows as int);
        if let Some(p) = self.alt {
            rows::lemma_rectangle(p.cells@, self.cols as int, self.rows as int);
        }
    }

    pub fn new(cols: usize, rows: usize) -> (grid: Self)
        requires
            cols * rows <= usize::MAX,
        ensures
            grid.wf(),
            grid@ == GridState::fresh(cols as int, rows as int),
    {
        proof {
            lemma_at_least_one_cell(cols, rows);
        }
        let cols: usize = if cols < 1 { 1 } else { cols };
        let rows: usize = if rows < 1 { 1 } else { rows };
        let title = String::new();
        let cells = rows::filled(cols, rows, Cell::default());
        let grid = Grid {
            cols,
            rows,
            cells,
            scrollback: Vec::new(),
            max_scrollback: 10_000,
            trimmed: 0,
            view_offset: 0,
            cx: 0,
            cy: 0,
            cursor_visible: true,
            cursor_shape: CursorShape::Block,
            pen: Pen::new(),
            saved: None,
            g0: Charset::Ascii,
            g1: Charset::Ascii,
            gl: 0,
            top: 0,
            bot: rows - 1,
            wrap_pending: false,
            title,
            bell: false,
            pending_clipboard: None,
            app_cursor_keys: false,
            bracketed_paste: false,
            mouse_tracking: MouseTracking::Off,
            mouse_encoding: MouseEncoding::Legacy,
            alternate_scroll: true,
            alt: None,
            alt_active: false,
            orphaned: false,
        };
        proof {
            let fresh = GridState::fresh(cols as int, rows as int);
            assert(grid@.screen =~= fresh.screen);
            assert(grid@.history =~= fresh.history);
            assert(grid@.title =~= fresh.title);
        }
        grid
    }

    /// Direct access to the live screen. The renderer goes through `view_row`
    /// instead.
    pub fn cell(&self, x: usize, y: usize) -> (cell: &Cell)
        requires
            self.shape_ok(),
            x < self.cols,
            y < self.rows,
        ensures
            *cell == self@.screen[y as int][x as int],
    {
        rows::cell_at(&self.cells, self.cols, self.rows, x, y)
    }

    /// Row `y` of the current viewport, accounting for scrollback offset.
    /// Returns `None` for rows that predate the retained scrollback.
    ///
    /// Deliberately blind to the alternate screen. Scrollback outlives the
    /// switch, so scrolling back while a full-screen program is up shows what
    /// was on screen before it started, the thing Shift+wheel exists to do.
    /// Callers that move `view_offset` for some other reason are covering the
    /// program's display, and should be sure that is what they meant.
    pub fn view_row(&self, y: usize) -> (row: Option<&[Cell]>)
        requires
            self.shape_ok(),
        ensures
            match self@.view_row(y as int) {
                Some(line) => row matches Some(r) && r@ == line,
                None => row is None,
            },
    {
        // Rows [0, view_offset) of the viewport come from scrollback.
        if y < self.view_offset {
            let back: usize = self.view_offset - y;
            if back > self.scrollback.len() {
                return None;
            }
            let line = &self.scrollback[self.scrollback.len() - back];
            return Some(line.as_slice());
        }
        let sy: usize = y - self.view_offset;
        if sy < self.rows {
            Some(rows::borrow_row(&self.cells, self.cols, self.rows, sy))
        } else {
            None
        }
    }

    /// Row id for viewport row `y`, stable as the line scrolls into history.
    ///
    /// Viewport rows above the fold come from scrollback and those below from
    /// the live screen, but both land on the same expression: history grows by
    /// exactly as much as the screen scrolls, so the id of a given line never
    /// changes.
    pub fn abs_row(&self, y: usize) -> (id: usize)
        requires
            self@.has_room(y as int),
            self.view_offset <= self@.total() + y,
        ensures
            id == self@.abs_row(y as int),
    {
        self.trimmed + self.scrollback.len() + y - self.view_offset
    }

    /// The row with id `abs`, from history or the live screen. `None` once the
    /// line has been trimmed away, or for ids past the bottom.
    pub fn row_at(&self, abs: usize) -> (row: Option<&[Cell]>)
        requires
            self.shape_ok(),
        ensures
            match self@.row_at(abs as int) {
                Some(line) => row matches Some(r) && r@ == line,
                None => row is None,
            },
    {
        if abs < self.trimmed {
            return None;
        }
        let i: usize = abs - self.trimmed;
        if i < self.scrollback.len() {
            let line = &self.scrollback[i];
            return Some(line.as_slice());
        }
        let sy: usize = i - self.scrollback.len();
        if sy < self.rows {
            Some(rows::borrow_row(&self.cells, self.cols, self.rows, sy))
        } else {
            None
        }
    }

    /// Copies the first `n` rows of the screen into the history.
    fn feed_history(&mut self, n: usize)
        requires
            old(self).wf(),
            n <= old(self).rows,
            old(self)@.has_room(n as int),
        ensures
            final(self).wf(),
            final(self)@ == old(self)@.feed_history(n as int),
    {
        archive(
            &mut self.scrollback,
            &mut self.trimmed,
            self.max_scrollback,
            &self.cells,
            self.cols,
            self.rows,
            n,
        );
        // A viewport that has been scrolled back is anchored to the lines it
        // is showing, not to a distance from the bottom. Without this, arriving
        // output would slide those lines out from under the user.
        let offset: usize = if self.view_offset > 0 { self.view_offset + n } else { 0 };
        // Dropping the oldest lines can put the viewport past the top.
        let len: usize = self.scrollback.len();
        self.view_offset = if offset < len { offset } else { len };
    }

    /// Moves the rows of the scroll region up by `n`.
    fn shift_up(&mut self, n: usize)
        requires
            old(self).wf(),
            n <= old(self).bot - old(self).top + 1,
        ensures
            final(self).wf(),
            final(self)@ == old(self)@.shift_up(n as int),
    {
        rows::move_up(
            &mut self.cells,
            self.cols,
            self.rows,
            self.top,
            self.bot,
            n,
            Cell::blank_with(self.pen.bg),
        );
    }

    pub fn scroll_up(&mut self, n: usize)
        requires
            old(self).wf(),
            old(self)@.has_room(model::min(n as int, old(self).bot - old(self).top + 1)),
        ensures
            final(self).wf(),
            final(self)@ == old(self)@.scroll_up(n as int),
    {
        let region: usize = self.bot - self.top + 1;
        let n: usize = if n < region { n } else { region };
        // Only the main screen feeds scrollback, and only when all of it
        // moves: the rows below a shorter region keep their place and so
        // their ids.
        if self.top == 0 && self.bot == self.rows - 1 && !self.alt_active {
            self.feed_history(n);
        }
        self.shift_up(n);
    }

    pub fn scroll_down(&mut self, n: usize)
        requires
            old(self).wf(),
        ensures
            final(self).wf(),
            final(self)@ == old(self)@.scroll_down(n as int),
    {
        let region: usize = self.bot - self.top + 1;
        let n: usize = if n < region { n } else { region };
        rows::move_down(
            &mut self.cells,
            self.cols,
            self.rows,
            self.top,
            self.bot,
            n,
            Cell::blank_with(self.pen.bg),
        );
    }

    pub fn newline(&mut self)
        requires
            old(self).wf(),
            old(self)@.has_room(1),
        ensures
            final(self).wf(),
            final(self)@ == old(self)@.newline(),
    {
        if self.cy == self.bot {
            self.scroll_up(1);
        } else if self.cy < self.rows - 1 {
            self.cy = self.cy + 1;
        }
    }

    pub fn save_cursor(&mut self)
        requires
            old(self).wf(),
        ensures
            final(self).wf(),
            final(self)@ == old(self)@.save_cursor(),
    {
        self.saved = Some(
            SavedCursor {
                cx: self.cx,
                cy: self.cy,
                pen: self.pen,
                g0: self.g0,
                g1: self.g1,
                gl: self.gl,
            },
        );
    }

    pub fn restore_cursor(&mut self)
        requires
            old(self).wf(),
        ensures
            final(self).wf(),
            final(self)@ == old(self)@.restore_cursor(),
    {
        if let Some(s) = self.saved {
            self.cx = if s.cx < self.cols - 1 { s.cx } else { self.cols - 1 };
            self.cy = if s.cy < self.rows - 1 { s.cy } else { self.rows - 1 };
            self.pen = s.pen;
            self.g0 = s.g0;
            self.g1 = s.g1;
            self.gl = s.gl;
        }
    }

    pub(crate) fn set_cx(&mut self, cx: usize)
        requires
            old(self).wf(),
            cx < old(self).cols,
        ensures
            final(self).wf(),
            final(self)@ == old(self)@.with_cx(cx as int),
    {
        self.cx = cx;
    }

    pub(crate) fn set_cy(&mut self, cy: usize)
        requires
            old(self).wf(),
            cy < old(self).rows,
        ensures
            final(self).wf(),
            final(self)@ == old(self)@.with_cy(cy as int),
    {
        self.cy = cy;
    }

    pub(crate) fn set_wrap_pending(&mut self, pending: bool)
        requires
            old(self).wf(),
        ensures
            final(self).wf(),
            final(self)@ == old(self)@.with_wrap_pending(pending),
    {
        self.wrap_pending = pending;
    }

    pub(crate) fn next_line(&mut self)
        requires
            old(self).wf(),
            old(self)@.has_room(1),
        ensures
            final(self).wf(),
            final(self)@ == old(self)@.next_line(),
    {
        self.set_cx(0);
        self.newline();
    }

    /// Carries out a pending wrap.
    fn settle_wrap(&mut self)
        requires
            old(self).wf(),
            old(self)@.has_room(1),
        ensures
            final(self).wf(),
            final(self)@ == old(self)@.settle_wrap(),
    {
        if self.wrap_pending {
            self.next_line();
            self.set_wrap_pending(false);
        }
    }

    /// Breaks the line where a character `w` columns wide has no room on it.
    fn wrap_for(&mut self, w: usize)
        requires
            old(self).wf(),
            old(self)@.has_room(2),
        ensures
            final(self).wf(),
            final(self)@ == old(self)@.wrapped_for(w as int),
    {
        proof {
            self.lemma_wf();
            self@.lemma_settle_wrap_total();
        }
        self.settle_wrap();
        if w > self.cols - self.cx {
            self.next_line();
        }
    }

    /// Writes `c`, `w` columns wide, over the cells at the cursor.
    fn stamp(&mut self, c: char, w: usize)
        requires
            old(self).wf(),
        ensures
            final(self).wf(),
            final(self)@ == old(self)@.stamp(c, w as int),
    {
        let pen = self.pen;
        proof {
            self.lemma_wf();
        }
        let first = Cell { c, fg: pen.fg, bg: pen.bg, flags: pen.flags };
        rows::set_cell(&mut self.cells, self.cols, self.rows, self.cx, self.cy, first);
        if w == 2 && self.cx < self.cols - 1 {
            let second = Cell {
                c: ' ',
                fg: pen.fg,
                bg: pen.bg,
                flags: pen.flags | cell::FLAG_WIDE_SPACER,
            };
            rows::set_cell(&mut self.cells, self.cols, self.rows, self.cx + 1, self.cy, second);
        }
        assert(self@.screen =~= old(self)@.stamp(c, w as int).screen);
    }

    fn advance_cursor(&mut self, w: usize)
        requires
            old(self).wf(),
        ensures
            final(self).wf(),
            final(self)@ == old(self)@.advance_cursor(w as int),
    {
        let room: usize = self.cols - self.cx;
        if w < room {
            self.cx = self.cx + w;
            return;
        }
        // Stay put; wrap happens on the *next* printable character.
        self.cx = self.cols - 1;
        self.wrap_pending = true;
    }

    /// Prints `c`, already mapped through the character set, `w` columns wide.
    pub fn put_glyph(&mut self, c: char, w: usize)
        requires
            old(self).wf(),
            old(self)@.has_room(2),
        ensures
            final(self).wf(),
            final(self)@ == old(self)@.put_glyph(c, w as int),
    {
        self.wrap_for(w);
        self.stamp(c, w);
        self.advance_cursor(w);
    }

    /// Prints `c` through the active character set. A printable ASCII glyph
    /// takes one column.
    pub fn put(&mut self, c: char)
        requires
            old(self).wf(),
            old(self)@.has_room(2),
        ensures
            final(self).wf(),
            final(self)@ == old(self)@.put(c),
            old(self)@.ascii_is_narrow(c),
    {
        let set = if self.gl == 0 { self.g0 } else { self.g1 };
        let glyph = set.map(c);
        let w: usize = columns_for(width_of(glyph));
        self.put_glyph(glyph, w);
    }

    /// Erases from the cursor to the end of the screen.
    fn erase_below(&mut self)
        requires
            old(self).wf(),
        ensures
            final(self).wf(),
            final(self)@ == old(self)@.erase_in_display(0),
    {
        let blank = Cell::blank_with(self.pen.bg);
        let (cols, rows, cx, cy) = (self.cols, self.rows, self.cx, self.cy);
        rows::fill_span(&mut self.cells, cols, rows, cy, cx, cols, blank);
        rows::fill_rows(&mut self.cells, cols, rows, cy + 1, rows, blank);
    }

    /// Erases from the start of the screen up to and including the cursor.
    fn erase_above(&mut self)
        requires
            old(self).wf(),
        ensures
            final(self).wf(),
            final(self)@ == old(self)@.erase_in_display(1),
    {
        let blank = Cell::blank_with(self.pen.bg);
        let (cols, rows, cx, cy) = (self.cols, self.rows, self.cx, self.cy);
        rows::fill_span(&mut self.cells, cols, rows, cy, 0, cx + 1, blank);
        rows::fill_rows(&mut self.cells, cols, rows, 0, cy, blank);
    }

    /// Erases the whole screen.
    fn erase_all(&mut self)
        requires
            old(self).wf(),
        ensures
            final(self).wf(),
            final(self)@ == old(self)@.erase_in_display(2),
    {
        let blank = Cell::blank_with(self.pen.bg);
        rows::fill_rows(&mut self.cells, self.cols, self.rows, 0, self.rows, blank);
    }

    pub fn erase_in_display(&mut self, mode: u16)
        requires
            old(self).wf(),
        ensures
            final(self).wf(),
            final(self)@ == old(self)@.erase_in_display(mode),
    {
        match mode {
            0 => self.erase_below(),
            1 => self.erase_above(),
            2 | 3 => self.erase_all(),
            _ => {},
        }
    }

    /// Blanks columns `from..to` of the cursor's row.
    fn erase_span(&mut self, from: usize, to: usize)
        requires
            old(self).wf(),
            from <= to <= old(self).cols,
        ensures
            final(self).wf(),
            final(self)@ == old(self)@.erase_span(from as int, to as int),
    {
        let blank = Cell::blank_with(self.pen.bg);
        rows::fill_span(&mut self.cells, self.cols, self.rows, self.cy, from, to, blank);
    }

    pub fn erase_in_line(&mut self, mode: u16)
        requires
            old(self).wf(),
        ensures
            final(self).wf(),
            final(self)@ == old(self)@.erase_in_line(mode),
    {
        match mode {
            0 => self.erase_span(self.cx, self.cols),
            1 => self.erase_span(0, self.cx + 1),
            2 => self.erase_span(0, self.cols),
            _ => {},
        }
    }

    /// Deletes characters at the cursor: shifts the rest of the line left.
    pub fn delete_chars(&mut self, n: usize)
        requires
            old(self).wf(),
        ensures
            final(self).wf(),
            final(self)@ == old(self)@.delete_chars(n as int),
    {
        let room: usize = self.cols - self.cx;
        let n: usize = if n < room { n } else { room };
        let blank = Cell::blank_with(self.pen.bg);
        rows::shift_left(&mut self.cells, self.cols, self.rows, self.cy, self.cx, n, blank);
    }

    /// Inserts blanks at the cursor: shifts the rest of the line right.
    pub fn insert_blanks(&mut self, n: usize)
        requires
            old(self).wf(),
        ensures
            final(self).wf(),
            final(self)@ == old(self)@.insert_blanks(n as int),
    {
        let room: usize = self.cols - self.cx;
        let n: usize = if n < room { n } else { room };
        let blank = Cell::blank_with(self.pen.bg);
        rows::shift_right(&mut self.cells, self.cols, self.rows, self.cy, self.cx, n, blank);
    }

    /// Blanks characters from the cursor on.
    pub fn erase_chars(&mut self, n: usize)
        requires
            old(self).wf(),
        ensures
            final(self).wf(),
            final(self)@ == old(self)@.erase_chars(n as int),
    {
        let room: usize = self.cols - self.cx;
        let n: usize = if n < room { n } else { room };
        self.erase_span(self.cx, self.cx + n);
    }

    /// Inserts lines at the cursor: scrolls the region below it down.
    pub fn insert_lines(&mut self, n: usize)
        requires
            old(self).wf(),
        ensures
            final(self).wf(),
            final(self)@ == old(self)@.insert_lines(n as int),
    {
        if self.cy < self.top || self.cy > self.bot {
            return;
        }
        let saved_top: usize = self.top;
        self.set_top(self.cy);
        self.scroll_down(n);
        self.set_top(saved_top);
    }

    fn set_top(&mut self, top: usize)
        requires
            old(self).wf(),
            top <= old(self).bot,
        ensures
            final(self).wf(),
            final(self)@ == old(self)@.with_top(top as int),
    {
        self.top = top;
    }

    /// Scrolls the part of the region from row `top` on up.
    fn scroll_up_from(&mut self, top: usize, n: usize)
        requires
            old(self).wf(),
            top <= old(self).bot,
            old(self)@.has_room(old(self).rows as int),
        ensures
            final(self).wf(),
            final(self)@ == old(self)@.scroll_up_from(top as int, n as int),
    {
        let saved_top: usize = self.top;
        self.set_top(top);
        self.scroll_up(n);
        self.set_top(saved_top);
    }

    /// Deletes lines at the cursor: scrolls the region below it up.
    pub fn delete_lines(&mut self, n: usize)
        requires
            old(self).wf(),
            old(self)@.has_room(old(self).rows as int),
        ensures
            final(self).wf(),
            final(self)@ == old(self)@.delete_lines(n as int),
    {
        if self.top <= self.cy && self.cy <= self.bot {
            self.scroll_up_from(self.cy, n);
        }
    }

    pub fn set_alt_screen(&mut self, on: bool)
        requires
            old(self).wf(),
        ensures
            final(self).wf(),
            final(self)@ == old(self)@.set_alt_screen(on),
    {
        if on == self.alt_active {
            return;
        }
        if on {
            proof {
                rows::lemma_rect_fits(self.cells@, self.cols as int, self.rows as int);
            }
            let mut cells = rows::filled(self.cols, self.rows, Cell::default());
            std::mem::swap(&mut cells, &mut self.cells);
            self.alt = Some(Parked { cells, cx: self.cx, cy: self.cy });
            self.cx = 0;
            self.cy = 0;
            self.alt_active = true;
            self.orphaned = false;
            self.view_offset = 0;
            return;
        }
        let parked = self.alt.take();
        if let Some(p) = parked {
            self.cells = p.cells;
            self.cx = p.cx;
            self.cy = p.cy;
            self.alt_active = false;
            self.view_offset = 0;
        }
    }

    fn tracking_after(now: MouseTracking, mode: u16, enable: bool) -> (next: MouseTracking)
        ensures
            next == model::tracking_after(now, mode, enable),
    {
        // Any of these turning off means "stop tracking"; xterm has no notion
        // of falling back to a lesser mode.
        match (mode, enable) {
            (1000, true) => MouseTracking::Normal,
            (1002, true) => MouseTracking::ButtonEvent,
            (1003, true) => MouseTracking::AnyEvent,
            (1000 | 1002 | 1003, false) => MouseTracking::Off,
            _ => now,
        }
    }

    fn encoding_after(now: MouseEncoding, mode: u16, enable: bool) -> (next: MouseEncoding)
        ensures
            next == model::encoding_after(now, mode, enable),
    {
        match mode {
            1006 => if enable { MouseEncoding::Sgr } else { MouseEncoding::Legacy },
            _ => now,
        }
    }

    /// Sets or resets one private mode.
    pub fn set_private_mode(&mut self, mode: u16, enable: bool)
        requires
            old(self).wf(),
        ensures
            final(self).wf(),
            final(self)@ == old(self)@.set_private_mode(mode, enable),
    {
        if mode == 1049 || mode == 1047 || mode == 47 {
            self.set_alt_screen(enable);
            return;
        }
        let tracking = Self::tracking_after(self.mouse_tracking, mode, enable);
        let encoding = Self::encoding_after(self.mouse_encoding, mode, enable);
        self.app_cursor_keys = if mode == 1 { enable } else { self.app_cursor_keys };
        self.cursor_visible = if mode == 25 { enable } else { self.cursor_visible };
        self.bracketed_paste = if mode == 2004 { enable } else { self.bracketed_paste };
        self.mouse_tracking = tracking;
        self.mouse_encoding = encoding;
        self.alternate_scroll = if mode == 1007 { enable } else { self.alternate_scroll };
    }

    pub fn set_mode(&mut self, private: bool, params: &[u16], enable: bool)
        requires
            old(self).wf(),
        ensures
            final(self).wf(),
            final(self)@ == old(self)@.set_modes(
                private,
                params@,
                params@.len() as int,
                enable,
            ),
    {
        let ghost start = self@;
        let mut i: usize = 0;
        while i < params.len()
            invariant
                i <= params.len(),
                self.wf(),
                self@ == start.set_modes(private, params@, i as int, enable),
            decreases params.len() - i,
        {
            let p: u16 = params[i];
            if private {
                self.set_private_mode(p, enable);
            }
            i = i + 1;
        }
    }

    /// The pen after SGR parameter `i`, and the next parameter to read.
    fn sgr_step(pen: Pen, params: &[u16], i: usize) -> (step: (Pen, usize))
        requires
            i < params@.len(),
        ensures
            step.0 == model::sgr_step(pen, params@, i as int).0,
            step.1 == model::sgr_step(pen, params@, i as int).1,
            i < step.1 <= params@.len(),
    {
        let left: usize = params.len() - i;
        let mut pen = pen;
        let p: u16 = params[i];
        let mut taken: usize = 1;
        match p {
            0 => pen = Pen::new(),
            1 => pen.flags = pen.flags | cell::FLAG_BOLD,
            3 => pen.flags = pen.flags | cell::FLAG_ITALIC,
            4 => pen.flags = pen.flags | cell::FLAG_UNDERLINE,
            7 => pen.flags = pen.flags | cell::FLAG_INVERSE,
            22 => pen.flags = pen.flags & !cell::FLAG_BOLD,
            23 => pen.flags = pen.flags & !cell::FLAG_ITALIC,
            24 => pen.flags = pen.flags & !cell::FLAG_UNDERLINE,
            27 => pen.flags = pen.flags & !cell::FLAG_INVERSE,
            30..=37 => pen.fg = Color::Indexed((p - 30) as u8),
            90..=97 => pen.fg = Color::Indexed((p - 90 + 8) as u8),
            40..=47 => pen.bg = Color::Indexed((p - 40) as u8),
            100..=107 => pen.bg = Color::Indexed((p - 100 + 8) as u8),
            39 => pen.fg = Color::Default,
            49 => pen.bg = Color::Default,
            38 | 48 => {
                // 5;n = indexed, 2;r;g;b = truecolor
                if 1 < left && params[i + 1] == 5 {
                    if 2 < left {
                        let c = Color::Indexed(#[verifier::truncate] (params[i + 2] as u8));
                        if p == 38 {
                            pen.fg = c;
                        } else {
                            pen.bg = c;
                        }
                    }
                    taken = 3;
                } else if 1 < left && params[i + 1] == 2 {
                    if 4 < left {
                        let rgb = [
                            #[verifier::truncate] (params[i + 2] as u8),
                            #[verifier::truncate] (params[i + 3] as u8),
                            #[verifier::truncate] (params[i + 4] as u8),
                        ];
                        if p == 38 {
                            pen.fg = Color::Rgb(rgb);
                        } else {
                            pen.bg = Color::Rgb(rgb);
                        }
                    }
                    taken = 5;
                }
            },
            _ => {},
        }
        (pen, i + if taken < left { taken } else { left })
    }

    pub fn sgr(&mut self, params: &[u16])
        requires
            old(self).wf(),
        ensures
            final(self).wf(),
            final(self)@ == old(self)@.sgr(params@),
    {
        let mut pen = self.pen;
        if params.len() == 0 {
            pen = Pen::new();
        }
        let mut i: usize = 0;
        while i < params.len()
            invariant
                params@.len() > 0 ==> model::sgr_from(pen, params@, i as int) == model::sgr_from(
                    self.pen,
                    params@,
                    0,
                ),
                params@.len() == 0 ==> pen == Pen::plain(),
            decreases model::monus(params@.len() as int, i as int),
        {
            let (next, j): (Pen, usize) = Self::sgr_step(pen, params, i);
            pen = next;
            i = j;
        }
        self.pen = pen;
    }

    pub fn program_owns_screen(&self) -> (owns: bool)
        requires
            self.wf(),
        ensures
            owns == self@.program_owns_screen(),
    {
        self.alt_active && !self.orphaned
    }

    /// Puts back the modes that a program asked for, once that program is
    /// gone. A program that dies without cleaning up after itself would leave
    /// the shell with its mouse tracking, its bracketed paste and a hidden
    /// cursor; what is on screen stays, for the user may still be reading it.
    pub fn soft_reset(&mut self)
        requires
            old(self).wf(),
        ensures
            final(self).wf(),
            final(self)@ == old(self)@.soft_reset(),
    {
        self.app_cursor_keys = false;
        self.bracketed_paste = false;
        self.mouse_tracking = MouseTracking::Off;
        self.mouse_encoding = MouseEncoding::Legacy;
        self.alternate_scroll = true;
        self.cursor_visible = true;
        self.orphaned = self.alt_active;
    }

    pub(crate) fn set_view_offset(&mut self, offset: usize)
        requires
            old(self).wf(),
            offset <= old(self).scrollback.len(),
        ensures
            final(self).wf(),
            final(self)@ == old(self)@.with_view_offset(offset as int),
    {
        self.view_offset = offset;
    }

    /// Archives the top `count` rows of the main screen.
    fn archive_main(&mut self, count: usize)
        requires
            old(self).wf(),
            old(self).view_offset == 0,
            count <= old(self).rows,
            old(self)@.has_room(count as int),
        ensures
            final(self).wf(),
            final(self)@ == old(self)@.archive(
                old(self)@.main_screen().screen.take(count as int),
            ),
    {
        let max: usize = self.max_scrollback;
        let (cols, rows) = (self.cols, self.rows);
        match &self.alt {
            Some(p) => archive(
                &mut self.scrollback,
                &mut self.trimmed,
                max,
                &p.cells,
                cols,
                rows,
                count,
            ),
            None => archive(
                &mut self.scrollback,
                &mut self.trimmed,
                max,
                &self.cells,
                cols,
                rows,
                count,
            ),
        }
    }

    /// Keeps as history what falls off the top of the main screen when it is
    /// cut to `rows` rows. Splitting a pane shrinks it, and without this
    /// everything above the fold vanished with no way to scroll back to it,
    /// including when the main screen is the one parked behind vim.
    fn keep_lost(&mut self, rows: usize)
        requires
            old(self).wf(),
            old(self).view_offset == 0,
            1 <= rows,
            old(self)@.has_room(old(self).rows as int),
        ensures
            final(self).wf(),
            final(self)@ == old(self)@.keep_lost(rows as int),
    {
        let cy: usize = match &self.alt {
            Some(p) => p.cy,
            None => self.cy,
        };
        let lost: usize = off_top(cy, rows);
        if lost > 0 {
            self.archive_main(lost);
        }
    }

    /// The main screen behind the alternate one, at a new size.
    fn reshape_parked(&self, cols: usize, rows: usize) -> (parked: Option<Parked>)
        requires
            self.wf(),
            1 <= cols,
            1 <= rows,
            cols * rows <= usize::MAX,
        ensures
            parked_ok(parked, cols as int, rows as int),
            parked_state(parked, cols as int, rows as int) == (match self@.parked {
                Some(before) => Some(
                    before.resize(self.cols as int, self.rows as int, cols as int, rows as int),
                ),
                None => None,
            }),
    {
        match &self.alt {
            Some(p) => {
                let len: usize = self.scrollback.len();
                let cells = reshape(
                    &p.cells,
                    self.cols,
                    self.rows,
                    p.cy,
                    &self.scrollback,
                    len,
                    cols,
                    rows,
                );
                assert(rows::lines_of(self.scrollback@).skip(len as int) =~= Seq::<
                    Seq<Cell>,
                >::empty());
                Some(
                    Parked {
                        cells,
                        cx: if p.cx < cols - 1 { p.cx } else { cols - 1 },
                        cy: resized_row(p.cy, self.rows, rows),
                    },
                )
            },
            None => None,
        }
    }

    /// Takes over buffers of a new size, and drops the history from line
    /// `left` on.
    fn install(
        &mut self,
        cols: usize,
        rows: usize,
        cells: Vec<Cell>,
        alt: Option<Parked>,
        left: usize,
        cy: usize,
    )
        requires
            old(self).wf(),
            old(self).view_offset == 0,
            1 <= cols,
            1 <= rows,
            cy < rows,
            left <= old(self).scrollback@.len(),
            rows::is_rect(cells@, cols as int, rows as int),
            parked_ok(alt, cols as int, rows as int),
            old(self).alt_active <==> alt is Some,
        ensures
            final(self).wf(),
            final(self)@ == (GridState {
                cols: cols as int,
                rows: rows as int,
                screen: rows::rows_of(cells@, cols as int, rows as int),
                history: old(self)@.history.take(left as int),
                parked: parked_state(alt, cols as int, rows as int),
                cx: model::min(old(self)@.cx, cols - 1),
                cy: cy as int,
                top: 0,
                bot: rows - 1,
                wrap_pending: false,
                ..old(self)@
            }),
    {
        let ghost history = rows::lines_of(self.scrollback@);
        let cx: usize = if self.cx < cols - 1 { self.cx } else { cols - 1 };
        self.scrollback.truncate(left);
        assert(rows::lines_of(self.scrollback@) =~= history.take(left as int));
        self.cells = cells;
        self.alt = alt;
        self.cx = cx;
        self.cy = cy;
        self.cols = cols;
        self.rows = rows;
        self.top = 0;
        self.bot = rows - 1;
        self.wrap_pending = false;
    }

    /// Gives both screens a new size. Growing pulls history back rather than
    /// opening blank space above the cursor, so closing a split undoes what
    /// opening it did.
    fn reshape_to(&mut self, cols: usize, rows: usize)
        requires
            old(self).wf(),
            old(self).view_offset == 0,
            1 <= cols,
            1 <= rows,
            cols * rows <= usize::MAX,
        ensures
            final(self).wf(),
            final(self)@ == old(self)@.reshape_to(cols as int, rows as int),
    {
        let len: usize = self.scrollback.len();
        let grown: usize = if rows > self.rows && !self.alt_active { rows - self.rows } else { 0 };
        let left: usize = if grown < len { len - grown } else { 0 };
        let next = reshape(
            &self.cells,
            self.cols,
            self.rows,
            self.cy,
            &self.scrollback,
            left,
            cols,
            rows,
        );
        let parked = self.reshape_parked(cols, rows);
        let cy: usize = resized_row(self.cy, self.rows, rows);
        self.install(cols, rows, next, parked, left, cy);
    }

    pub fn resize(&mut self, cols: usize, rows: usize)
        requires
            old(self).wf(),
            cols * rows <= usize::MAX,
            old(self)@.has_room(old(self).rows as int),
        ensures
            final(self).wf(),
            final(self)@ == old(self)@.resize(cols as int, rows as int),
    {
        proof {
            lemma_at_least_one_cell(cols, rows);
        }
        let cols: usize = if cols < 1 { 1 } else { cols };
        let rows: usize = if rows < 1 { 1 } else { rows };
        if cols == self.cols && rows == self.rows {
            return;
        }
        self.set_view_offset(0);
        self.keep_lost(rows);
        self.reshape_to(cols, rows);
    }
}

} // verus!
