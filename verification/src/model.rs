//! What a terminal screen is, and what each operation does to it.
//!
//! `GridState` is the mathematical counterpart of [`crate::grid::Grid`]: the
//! screen and the history are sequences of rows, and every number is an
//! integer without bounds. The functions here say, for each operation, which
//! state follows which; the executable code is proved against them.

use crate::cell::{self, Cell, Charset, Color, CursorShape, Pen};
use crate::mouse::{Encoding as MouseEncoding, Tracking as MouseTracking};
use crate::rows;
use crate::width;
use vstd::prelude::*;

verus! {

/// Cursor state saved by DECSC (`ESC 7`) and CSI s, restored by DECRC / CSI u.
/// The charset belongs here as much as the position does: a program that
/// switches to line drawing, saves, and restores must come back to the set it
/// saved, not to whatever is current.
#[derive(Clone, Copy)]
pub struct SavedCursor {
    pub cx: usize,
    pub cy: usize,
    pub pen: Pen,
    pub g0: Charset,
    pub g1: Charset,
    pub gl: usize,
}

/// The main screen and its cursor, parked while the alternate screen is up.
pub struct ParkedState {
    pub screen: Seq<Seq<Cell>>,
    pub cx: int,
    pub cy: int,
}

/// The whole state of one terminal.
pub struct GridState {
    pub cols: int,
    pub rows: int,
    pub screen: Seq<Seq<Cell>>,
    /// Lines that have scrolled off the top, oldest first.
    pub history: Seq<Seq<Cell>>,
    pub max_history: int,
    /// Lines dropped off the front of `history` over the session.
    pub trimmed: int,
    pub view_offset: int,
    pub cx: int,
    pub cy: int,
    pub cursor_visible: bool,
    pub cursor_shape: CursorShape,
    pub pen: Pen,
    pub saved: Option<SavedCursor>,
    pub g0: Charset,
    pub g1: Charset,
    pub gl: int,
    /// Scroll region, inclusive rows.
    pub top: int,
    pub bot: int,
    pub wrap_pending: bool,
    pub title: Seq<char>,
    pub bell: bool,
    pub clipboard: Option<Seq<char>>,
    pub app_cursor_keys: bool,
    pub bracketed_paste: bool,
    pub mouse_tracking: MouseTracking,
    pub mouse_encoding: MouseEncoding,
    pub alternate_scroll: bool,
    /// The main screen, while the alternate screen is up.
    pub parked: Option<ParkedState>,
    /// Whether the program that brought the alternate screen up has gone.
    pub orphaned: bool,
}

pub open spec fn min(a: int, b: int) -> int {
    if a < b { a } else { b }
}

pub open spec fn max(a: int, b: int) -> int {
    if a < b { b } else { a }
}

/// `a - b`, or zero where that would be negative.
pub open spec fn monus(a: int, b: int) -> int {
    max(0, a - b)
}

/// How many of `len` lines are over `limit`.
pub open spec fn excess(len: int, limit: int) -> int {
    monus(len, limit)
}

/// `row` cut or padded to `cols` cells, keeping no more than its first
/// `limit` cells.
pub open spec fn fit_row(row: Seq<Cell>, limit: int, cols: int) -> Seq<Cell> {
    Seq::new(
        cols as nat,
        |x: int|
            if x < limit && x < row.len() { row[x] } else { cell::blank(Color::Default) },
    )
}

/// Every row of `lines` fitted.
pub open spec fn fit_rows(lines: Seq<Seq<Cell>>, limit: int, cols: int) -> Seq<Seq<Cell>> {
    Seq::new(lines.len(), |y: int| fit_row(lines[y], limit, cols))
}

/// How many rows leave the top of a screen cut to `rows` rows while its
/// cursor is on row `cy`. Rows below the cursor are the unused tail of the
/// screen, so they go first; the top is only touched for whatever is still
/// needed to keep the cursor's row.
pub open spec fn off_top(cy: int, rows: int) -> int {
    monus(cy + 1, rows)
}

/// Where a cursor on row `cy` of `old_rows` ends up when there are `rows`.
pub open spec fn resized_row(cy: int, old_rows: int, rows: int) -> int {
    if rows < old_rows { cy - off_top(cy, rows) } else { cy + (rows - old_rows) }
}

/// A screen of `cols` columns and `rows` rows made of what is kept of
/// `screen`, whose cursor is on row `cy`. There is no reflow: the surviving
/// rows keep their old wrapping. When the screen grows, `above` comes back
/// over the kept rows, and blank rows fill what is still open at the top.
pub open spec fn reshaped(
    screen: Seq<Seq<Cell>>,
    old_cols: int,
    cy: int,
    above: Seq<Seq<Cell>>,
    cols: int,
    rows: int,
) -> Seq<Seq<Cell>> {
    let from = off_top(cy, rows);
    let kept = screen.subrange(from, from + min(rows, screen.len() as int));
    let open = rows - kept.len() - above.len();
    Seq::new(open as nat, |y: int| cell::blank_row(cols, Color::Default)) + fit_rows(
        above,
        old_cols,
        cols,
    ) + fit_rows(kept, old_cols, cols)
}

/// The pen after parameter `i` of an SGR sequence, and the next parameter to
/// read. `38` and `48` take what follows them: `5;n` is a palette index and
/// `2;r;g;b` a colour spelled out.
pub open spec fn sgr_step(pen: Pen, params: Seq<u16>, i: int) -> (Pen, int) {
    let p = params[i];
    if p == 0 {
        (Pen::plain(), i + 1)
    } else if p == 1 {
        (Pen { flags: pen.flags | cell::FLAG_BOLD, ..pen }, i + 1)
    } else if p == 3 {
        (Pen { flags: pen.flags | cell::FLAG_ITALIC, ..pen }, i + 1)
    } else if p == 4 {
        (Pen { flags: pen.flags | cell::FLAG_UNDERLINE, ..pen }, i + 1)
    } else if p == 7 {
        (Pen { flags: pen.flags | cell::FLAG_INVERSE, ..pen }, i + 1)
    } else if p == 22 {
        (Pen { flags: pen.flags & !cell::FLAG_BOLD, ..pen }, i + 1)
    } else if p == 23 {
        (Pen { flags: pen.flags & !cell::FLAG_ITALIC, ..pen }, i + 1)
    } else if p == 24 {
        (Pen { flags: pen.flags & !cell::FLAG_UNDERLINE, ..pen }, i + 1)
    } else if p == 27 {
        (Pen { flags: pen.flags & !cell::FLAG_INVERSE, ..pen }, i + 1)
    } else if 30 <= p <= 37 {
        (Pen { fg: Color::Indexed((p - 30) as u8), ..pen }, i + 1)
    } else if 90 <= p <= 97 {
        (Pen { fg: Color::Indexed((p - 90 + 8) as u8), ..pen }, i + 1)
    } else if 40 <= p <= 47 {
        (Pen { bg: Color::Indexed((p - 40) as u8), ..pen }, i + 1)
    } else if 100 <= p <= 107 {
        (Pen { bg: Color::Indexed((p - 100 + 8) as u8), ..pen }, i + 1)
    } else if p == 39 {
        (Pen { fg: Color::Default, ..pen }, i + 1)
    } else if p == 49 {
        (Pen { bg: Color::Default, ..pen }, i + 1)
    } else if p == 38 || p == 48 {
        if i + 1 < params.len() && params[i + 1] == 5 {
            let next = if i + 2 < params.len() {
                painted(pen, p == 38, Color::Indexed(params[i + 2] as u8))
            } else {
                pen
            };
            (next, min(i + 3, params.len() as int))
        } else if i + 1 < params.len() && params[i + 1] == 2 {
            let next = if i + 4 < params.len() {
                let rgb = [params[i + 2] as u8, params[i + 3] as u8, params[i + 4] as u8];
                painted(pen, p == 38, Color::Rgb(rgb))
            } else {
                pen
            };
            (next, min(i + 5, params.len() as int))
        } else {
            (pen, i + 1)
        }
    } else {
        (pen, i + 1)
    }
}

/// The pen with its foreground or its background set to `color`.
pub open spec fn painted(pen: Pen, foreground: bool, color: Color) -> Pen {
    if foreground { Pen { fg: color, ..pen } } else { Pen { bg: color, ..pen } }
}

/// The pen after the parameters of an SGR sequence from `i` on.
pub open spec fn sgr_from(pen: Pen, params: Seq<u16>, i: int) -> Pen
    decreases monus(params.len() as int, i),
{
    if 0 <= i < params.len() {
        let (next, j) = sgr_step(pen, params, i);
        sgr_from(next, params, j)
    } else {
        pen
    }
}

/// Mouse tracking after DECSET or DECRST of `mode`.
pub open spec fn tracking_after(now: MouseTracking, mode: u16, enable: bool) -> MouseTracking {
    if mode == 1000 || mode == 1002 || mode == 1003 {
        if !enable {
            MouseTracking::Off
        } else if mode == 1000 {
            MouseTracking::Normal
        } else if mode == 1002 {
            MouseTracking::ButtonEvent
        } else {
            MouseTracking::AnyEvent
        }
    } else {
        now
    }
}

/// How mouse reports are spelled after DECSET or DECRST of `mode`.
pub open spec fn encoding_after(now: MouseEncoding, mode: u16, enable: bool) -> MouseEncoding {
    if mode == 1006 {
        if enable { MouseEncoding::Sgr } else { MouseEncoding::Legacy }
    } else {
        now
    }
}

impl ParkedState {
    /// The main screen carried through a resize behind the alternate screen.
    pub open spec fn resize(self, old_cols: int, old_rows: int, cols: int, rows: int) -> Self {
        ParkedState {
            screen: reshaped(self.screen, old_cols, self.cy, Seq::empty(), cols, rows),
            cx: min(self.cx, cols - 1),
            cy: resized_row(self.cy, old_rows, rows),
        }
    }
}

impl GridState {
    /// A fresh terminal of the given size, which is at least one cell.
    pub open spec fn fresh(cols: int, rows: int) -> GridState {
        let cols = max(cols, 1);
        let rows = max(rows, 1);
        GridState {
            cols,
            rows,
            screen: Seq::new(rows as nat, |y: int| cell::blank_row(cols, Color::Default)),
            history: Seq::empty(),
            max_history: 10_000,
            trimmed: 0,
            view_offset: 0,
            cx: 0,
            cy: 0,
            cursor_visible: true,
            cursor_shape: CursorShape::Block,
            pen: Pen::plain(),
            saved: None,
            g0: Charset::Ascii,
            g1: Charset::Ascii,
            gl: 0,
            top: 0,
            bot: rows - 1,
            wrap_pending: false,
            title: Seq::empty(),
            bell: false,
            clipboard: None,
            app_cursor_keys: false,
            bracketed_paste: false,
            mouse_tracking: MouseTracking::Off,
            mouse_encoding: MouseEncoding::Legacy,
            alternate_scroll: true,
            parked: None,
            orphaned: false,
        }
    }

    /// Rectangular screens, a cursor and a scroll region on the screen, a
    /// viewport within the history.
    pub open spec fn wf(self) -> bool {
        &&& 1 <= self.cols
        &&& 1 <= self.rows
        &&& self.screen.len() == self.rows
        &&& forall|y: int| 0 <= y < self.rows ==> (#[trigger] self.screen[y]).len() == self.cols
        &&& 0 <= self.cx < self.cols
        &&& 0 <= self.cy < self.rows
        &&& 0 <= self.top <= self.bot < self.rows
        &&& 0 <= self.gl < 2
        &&& 0 <= self.max_history
        &&& 0 <= self.trimmed
        &&& 0 <= self.view_offset <= self.history.len()
        &&& self.saved matches Some(s) ==> s.gl < 2
        &&& self.parked matches Some(p) ==> {
            &&& p.screen.len() == self.rows
            &&& forall|y: int| 0 <= y < self.rows ==> (#[trigger] p.screen[y]).len() == self.cols
            &&& 0 <= p.cx < self.cols
            &&& 0 <= p.cy < self.rows
        }
    }

    pub open spec fn alt_active(self) -> bool {
        self.parked is Some
    }

    /// Lines ever scrolled into the history and not pulled back: the id of
    /// the first row of the live screen.
    pub open spec fn total(self) -> int {
        self.trimmed + self.history.len()
    }

    /// Whether `n` more lines can be counted in a machine word.
    pub open spec fn has_room(self, n: int) -> bool {
        self.total() + n <= usize::MAX
    }

    /// A row of blanks in the current background.
    pub open spec fn blank_line(self) -> Seq<Cell> {
        cell::blank_row(self.cols, self.pen.bg)
    }

    /// `lines` added to the history, whose oldest lines go once it is full.
    pub open spec fn archive(self, lines: Seq<Seq<Cell>>) -> GridState {
        let all = self.history + lines;
        let gone = excess(all.len() as int, self.max_history);
        GridState { history: all.skip(gone), trimmed: self.trimmed + gone, ..self }
    }

    /// Whether lines leaving the scroll region at the top become history:
    /// only where the whole of the main screen scrolls. A line counted into
    /// the history while the rows below the region stay put would take the id
    /// of every one of those rows from under it.
    pub open spec fn feeds_history(self) -> bool {
        self.top == 0 && self.bot == self.rows - 1 && !self.alt_active()
    }

    /// The first `n` rows of the screen added to the history. A viewport that
    /// has been scrolled back stays on the lines it is showing for as long as
    /// the history holds them; one at the bottom stays at the bottom.
    pub open spec fn feed_history(self, n: int) -> GridState {
        let longer = self.archive(self.screen.take(n));
        let offset = if self.view_offset > 0 { self.view_offset + n } else { 0 };
        GridState { view_offset: min(offset, longer.history.len() as int), ..longer }
    }

    /// Scrolling counts exactly the lines it keeps as history.
    pub proof fn lemma_scroll_up_total(self, n: int)
        requires
            self.wf(),
            0 <= n,
        ensures
            self.scroll_up(n).total() == self.total() + (if self.feeds_history() {
                min(n, self.bot - self.top + 1)
            } else {
                0
            }),
    {
    }

    pub proof fn lemma_newline_total(self)
        requires
            self.wf(),
        ensures
            self.total() <= self.newline().total() <= self.total() + 1,
    {
        self.lemma_scroll_up_total(1);
    }

    pub proof fn lemma_newline_wf(self)
        requires
            self.wf(),
        ensures
            self.newline().wf(),
    {
        let n = min(1, self.bot - self.top + 1);
        let next = self.newline();
        if self.cy == self.bot {
            assert forall|y: int| 0 <= y < next.rows implies (#[trigger] next.screen[y]).len()
                == next.cols by {
                if y + n <= self.bot {
                    assert(self.screen[y + n].len() == self.cols);
                }
                assert(self.screen[y].len() == self.cols);
            }
        }
    }

    pub proof fn lemma_settle_wrap_total(self)
        requires
            self.wf(),
        ensures
            self.total() <= self.settle_wrap().total() <= self.total() + 1,
    {
        self.with_cx(0).lemma_newline_total();
    }

    /// The rows of the scroll region moved up by `n`.
    pub open spec fn shift_up(self, n: int) -> GridState {
        GridState {
            screen: rows::region_up(self.screen, self.top, self.bot, n, self.blank_line()),
            ..self
        }
    }

    /// The scroll region moved up by `n` rows, and the rows that leave it
    /// kept where they are history.
    pub open spec fn scroll_up(self, n: int) -> GridState {
        let n = min(n, self.bot - self.top + 1);
        let fed = if self.feeds_history() { self.feed_history(n) } else { self };
        fed.shift_up(n)
    }

    /// The scroll region moved down by `n` rows.
    pub open spec fn scroll_down(self, n: int) -> GridState {
        let n = min(n, self.bot - self.top + 1);
        GridState {
            screen: rows::region_down(self.screen, self.top, self.bot, n, self.blank_line()),
            ..self
        }
    }

    /// The cursor one row down, scrolling at the bottom of the region.
    pub open spec fn newline(self) -> GridState {
        if self.cy == self.bot {
            self.scroll_up(1)
        } else if self.cy + 1 < self.rows {
            GridState { cy: self.cy + 1, ..self }
        } else {
            self
        }
    }

    pub open spec fn save_cursor(self) -> GridState {
        GridState {
            saved: Some(
                SavedCursor {
                    cx: self.cx as usize,
                    cy: self.cy as usize,
                    pen: self.pen,
                    g0: self.g0,
                    g1: self.g1,
                    gl: self.gl as usize,
                },
            ),
            ..self
        }
    }

    pub open spec fn restore_cursor(self) -> GridState {
        match self.saved {
            Some(s) => GridState {
                cx: min(s.cx as int, self.cols - 1),
                cy: min(s.cy as int, self.rows - 1),
                pen: s.pen,
                g0: s.g0,
                g1: s.g1,
                gl: s.gl as int,
                ..self
            },
            None => self,
        }
    }

    /// The character set that SO/SI has mapped into the printable range.
    pub open spec fn charset(self) -> Charset {
        if self.gl == 0 { self.g0 } else { self.g1 }
    }

    pub open spec fn with_cx(self, cx: int) -> GridState {
        GridState { cx, ..self }
    }

    pub open spec fn with_cy(self, cy: int) -> GridState {
        GridState { cy, ..self }
    }

    /// The cursor at the start of the next line.
    pub open spec fn next_line(self) -> GridState {
        self.with_cx(0).newline()
    }

    pub open spec fn with_wrap_pending(self, wrap_pending: bool) -> GridState {
        GridState { wrap_pending, ..self }
    }

    /// A pending wrap carried out.
    pub open spec fn settle_wrap(self) -> GridState {
        if self.wrap_pending { self.next_line().with_wrap_pending(false) } else { self }
    }

    /// The cursor at the start of the next line, when the line must break
    /// before a character `w` columns wide.
    pub open spec fn wrapped_for(self, w: int) -> GridState {
        let ready = self.settle_wrap();
        if ready.cx + w > ready.cols { ready.next_line() } else { ready }
    }

    /// `c`, which is `w` columns wide, written over the cells at the cursor.
    pub open spec fn stamp(self, c: char, w: int) -> GridState {
        let pen = self.pen;
        let row = self.screen[self.cy].update(
            self.cx,
            Cell { c, fg: pen.fg, bg: pen.bg, flags: pen.flags },
        );
        let row = if w == 2 && self.cx + 1 < self.cols {
            row.update(
                self.cx + 1,
                Cell {
                    c: ' ',
                    fg: pen.fg,
                    bg: pen.bg,
                    flags: pen.flags | cell::FLAG_WIDE_SPACER,
                },
            )
        } else {
            row
        };
        GridState { screen: self.screen.update(self.cy, row), ..self }
    }

    /// The cursor moved on by `w` columns. At the end of the line it stays
    /// put; the wrap happens on the next printable character.
    pub open spec fn advance_cursor(self, w: int) -> GridState {
        if self.cx + w >= self.cols {
            GridState { cx: self.cols - 1, wrap_pending: true, ..self }
        } else {
            GridState { cx: self.cx + w, ..self }
        }
    }

    /// `c`, already mapped through the character set, printed `w` columns
    /// wide.
    pub open spec fn put_glyph(self, c: char, w: int) -> GridState {
        self.wrapped_for(w).stamp(c, w).advance_cursor(w)
    }

    /// `c` printed. The active character set is applied before anything else:
    /// the width of a box-drawing glyph is the width that matters, not the
    /// width of the ASCII letter that stood in for it on the wire.
    pub open spec fn put(self, c: char) -> GridState {
        let glyph = cell::charset_char(self.charset(), c);
        self.put_glyph(glyph, width::columns(glyph))
    }

    /// Whether `c`, if it comes out as printable ASCII, takes one column.
    pub open spec fn ascii_is_narrow(self, c: char) -> bool {
        let glyph = cell::charset_char(self.charset(), c);
        ' ' <= glyph <= '~' ==> width::columns(glyph) == 1
    }

    /// ED: erases below the cursor, above it, or everything.
    pub open spec fn erase_in_display(self, mode: u16) -> GridState {
        let blank = cell::blank(self.pen.bg);
        let row = self.screen[self.cy];
        if mode == 0 {
            let cut = self.screen.update(
                self.cy,
                rows::span_filled(row, self.cx, self.cols, blank),
            );
            GridState {
                screen: rows::rows_filled(cut, self.cy + 1, self.rows, self.blank_line()),
                ..self
            }
        } else if mode == 1 {
            let cut = self.screen.update(
                self.cy,
                rows::span_filled(row, 0, self.cx + 1, blank),
            );
            GridState { screen: rows::rows_filled(cut, 0, self.cy, self.blank_line()), ..self }
        } else if mode == 2 || mode == 3 {
            GridState {
                screen: rows::rows_filled(self.screen, 0, self.rows, self.blank_line()),
                ..self
            }
        } else {
            self
        }
    }

    /// Columns `from..to` of the cursor's row blanked.
    pub open spec fn erase_span(self, from: int, to: int) -> GridState {
        let row = rows::span_filled(self.screen[self.cy], from, to, cell::blank(self.pen.bg));
        GridState { screen: self.screen.update(self.cy, row), ..self }
    }

    /// EL: erases right of the cursor, left of it, or the whole line.
    pub open spec fn erase_in_line(self, mode: u16) -> GridState {
        if mode == 0 {
            self.erase_span(self.cx, self.cols)
        } else if mode == 1 {
            self.erase_span(0, self.cx + 1)
        } else if mode == 2 {
            self.erase_span(0, self.cols)
        } else {
            self
        }
    }

    /// DCH: `n` characters deleted at the cursor, the rest of the line
    /// shifted left.
    pub open spec fn delete_chars(self, n: int) -> GridState {
        let n = min(n, self.cols - self.cx);
        let row = rows::shifted_left(self.screen[self.cy], self.cx, n, cell::blank(self.pen.bg));
        GridState { screen: self.screen.update(self.cy, row), ..self }
    }

    /// ICH: `n` blanks inserted at the cursor, the rest of the line shifted
    /// right.
    pub open spec fn insert_blanks(self, n: int) -> GridState {
        let n = min(n, self.cols - self.cx);
        let row = rows::shifted_right(self.screen[self.cy], self.cx, n, cell::blank(self.pen.bg));
        GridState { screen: self.screen.update(self.cy, row), ..self }
    }

    /// ECH: `n` characters blanked from the cursor on.
    pub open spec fn erase_chars(self, n: int) -> GridState {
        self.erase_span(self.cx, self.cx + min(n, self.cols - self.cx))
    }

    /// IL: `n` lines inserted at the cursor; the region below it moves down.
    pub open spec fn insert_lines(self, n: int) -> GridState {
        if self.top <= self.cy <= self.bot {
            self.with_top(self.cy).scroll_down(n).with_top(self.top)
        } else {
            self
        }
    }

    /// The scroll region from row `top` on moved up by `n`.
    pub open spec fn scroll_up_from(self, top: int, n: int) -> GridState {
        self.with_top(top).scroll_up(n).with_top(self.top)
    }

    pub open spec fn with_top(self, top: int) -> GridState {
        GridState { top, ..self }
    }

    /// DL: `n` lines deleted at the cursor; the region below it moves up.
    pub open spec fn delete_lines(self, n: int) -> GridState {
        if self.top <= self.cy <= self.bot { self.scroll_up_from(self.cy, n) } else { self }
    }

    /// The alternate screen brought up or put away. Coming back restores the
    /// main screen and its cursor as they were left.
    pub open spec fn set_alt_screen(self, on: bool) -> GridState {
        if on == self.alt_active() {
            self
        } else if on {
            GridState {
                parked: Some(ParkedState { screen: self.screen, cx: self.cx, cy: self.cy }),
                screen: Seq::new(
                    self.rows as nat,
                    |y: int| cell::blank_row(self.cols, Color::Default),
                ),
                cx: 0,
                cy: 0,
                view_offset: 0,
                orphaned: false,
                ..self
            }
        } else {
            let back = self.parked->0;
            GridState {
                parked: None,
                screen: back.screen,
                cx: back.cx,
                cy: back.cy,
                view_offset: 0,
                ..self
            }
        }
    }

    /// DECSET or DECRST of one private mode. Any of the mouse tracking modes
    /// turning off stops tracking altogether.
    pub open spec fn set_private_mode(self, mode: u16, enable: bool) -> GridState {
        if mode == 1049 || mode == 1047 || mode == 47 {
            self.set_alt_screen(enable)
        } else {
            GridState {
                app_cursor_keys: if mode == 1 { enable } else { self.app_cursor_keys },
                cursor_visible: if mode == 25 { enable } else { self.cursor_visible },
                bracketed_paste: if mode == 2004 { enable } else { self.bracketed_paste },
                mouse_tracking: tracking_after(self.mouse_tracking, mode, enable),
                mouse_encoding: encoding_after(self.mouse_encoding, mode, enable),
                alternate_scroll: if mode == 1007 { enable } else { self.alternate_scroll },
                ..self
            }
        }
    }

    /// SM or RM: the first `count` of `params`, in order. Only private modes
    /// mean anything here.
    pub open spec fn set_modes(
        self,
        private: bool,
        params: Seq<u16>,
        count: int,
        enable: bool,
    ) -> GridState
        decreases count,
    {
        if count <= 0 {
            self
        } else {
            let before = self.set_modes(private, params, count - 1, enable);
            if private { before.set_private_mode(params[count - 1], enable) } else { before }
        }
    }

    /// SGR. No parameters at all means a plain pen.
    pub open spec fn sgr(self, params: Seq<u16>) -> GridState {
        GridState {
            pen: if params.len() == 0 { Pen::plain() } else { sgr_from(self.pen, params, 0) },
            ..self
        }
    }

    /// How many lines of history come back when the main screen grows to
    /// `rows` rows.
    pub open spec fn pulled(self, rows: int) -> int {
        if rows > self.rows && !self.alt_active() {
            min(rows - self.rows, self.history.len() as int)
        } else {
            0
        }
    }

    /// The main screen: the visible one, or the copy that the alternate
    /// screen stands in for.
    pub open spec fn main_screen(self) -> ParkedState {
        match self.parked {
            Some(p) => p,
            None => ParkedState { screen: self.screen, cx: self.cx, cy: self.cy },
        }
    }

    pub open spec fn with_view_offset(self, view_offset: int) -> GridState {
        GridState { view_offset, ..self }
    }

    /// The rows that fall off the top of the main screen when it is cut to
    /// `rows` rows kept as history: they are history, not rubbish.
    pub open spec fn keep_lost(self, rows: int) -> GridState {
        let main = self.main_screen();
        let lost = off_top(main.cy, rows);
        if lost > 0 { self.archive(main.screen.take(lost)) } else { self }
    }

    /// Both screens at a new size, with history pulled back into a main
    /// screen that grows.
    pub open spec fn reshape_to(self, cols: int, rows: int) -> GridState {
        let left = self.history.len() - self.pulled(rows);
        GridState {
            cols,
            rows,
            screen: reshaped(
                self.screen,
                self.cols,
                self.cy,
                self.history.skip(left),
                cols,
                rows,
            ),
            history: self.history.take(left),
            parked: match self.parked {
                Some(p) => Some(p.resize(self.cols, self.rows, cols, rows)),
                None => None,
            },
            cx: min(self.cx, cols - 1),
            cy: resized_row(self.cy, self.rows, rows),
            top: 0,
            bot: rows - 1,
            wrap_pending: false,
            ..self
        }
    }

    /// The terminal at a new size.
    ///
    /// Exactly one screen is the main screen, and only that one has a
    /// history: rows falling off its top go there, and growing pulls them
    /// back. Every screen is measured against its own cursor.
    pub open spec fn resize(self, cols: int, rows: int) -> GridState {
        let cols = max(cols, 1);
        let rows = max(rows, 1);
        if cols == self.cols && rows == self.rows {
            self
        } else {
            self.with_view_offset(0).keep_lost(rows).reshape_to(cols, rows)
        }
    }

    /// The row at viewport position `y`; rows above the fold come from the
    /// history. There is none before the retained history or past the bottom
    /// of the screen.
    pub open spec fn view_row(self, y: int) -> Option<Seq<Cell>> {
        let line = self.history.len() + y - self.view_offset;
        self.line(line)
    }

    /// Line `i` of the history followed by the screen.
    pub open spec fn line(self, i: int) -> Option<Seq<Cell>> {
        if 0 <= i < self.history.len() {
            Some(self.history[i])
        } else if self.history.len() <= i < self.history.len() + self.rows {
            Some(self.screen[i - self.history.len()])
        } else {
            None
        }
    }

    /// The id of viewport row `y`.
    pub open spec fn abs_row(self, y: int) -> int {
        self.total() + y - self.view_offset
    }

    /// The row with id `abs`, while it is still held.
    pub open spec fn row_at(self, abs: int) -> Option<Seq<Cell>> {
        self.line(abs - self.trimmed)
    }

    /// Whether a running program, rather than the shell, owns what is on
    /// screen.
    pub open spec fn program_owns_screen(self) -> bool {
        self.alt_active() && !self.orphaned
    }

    /// The modes that a program asked for put back to what a shell expects,
    /// once that program is gone. What is on screen stays.
    pub open spec fn soft_reset(self) -> GridState {
        GridState {
            app_cursor_keys: false,
            bracketed_paste: false,
            mouse_tracking: MouseTracking::Off,
            mouse_encoding: MouseEncoding::Legacy,
            alternate_scroll: true,
            cursor_visible: true,
            orphaned: self.alt_active(),
            ..self
        }
    }
}

} // verus!
