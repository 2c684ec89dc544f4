//! Decisions that concern one pane or the set of them: feeding a pane what its
//! shell wrote, finding the cell under the pointer, moving the focus.

use crate::grid::Grid;
use crate::input::ModifiersState;
use crate::model::{self, GridState};
use crate::mouse::{self, Event, Mods};
use crate::pane::PaneId;
use crate::performer::Performer;
use crate::preedit::{self, layout_preedit, preedit_caret, Preedit, PreeditState};
use crate::sequences::TermState;
use crate::vt::{self, VtParser};
use vstd::prelude::*;
use vstd::string::StrSliceExecFns;

verus! {

/// The position of the first `id` in `ids` from `from` on, or zero.
pub open spec fn position_or_zero(ids: Seq<PaneId>, id: PaneId, from: int) -> int
    decreases ids.len() - from,
{
    if 0 <= from < ids.len() {
        if ids[from] == id { from } else { position_or_zero(ids, id, from + 1) }
    } else {
        0
    }
}

/// The pane after `focus` in `ids`, or the one before it, going round at the
/// ends.
pub open spec fn cycled(ids: Seq<PaneId>, focus: PaneId, forward: bool) -> PaneId {
    let here = position_or_zero(ids, focus, 0);
    let last = ids.len() - 1;
    if forward {
        if here == last { ids[0] } else { ids[here + 1] }
    } else {
        if here == 0 { ids[last] } else { ids[here - 1] }
    }
}

/// The pane next to `focus` in reading order, going round at the ends; `None`
/// where there are no panes.
pub fn next_focus(leaves: &[PaneId], focus: PaneId, forward: bool) -> (next: Option<PaneId>)
    ensures
        next == (if leaves@.len() == 0 {
            None
        } else {
            Some(cycled(leaves@, focus, forward))
        }),
{
    if leaves.len() == 0 {
        return None;
    }
    let mut here: usize = 0;
    let mut i: usize = 0;
    while i < leaves.len()
        invariant_except_break
            i <= leaves@.len(),
            here == 0,
            position_or_zero(leaves@, focus, 0) == position_or_zero(leaves@, focus, i as int),
        ensures
            here == position_or_zero(leaves@, focus, 0),
            here < leaves@.len() || leaves@.len() == 0,
        decreases leaves.len() - i,
    {
        if leaves[i] == focus {
            here = i;
            break;
        }
        i = i + 1;
    }
    let n: usize = leaves.len();
    let next: usize = if forward {
        if here == n - 1 { 0 } else { here + 1 }
    } else {
        if here == 0 { n - 1 } else { here - 1 }
    };
    Some(leaves[next])
}

/// The pane to focus once `closed` is gone, `leaves` being the panes left: the
/// first of them if the focus was on the closed pane.
pub fn focus_after_close(leaves: &[PaneId], closed: PaneId, focus: PaneId) -> (next: PaneId)
    ensures
        next == (if focus != closed {
            focus
        } else if leaves@.len() > 0 {
            leaves@[0]
        } else {
            0
        }),
{
    if focus != closed {
        focus
    } else if leaves.len() > 0 {
        leaves[0]
    } else {
        0
    }
}

/// Feeds a pane what its shell wrote, returning whether there was anything and
/// any reply the terminal owes the shell (cursor position reports and the
/// like).
///
/// `returned` says that the foreground program has finished since. Its modes
/// are put back before the bytes are read, not after: output arriving now is
/// the shell's, its "Killed" line and a fresh prompt, and the prompt is where a
/// shell re-arms the modes it owns. Clearing first lets those land on top.
///
/// What would scroll off more lines than can still be counted is left out.
pub fn pump(grid: &mut Grid, parser: &mut VtParser, bytes: &[u8], returned: bool) -> (out: (
    bool,
    Vec<u8>,
))
    requires
        old(grid).wf(),
    ensures
        final(grid).wf(),
        out.0 == (bytes@.len() > 0),
        if bytes@.len() == 0 {
            &&& final(grid)@ == old(grid)@
            &&& final(parser).inner == old(parser).inner
            &&& out.1@.len() == 0
        } else {
            let (actions, next) = vt::advanced(old(parser).inner, bytes@);
            let ready = if returned { old(grid)@.soft_reset() } else { old(grid)@ };
            let start = TermState { grid: ready, reply: Seq::empty() };
            let end = start.perform_fitting(actions, actions.len() as int);
            &&& final(parser).inner == next
            &&& final(grid)@ == end.grid
            &&& out.1@ == end.reply
            &&& start.all_print_narrow(actions, actions.len() as int)
        },
{
    if bytes.len() == 0 {
        return (false, Vec::new());
    }
    if returned {
        grid.soft_reset();
    }
    let mut performer = Performer { grid, reply: Vec::new() };
    assert(performer.reply@ =~= Seq::<u8>::empty());
    parser.advance(&mut performer, bytes);
    let reply = performer.reply;
    (true, reply)
}

/// How much of a pane's grid fits into `fit` columns or rows: at least one, and
/// no more than there are.
pub open spec fn fitted(fit: int, size: int) -> int {
    model::min(model::max(fit, 1), size)
}

fn fitted_to(fit: usize, size: usize) -> (n: usize)
    ensures
        n == fitted(fit as int, size as int),
{
    let fit: usize = if fit < 1 { 1 } else { fit };
    if fit < size { fit } else { size }
}

impl Grid {
    /// The cell under a pointer that is `col` columns and `row` rows into the
    /// pane, kept within the pane: what the program drew is what the user
    /// clicked.
    pub fn cell_under(&self, col: usize, row: usize, fit_cols: usize, fit_rows: usize) -> (at: (
        usize,
        usize,
    ))
        requires
            self.wf(),
        ensures
            at.0 == model::min(col as int, fitted(fit_cols as int, self.cols as int) - 1),
            at.1 == model::min(row as int, fitted(fit_rows as int, self.rows as int) - 1),
    {
        let cols: usize = fitted_to(fit_cols, self.cols);
        let rows: usize = fitted_to(fit_rows, self.rows);
        (if col < cols - 1 { col } else { cols - 1 }, if row < rows - 1 { row } else { rows - 1 })
    }

    /// As `cell_under`, for selecting: the row by its id, and a column that may
    /// be one past the last, so that dragging off the edge extends to it rather
    /// than stopping. `None` where rows can no longer be numbered.
    pub fn spot_under(&self, col: usize, row: usize, fit_cols: usize, fit_rows: usize) -> (at: Option<
        (usize, usize),
    >)
        requires
            self.wf(),
        ensures
            ({
                let y = model::min(row as int, fitted(fit_rows as int, self.rows as int) - 1);
                let x = model::min(col as int, fitted(fit_cols as int, self.cols as int));
                if self@.has_room(self.rows as int) {
                    at matches Some(spot) && spot.0 == self@.abs_row(y) && spot.1 == x
                } else {
                    at is None
                }
            }),
    {
        let cols: usize = fitted_to(fit_cols, self.cols);
        let rows: usize = fitted_to(fit_rows, self.rows);
        let total: usize = match self.trimmed.checked_add(self.scrollback.len()) {
            Some(total) => total,
            None => return None,
        };
        if total.checked_add(self.rows).is_none() {
            return None;
        }
        let y: usize = if row < rows - 1 { row } else { rows - 1 };
        let x: usize = if col < cols { col } else { cols };
        Some((self.abs_row(y), x))
    }

    /// The report of a mouse event at a cell, if the program is to have one.
    ///
    /// Shift always keeps the event local. That is the convention every
    /// terminal follows, and it is the only way to select text or reach our own
    /// scrollback once a program has taken the mouse.
    pub fn mouse_report(&self, event: Event, col: usize, row: usize, held: ModifiersState) -> (out:
        Option<Vec<u8>>)
        requires
            self.wf(),
            col < self.cols,
            row < self.rows,
        ensures
            ({
                let mods = Mods { shift: held.shift, alt: held.alt, ctrl: held.control };
                let report = mouse::report(
                    self.mouse_tracking,
                    self.mouse_encoding,
                    event,
                    col as int,
                    row as int,
                    mods,
                );
                match report {
                    Some(bytes) if !held.shift => out matches Some(sent) && sent@ == bytes,
                    _ => out is None,
                }
            }),
    {
        if held.shift {
            return None;
        }
        let mods = Mods { shift: held.shift, alt: held.alt, ctrl: held.control };
        mouse::encode(self.mouse_tracking, self.mouse_encoding, event, col, row, mods)
    }

    /// Gives the grid the size of its pane. Returns whether that was a change.
    /// A size that cannot be allocated, or a history that could no longer be
    /// counted, leaves it as it is.
    pub fn fit(&mut self, cols: usize, rows: usize) -> (changed: bool)
        requires
            old(self).wf(),
        ensures
            final(self).wf(),
            changed == old(self)@.fits(cols as int, rows as int),
            final(self)@ == (if changed {
                old(self)@.resize(cols as int, rows as int)
            } else {
                old(self)@
            }),
    {
        let wide: usize = if cols < 1 { 1 } else { cols };
        let high: usize = if rows < 1 { 1 } else { rows };
        if wide == self.cols && high == self.rows {
            return false;
        }
        if wide.checked_mul(high).is_none() {
            return false;
        }
        let total: usize = match self.trimmed.checked_add(self.scrollback.len()) {
            Some(total) => total,
            None => return false,
        };
        if total.checked_add(self.rows).is_none() {
            return false;
        }
        self.resize(cols, rows);
        true
    }

    /// Where the input method's candidate window goes: at the end of the
    /// composing text, which is where the caret is, and always on a row that
    /// the pane has.
    pub fn ime_anchor(&self, preedit: &Preedit, fit_cols: usize, fit_rows: usize) -> (at: (
        usize,
        usize,
    ))
        requires
            self.wf(),
        ensures
            at.0 == self@.ime_anchor(preedit@, fit_cols as int, fit_rows as int).0,
            at.1 == self@.ime_anchor(preedit@, fit_cols as int, fit_rows as int).1,
    {
        let cols: usize = fitted_to(fit_cols, self.cols);
        let rows: usize = fitted_to(fit_rows, self.rows);
        let origin: (usize, usize) = (if self.cx < cols - 1 { self.cx } else { cols - 1 }, self.cy);
        let cells = layout_preedit(preedit.text.as_str(), preedit.target, origin, cols, rows);
        proof {
            if cells@.len() > 0 {
                preedit::lemma_rows_are_inside(
                    preedit.text@,
                    preedit::widths_of(preedit.text@),
                    preedit.target,
                    origin,
                    cols as int,
                    rows as int,
                    cells@.len() - 1,
                );
            }
        }
        let (col, row): (usize, usize) = preedit_caret(cells.as_slice(), origin, cols);
        (col, if row < rows - 1 { row } else { rows - 1 })
    }

    /// What the window is called while the pane has the focus.
    pub fn window_title(&self) -> (title: &str)
        requires
            self.wf(),
        ensures
            title@ == (if self@.title.len() == 0 {
                "koma"@
            } else {
                self@.title
            }),
    {
        if self.title.as_str().unicode_len() == 0 {
            "koma"
        } else {
            self.title.as_str()
        }
    }

    /// Typing, pasting and composing jump back to the live screen.
    pub fn show_live(&mut self)
        requires
            old(self).wf(),
        ensures
            final(self).wf(),
            final(self)@ == old(self)@.with_view_offset(0),
    {
        self.set_view_offset(0);
    }

    /// Hands out what a program asked to have put on the clipboard, once.
    pub fn take_clipboard(&mut self) -> (text: Option<String>)
        requires
            old(self).wf(),
        ensures
            final(self).wf(),
            final(self)@ == (GridState { clipboard: None, ..old(self)@ }),
            match old(self)@.clipboard {
                Some(t) => text matches Some(s) && s@ == t,
                None => text is None,
            },
    {
        self.pending_clipboard.take()
    }
}

impl GridState {
    /// Whether a pane of `cols` by `rows` cells gives the grid another size that
    /// it can take.
    pub open spec fn fits(self, cols: int, rows: int) -> bool {
        let wide = model::max(cols, 1);
        let high = model::max(rows, 1);
        !(wide == self.cols && high == self.rows) && wide * high <= usize::MAX && self.has_room(
            self.rows,
        )
    }

    /// Where the input method's candidate window goes.
    pub open spec fn ime_anchor(self, preedit: PreeditState, fit_cols: int, fit_rows: int) -> (
        int,
        int,
    ) {
        let cols = fitted(fit_cols, self.cols);
        let rows = fitted(fit_rows, self.rows);
        let origin = (model::min(self.cx, cols - 1) as usize, self.cy as usize);
        let cells = preedit::placed(
            preedit.text,
            preedit::widths_of(preedit.text),
            preedit.target,
            origin,
            cols,
            rows,
        );
        let caret = preedit::caret_after(cells, origin, cols);
        (caret.0, model::min(caret.1, rows - 1))
    }
}

proof fn lemma_position(ids: Seq<PaneId>, k: int, from: int)
    requires
        ids.no_duplicates(),
        0 <= from <= k < ids.len(),
    ensures
        position_or_zero(ids, ids[k], from) == k,
    decreases k - from,
{
    if from < k {
        lemma_position(ids, k, from + 1);
    }
}

/// Cycling the focus one way and then the other comes back to the same pane.
pub proof fn law_cycling_back_and_forth_returns(ids: Seq<PaneId>, k: int, forward: bool)
    requires
        ids.no_duplicates(),
        0 <= k < ids.len(),
    ensures
        cycled(ids, cycled(ids, ids[k], forward), !forward) == ids[k],
{
    let last = ids.len() - 1;
    lemma_position(ids, k, 0);
    lemma_position(ids, 0, 0);
    lemma_position(ids, last, 0);
    if forward && k < last {
        lemma_position(ids, k + 1, 0);
    }
    if !forward && k > 0 {
        lemma_position(ids, k - 1, 0);
    }
}

/// A program that is gone leaves nothing behind that gets in the way: what it
/// drew stays, the history can be read again, and the wheel is ours.
pub proof fn law_a_program_that_is_gone_gives_the_pane_back(s: GridState, lines: int)
    requires
        s.wf(),
        0 < lines,
    ensures
        s.soft_reset().screen == s.screen,
        s.soft_reset().history == s.history,
        !s.soft_reset().program_owns_screen(),
        s.soft_reset().scroll_view(lines).view_offset == model::min(
            s.view_offset + lines,
            s.history.len() as int,
        ),
        s.soft_reset().wheel(lines, false, None) is Show,
{
}

/// Cycling goes to the next pane in reading order, or to the previous one, and
/// round at the ends.
pub proof fn law_cycling_goes_to_the_neighbour(ids: Seq<PaneId>, k: int)
    requires
        ids.no_duplicates(),
        0 <= k < ids.len(),
    ensures
        k + 1 < ids.len() ==> cycled(ids, ids[k], true) == ids[k + 1],
        k + 1 == ids.len() ==> cycled(ids, ids[k], true) == ids[0],
        k > 0 ==> cycled(ids, ids[k], false) == ids[k - 1],
        k == 0 ==> cycled(ids, ids[k], false) == ids[ids.len() - 1],
{
    lemma_position(ids, k, 0);
}

/// What fits of a grid is what there is room for, but never nothing.
pub proof fn law_what_fits(fit: int, size: int)
    requires
        0 <= fit,
        1 <= size,
    ensures
        1 <= fitted(fit, size) <= size,
        1 <= fit <= size ==> fitted(fit, size) == fit,
        fit > size ==> fitted(fit, size) == size,
        fit == 0 ==> fitted(fit, size) == 1,
{
}

/// The input method's window is at the caret, on the pane's last row where the
/// caret would be past it.
pub proof fn law_the_window_of_the_input_method(
    g: GridState,
    preedit: PreeditState,
    fit_cols: int,
    fit_rows: int,
)
    requires
        g.wf(),
        1 <= fit_cols,
        1 <= fit_rows,
    ensures
        ({
            let cols = if fit_cols < g.cols { fit_cols } else { g.cols };
            let rows = if fit_rows < g.rows { fit_rows } else { g.rows };
            let start = (if g.cx < cols { g.cx as usize } else { (cols - 1) as usize }, g.cy as usize);
            let cells = preedit::placed(
                preedit.text,
                preedit::widths_of(preedit.text),
                preedit.target,
                start,
                cols,
                rows,
            );
            let caret = preedit::caret_after(cells, start, cols);
            let at = g.ime_anchor(preedit, fit_cols, fit_rows);
            &&& at.0 == caret.0
            &&& caret.1 < rows ==> at.1 == caret.1
            &&& caret.1 >= rows ==> at.1 == rows - 1
        }),
{
}

/// A pane that changes its size changes its grid to that size, as long as such a
/// grid can be had and its lines can be counted.
pub proof fn law_a_pane_is_fitted(g: GridState, cols: int, rows: int)
    requires
        g.wf(),
        1 <= cols,
        1 <= rows,
        cols * rows <= usize::MAX,
        g.trimmed + g.history.len() + g.rows <= usize::MAX,
    ensures
        g.fits(cols, rows) == !(cols == g.cols && rows == g.rows),
{
}

/// A program that is gone takes its modes with it: what it asked of the keyboard,
/// the mouse, the wheel and pasting is off, the cursor shows, and everything
/// else, its screen included, is as it was.
pub proof fn law_a_program_that_is_gone_takes_its_modes_along(s: GridState)
    ensures
        s.soft_reset() == (GridState {
            app_cursor_keys: false,
            bracketed_paste: false,
            mouse_tracking: mouse::Tracking::Off,
            mouse_encoding: mouse::Encoding::Legacy,
            alternate_scroll: true,
            cursor_visible: true,
            orphaned: s.parked is Some,
            ..s
        }),
{
}

} // verus!
