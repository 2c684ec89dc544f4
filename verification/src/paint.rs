//! What a pane shows, in cells: which backgrounds, characters and cursors go
//! where, in the order they are drawn. Turning cells into pixels is left to
//! whoever draws them.

use crate::cell::{Cell, CursorShape, Rgb, FLAG_BOLD, FLAG_UNDERLINE, FLAG_WIDE_SPACER};
use crate::grid::Grid;
use crate::model::{self, GridState};
use crate::pane::PaneId;
use crate::preedit::{self, layout_preedit, preedit_caret, Preedit, PreeditCell, PreeditState};
use crate::selection::{self, Selection};
use crate::theme::{self, resolve_pair, Theme};
use vstd::prelude::*;

verus! {

/// What something is painted with.
#[derive(Clone, Copy, PartialEq, Eq, Debug)]
pub enum Ink {
    Rgb(Rgb),
    /// The background of selected text.
    Selection,
    /// The background of composing text.
    Composition,
}

/// One thing to draw. Columns and rows are those of the pane.
#[derive(Clone, Copy, PartialEq, Eq, Debug)]
pub enum Paint {
    /// A background, `width` cells wide.
    Fill { col: usize, row: usize, width: usize, ink: Ink },
    Glyph { col: usize, row: usize, c: char, bold: bool, ink: Ink },
    /// A line under one cell.
    Underline { col: usize, row: usize, ink: Ink },
    /// The terminal's cursor, which is fainter where the pane has no focus.
    Cursor { col: usize, row: usize, shape: CursorShape, focused: bool },
    /// The rule under composing text, heavier under the active segment.
    Rule { col: usize, row: usize, width: usize, active: bool },
    /// The caret of composing text.
    Caret { col: usize, row: usize },
}

pub open spec fn is_bold(cell: Cell) -> bool {
    cell.flags & FLAG_BOLD != 0
}

pub open spec fn is_underlined(cell: Cell) -> bool {
    cell.flags & FLAG_UNDERLINE != 0
}

/// Whether a cell is the right-hand half of a double-width character.
pub open spec fn is_spacer(cell: Cell) -> bool {
    cell.flags & FLAG_WIDE_SPACER != 0
}

/// How many cells the character in column `x` covers.
pub open spec fn cell_span(row: Seq<Cell>, x: int) -> usize {
    if x + 1 < row.len() && is_spacer(row[x + 1]) { 2usize } else { 1usize }
}

/// Whether a selection covers a cell.
pub open spec fn is_selected(selection: Option<Selection>, abs: int, x: int, cols: int) -> bool {
    selection matches Some(s) && selection::covers(s.span(), abs, x, cols)
}

/// The background of the cell in column `x`, if it has one of its own. The
/// spacer half of a double-width character is covered by the other half.
pub open spec fn fill_at(
    row: Seq<Cell>,
    x: int,
    y: int,
    theme: &Theme,
    pane_bg: Rgb,
    selected: bool,
) -> Seq<Paint> {
    let bg = theme::pair_of(row[x], theme).1;
    let width = cell_span(row, x);
    if is_spacer(row[x]) {
        Seq::empty()
    } else if selected {
        seq![Paint::Fill { col: x as usize, row: y as usize, width, ink: Ink::Selection }]
    } else if bg@ != pane_bg@ {
        seq![Paint::Fill { col: x as usize, row: y as usize, width, ink: Ink::Rgb(bg) }]
    } else {
        Seq::empty()
    }
}

/// The backgrounds of the first `n` cells of a row.
pub open spec fn fills(
    row: Seq<Cell>,
    n: int,
    y: int,
    theme: &Theme,
    pane_bg: Rgb,
    selection: Option<Selection>,
    abs: int,
    cols: int,
) -> Seq<Paint>
    decreases n,
{
    if n <= 0 {
        Seq::empty()
    } else {
        fills(row, n - 1, y, theme, pane_bg, selection, abs, cols) + fill_at(
            row,
            n - 1,
            y,
            theme,
            pane_bg,
            is_selected(selection, abs, n - 1, cols),
        )
    }
}

/// The character in column `x`, and the line under it.
pub open spec fn ink_at(row: Seq<Cell>, x: int, y: int, theme: &Theme) -> Seq<Paint> {
    let cell = row[x];
    let ink = Ink::Rgb(theme::pair_of(cell, theme).0);
    if is_spacer(cell) {
        Seq::empty()
    } else {
        let glyph = if cell.c != ' ' {
            seq![
                Paint::Glyph {
                    col: x as usize,
                    row: y as usize,
                    c: cell.c,
                    bold: is_bold(cell),
                    ink,
                },
            ]
        } else {
            Seq::empty()
        };
        if is_underlined(cell) {
            glyph.push(Paint::Underline { col: x as usize, row: y as usize, ink })
        } else {
            glyph
        }
    }
}

/// The characters of the first `n` cells of a row.
pub open spec fn inks(row: Seq<Cell>, n: int, y: int, theme: &Theme) -> Seq<Paint>
    decreases n,
{
    if n <= 0 {
        Seq::empty()
    } else {
        inks(row, n - 1, y, theme) + ink_at(row, n - 1, y, theme)
    }
}

/// One composed character: its background, itself, and the rule under it.
pub open spec fn composed(cell: PreeditCell, theme: &Theme) -> Seq<Paint> {
    seq![
        Paint::Fill { col: cell.col, row: cell.row, width: cell.width, ink: Ink::Composition },
        Paint::Glyph {
            col: cell.col,
            row: cell.row,
            c: cell.c,
            bold: false,
            ink: Ink::Rgb(theme.fg),
        },
        Paint::Rule { col: cell.col, row: cell.row, width: cell.width, active: cell.active },
    ]
}

/// The first `n` characters of composing text.
pub open spec fn composition(cells: Seq<PreeditCell>, n: int, theme: &Theme) -> Seq<Paint>
    decreases n,
{
    if n <= 0 {
        Seq::empty()
    } else {
        composition(cells, n - 1, theme) + composed(cells[n - 1], theme)
    }
}

/// The background of a pane.
pub open spec fn background(theme: &Theme, focused: bool) -> Rgb {
    if focused { theme.bg } else { theme.bg_unfocused }
}

/// Whether the composing text belongs to the pane `id`.
pub open spec fn composes_in(preedit: PreeditState, id: PaneId) -> bool {
    preedit.is_active() && preedit.owner == Some(id)
}

impl GridState {
    /// The first `n` rows of the viewport, `cols` columns of each: for each row
    /// the backgrounds first, so that no character gets painted over. Rows from
    /// the history can be narrower than the screen is now.
    pub open spec fn paint_rows(
        self,
        theme: &Theme,
        pane_bg: Rgb,
        selection: Option<Selection>,
        cols: int,
        n: int,
    ) -> Seq<Paint>
        decreases n,
    {
        if n <= 0 {
            Seq::empty()
        } else {
            let y = n - 1;
            let above = self.paint_rows(theme, pane_bg, selection, cols, y);
            match self.view_row(y) {
                Some(row) => {
                    let m = model::min(cols, row.len() as int);
                    above + fills(
                        row,
                        m,
                        y,
                        theme,
                        pane_bg,
                        selection,
                        self.abs_row(y),
                        self.cols,
                    ) + inks(row, m, y, theme)
                },
                None => above,
            }
        }
    }

    /// Whether the terminal's cursor shows: on the live screen only, where it
    /// is visible, within the part of the screen that fits, and not while text
    /// is composed, for then the caret belongs to the composition.
    pub open spec fn shows_cursor(self, composing: bool, cols: int, rows: int) -> bool {
        !composing && self.cursor_visible && self.view_offset == 0 && self.cy < rows && self.cx
            < cols
    }

    /// The terminal's cursor. The character under a focused block cursor is
    /// painted again in the background colour, so that it stays readable.
    pub open spec fn paint_cursor(self, theme: &Theme, focused: bool) -> Seq<Paint> {
        let cursor = Paint::Cursor {
            col: self.cx as usize,
            row: self.cy as usize,
            shape: self.cursor_shape,
            focused,
        };
        let cell = self.screen[self.cy][self.cx];
        if focused && self.cursor_shape == CursorShape::Block && cell.c != ' ' {
            seq![
                cursor,
                Paint::Glyph {
                    col: self.cx as usize,
                    row: self.cy as usize,
                    c: cell.c,
                    bold: is_bold(cell),
                    ink: Ink::Rgb(theme.bg),
                },
            ]
        } else {
            seq![cursor]
        }
    }

    /// Where composing text starts: at the cursor, kept within the columns that
    /// fit.
    pub open spec fn composition_origin(self, cols: int) -> (usize, usize) {
        (model::min(self.cx, model::monus(cols, 1)) as usize, self.cy as usize)
    }

    /// Composing text, drawn over the grid, and its caret if the IME wants one
    /// shown. It is not in the pty yet, so it exists only here until it is
    /// committed.
    pub open spec fn paint_composition(
        self,
        theme: &Theme,
        preedit: PreeditState,
        cols: int,
        rows: int,
    ) -> Seq<Paint> {
        let origin = self.composition_origin(cols);
        let cells = preedit::placed(
            preedit.text,
            preedit::widths_of(preedit.text),
            preedit.target,
            origin,
            cols,
            rows,
        );
        let caret = preedit::caret_after(cells, origin, cols);
        let text = composition(cells, cells.len() as int, theme);
        if preedit.target is Some && caret.1 < rows {
            text.push(Paint::Caret { col: caret.0 as usize, row: caret.1 as usize })
        } else {
            text
        }
    }

    /// Everything that a pane shows, `fit_cols` by `fit_rows` cells of it.
    pub open spec fn paint(
        self,
        theme: &Theme,
        id: PaneId,
        focused: bool,
        selection: Option<Selection>,
        preedit: PreeditState,
        fit_cols: int,
        fit_rows: int,
    ) -> Seq<Paint> {
        let cols = model::min(fit_cols, self.cols);
        let rows = model::min(fit_rows, self.rows);
        let composing = composes_in(preedit, id);
        let text = self.paint_rows(theme, background(theme, focused), selection, cols, rows);
        let cursor = if self.shows_cursor(composing, cols, rows) {
            self.paint_cursor(theme, focused)
        } else {
            Seq::empty()
        };
        let over = if composing {
            self.paint_composition(theme, preedit, cols, rows)
        } else {
            Seq::empty()
        };
        text + cursor + over
    }
}

fn bold(cell: &Cell) -> (yes: bool)
    ensures
        yes == is_bold(*cell),
{
    cell.flags & FLAG_BOLD != 0
}

fn spacer(cell: &Cell) -> (yes: bool)
    ensures
        yes == is_spacer(*cell),
{
    cell.flags & FLAG_WIDE_SPACER != 0
}

/// True when cell `x` is the left half of a double-width character.
pub fn is_wide(row: &[Cell], x: usize) -> (yes: bool)
    ensures
        yes == (cell_span(row@, x as int) == 2),
{
    row.len() > 0 && x < row.len() - 1 && spacer(&row[x + 1])
}

fn same_rgb(a: &Rgb, b: &Rgb) -> (same: bool)
    ensures
        same == (a@ == b@),
{
    if a[0] == b[0] && a[1] == b[1] && a[2] == b[2] {
        assert(a@ =~= b@);
        true
    } else {
        false
    }
}

fn push_fill(
    out: &mut Vec<Paint>,
    row: &[Cell],
    x: usize,
    y: usize,
    theme: &Theme,
    pane_bg: Rgb,
    selected: bool,
)
    requires
        x < row@.len(),
    ensures
        final(out)@ == old(out)@ + fill_at(
            row@,
            x as int,
            y as int,
            theme,
            pane_bg,
            selected,
        ),
{
    let ghost before = out@;
    let cell = &row[x];
    if spacer(cell) {
        assert(out@ =~= before + Seq::<Paint>::empty());
        return;
    }
    let (_, bg) = resolve_pair(cell, theme);
    let width: usize = if is_wide(row, x) { 2 } else { 1 };
    if selected {
        let paint = Paint::Fill { col: x, row: y, width, ink: Ink::Selection };
        out.push(paint);
        assert(out@ =~= before + seq![paint]);
    } else if !same_rgb(&bg, &pane_bg) {
        let paint = Paint::Fill { col: x, row: y, width, ink: Ink::Rgb(bg) };
        out.push(paint);
        assert(out@ =~= before + seq![paint]);
    } else {
        assert(out@ =~= before + Seq::<Paint>::empty());
    }
}

fn push_ink(out: &mut Vec<Paint>, row: &[Cell], x: usize, y: usize, theme: &Theme)
    requires
        x < row@.len(),
    ensures
        final(out)@ == old(out)@ + ink_at(row@, x as int, y as int, theme),
{
    let ghost before = out@;
    let cell = &row[x];
    if spacer(cell) {
        assert(out@ =~= before + Seq::<Paint>::empty());
        return;
    }
    let (fg, _) = resolve_pair(cell, theme);
    let ink = Ink::Rgb(fg);
    if cell.c != ' ' {
        let heavy = bold(cell);
        out.push(Paint::Glyph { col: x, row: y, c: cell.c, bold: heavy, ink });
    }
    if cell.flags & FLAG_UNDERLINE != 0 {
        out.push(Paint::Underline { col: x, row: y, ink });
    }
    assert(out@ =~= before + ink_at(row@, x as int, y as int, theme));
}

/// Whether a selection covers a cell of the viewport row `y`.
fn selected_at(grid: &Grid, selection: &Option<Selection>, x: usize, y: usize) -> (yes: bool)
    requires
        grid.wf(),
    ensures
        yes == is_selected(*selection, grid@.abs_row(y as int), x as int, grid@.cols),
{
    match selection {
        Some(s) => {
            let id: usize = match grid.trimmed.checked_add(grid.scrollback.len()) {
                Some(total) => match (total - grid.view_offset).checked_add(y) {
                    Some(id) => id,
                    // No selection reaches past the ids that can be counted.
                    None => return false,
                },
                None => if y < grid.view_offset {
                    let back: usize = grid.view_offset - y;
                    let rest: usize = grid.scrollback.len() - back;
                    match grid.trimmed.checked_add(rest) {
                        Some(id) => id,
                        None => return false,
                    }
                } else {
                    return false;
                },
            };
            s.contains(id, x, grid.cols)
        },
        None => false,
    }
}

fn push_fills(
    out: &mut Vec<Paint>,
    grid: &Grid,
    row: &[Cell],
    n: usize,
    y: usize,
    theme: &Theme,
    pane_bg: Rgb,
    selection: &Option<Selection>,
)
    requires
        grid.wf(),
        n <= row@.len(),
    ensures
        final(out)@ == old(out)@ + fills(
            row@,
            n as int,
            y as int,
            theme,
            pane_bg,
            *selection,
            grid@.abs_row(y as int),
            grid@.cols,
        ),
{
    let ghost before = out@;
    let ghost abs = grid@.abs_row(y as int);
    let mut x: usize = 0;
    assert(out@ =~= before + Seq::<Paint>::empty());
    while x < n
        invariant
            grid.wf(),
            x <= n <= row@.len(),
            abs == grid@.abs_row(y as int),
            out@ == before + fills(
                row@,
                x as int,
                y as int,
                theme,
                pane_bg,
                *selection,
                abs,
                grid@.cols,
            ),
        decreases n - x,
    {
        let ghost done = out@;
        let selected = selected_at(grid, selection, x, y);
        push_fill(out, row, x, y, theme, pane_bg, selected);
        x = x + 1;
        assert(out@ =~= before + fills(
            row@,
            x as int,
            y as int,
            theme,
            pane_bg,
            *selection,
            abs,
            grid@.cols,
        ));
    }
}

fn push_inks(out: &mut Vec<Paint>, row: &[Cell], n: usize, y: usize, theme: &Theme)
    requires
        n <= row@.len(),
    ensures
        final(out)@ == old(out)@ + inks(row@, n as int, y as int, theme),
{
    let ghost before = out@;
    let mut x: usize = 0;
    assert(out@ =~= before + Seq::<Paint>::empty());
    while x < n
        invariant
            x <= n <= row@.len(),
            out@ == before + inks(row@, x as int, y as int, theme),
        decreases n - x,
    {
        push_ink(out, row, x, y, theme);
        x = x + 1;
        assert(out@ =~= before + inks(row@, x as int, y as int, theme));
    }
}

fn push_rows(
    out: &mut Vec<Paint>,
    grid: &Grid,
    theme: &Theme,
    pane_bg: Rgb,
    selection: &Option<Selection>,
    cols: usize,
    rows: usize,
)
    requires
        grid.wf(),
    ensures
        final(out)@ == old(out)@ + grid@.paint_rows(
            theme,
            pane_bg,
            *selection,
            cols as int,
            rows as int,
        ),
{
    let ghost before = out@;
    let mut y: usize = 0;
    assert(out@ =~= before + Seq::<Paint>::empty());
    while y < rows
        invariant
            grid.wf(),
            y <= rows,
            out@ == before + grid@.paint_rows(theme, pane_bg, *selection, cols as int, y as int),
        decreases rows - y,
    {
        let ghost above = grid@.paint_rows(theme, pane_bg, *selection, cols as int, y as int);
        if let Some(row) = grid.view_row(y) {
            let m: usize = if cols < row.len() { cols } else { row.len() };
            // Cell backgrounds first, so no glyph gets painted over.
            push_fills(out, grid, row, m, y, theme, pane_bg, selection);
            push_inks(out, row, m, y, theme);
        }
        y = y + 1;
        assert(out@ =~= before + grid@.paint_rows(
            theme,
            pane_bg,
            *selection,
            cols as int,
            y as int,
        ));
    }
}

fn push_cursor(out: &mut Vec<Paint>, grid: &Grid, theme: &Theme, focused: bool)
    requires
        grid.wf(),
    ensures
        final(out)@ == old(out)@ + grid@.paint_cursor(theme, focused),
{
    let ghost before = out@;
    out.push(
        Paint::Cursor { col: grid.cx, row: grid.cy, shape: grid.cursor_shape, focused },
    );
    // Repaint the glyph under a focused block cursor in the pane background
    // colour so it stays readable.
    if focused && grid.cursor_shape == CursorShape::Block {
        let cell = grid.cell(grid.cx, grid.cy);
        if cell.c != ' ' {
            let heavy = bold(cell);
            out.push(
                Paint::Glyph {
                    col: grid.cx,
                    row: grid.cy,
                    c: cell.c,
                    bold: heavy,
                    ink: Ink::Rgb(theme.bg),
                },
            );
        }
    }
    assert(out@ =~= before + grid@.paint_cursor(theme, focused));
}

fn push_composed(out: &mut Vec<Paint>, cell: PreeditCell, theme: &Theme)
    ensures
        final(out)@ == old(out)@ + composed(cell, theme),
{
    let ghost before = out@;
    out.push(
        Paint::Fill { col: cell.col, row: cell.row, width: cell.width, ink: Ink::Composition },
    );
    out.push(
        Paint::Glyph {
            col: cell.col,
            row: cell.row,
            c: cell.c,
            bold: false,
            ink: Ink::Rgb(theme.fg),
        },
    );
    // The active segment gets a heavier rule, the rest a thin one, the usual
    // way IMEs show what is being converted.
    out.push(
        Paint::Rule { col: cell.col, row: cell.row, width: cell.width, active: cell.active },
    );
    assert(out@ =~= before + composed(cell, theme));
}

fn push_composition(
    out: &mut Vec<Paint>,
    grid: &Grid,
    theme: &Theme,
    preedit: &Preedit,
    cols: usize,
    rows: usize,
)
    requires
        grid.wf(),
    ensures
        final(out)@ == old(out)@ + grid@.paint_composition(
            theme,
            preedit@,
            cols as int,
            rows as int,
        ),
{
    let ghost before = out@;
    let last: usize = if cols > 0 { cols - 1 } else { 0 };
    let origin: (usize, usize) = (if grid.cx < last { grid.cx } else { last }, grid.cy);
    let cells = layout_preedit(preedit.text.as_str(), preedit.target, origin, cols, rows);
    let mut i: usize = 0;
    assert(out@ =~= before + Seq::<Paint>::empty());
    while i < cells.len()
        invariant
            i <= cells@.len(),
            out@ == before + composition(cells@, i as int, theme),
        decreases cells.len() - i,
    {
        push_composed(out, cells[i], theme);
        i = i + 1;
        assert(out@ =~= before + composition(cells@, i as int, theme));
    }
    proof {
        if cells@.len() > 0 {
            preedit::lemma_rows_are_inside(
                preedit.text@,
                preedit::widths_of(preedit.text@),
                preedit.target,
                origin,
                cols as int,
                rows as int,
                cells@.len() - 1,
            );
        }
    }
    let (col, row): (usize, usize) = preedit_caret(cells.as_slice(), origin, cols);
    // Without a range the IME wants no cursor shown.
    if preedit.target.is_some() && row < rows {
        out.push(Paint::Caret { col, row });
    }
    assert(out@ =~= before + grid@.paint_composition(theme, preedit@, cols as int, rows as int));
}

/// What the pane `id` shows, `fit_cols` by `fit_rows` cells of it, in the order
/// it is drawn. The pane's own background is not part of it.
pub fn paint_pane(
    grid: &Grid,
    theme: &Theme,
    id: PaneId,
    focused: bool,
    selection: &Option<Selection>,
    preedit: &Preedit,
    fit_cols: usize,
    fit_rows: usize,
) -> (out: Vec<Paint>)
    requires
        grid.wf(),
    ensures
        out@ == grid@.paint(
            theme,
            id,
            focused,
            *selection,
            preedit@,
            fit_cols as int,
            fit_rows as int,
        ),
{
    let cols: usize = if fit_cols < grid.cols { fit_cols } else { grid.cols };
    let rows: usize = if fit_rows < grid.rows { fit_rows } else { grid.rows };
    let pane_bg = if focused { theme.bg } else { theme.bg_unfocused };
    let mut out: Vec<Paint> = Vec::new();
    push_rows(&mut out, grid, theme, pane_bg, selection, cols, rows);
    // While the IME is composing, the caret belongs to the composition, so the
    // terminal's own cursor stands down.
    let owned = match preedit.owner {
        Some(owner) => owner == id,
        None => false,
    };
    let composing = preedit.is_active() && owned;
    // Cursor, live screen only.
    let show_cursor = !composing && grid.cursor_visible && grid.view_offset == 0 && grid.cy < rows
        && grid.cx < cols;
    if show_cursor {
        push_cursor(&mut out, grid, theme, focused);
    }
    if composing {
        push_composition(&mut out, grid, theme, preedit, cols, rows);
    }
    assert(out@ =~= grid@.paint(
        theme,
        id,
        focused,
        *selection,
        preedit@,
        fit_cols as int,
        fit_rows as int,
    ));
    out
}

/// Whether a pane gets an accent bar above it, so that the focused one of
/// several reads at a glance.
pub fn has_accent(focused: bool, panes: usize) -> (yes: bool)
    ensures
        yes == (focused && panes > 1),
{
    focused && panes > 1
}

/// Where something is drawn.
pub open spec fn place_of(p: Paint) -> (usize, usize) {
    match p {
        Paint::Fill { col, row, .. } => (col, row),
        Paint::Glyph { col, row, .. } => (col, row),
        Paint::Underline { col, row, .. } => (col, row),
        Paint::Cursor { col, row, .. } => (col, row),
        Paint::Rule { col, row, .. } => (col, row),
        Paint::Caret { col, row } => (col, row),
    }
}

/// Whether something is drawn within the first `cols` columns and `rows` rows.
pub open spec fn is_within(p: Paint, cols: int, rows: int) -> bool {
    place_of(p).0 < cols && place_of(p).1 < rows
}

/// Whether something is part of the text: within the pane, and no cursor.
spec fn is_text(p: Paint, cols: int, rows: int) -> bool {
    is_within(p, cols, rows) && !(p is Cursor)
}

proof fn lemma_fills_are_text(
    row: Seq<Cell>,
    n: int,
    y: int,
    theme: &Theme,
    pane_bg: Rgb,
    selection: Option<Selection>,
    abs: int,
    grid_cols: int,
    cols: int,
    rows: int,
)
    requires
        n <= cols <= usize::MAX,
        0 <= y < rows <= usize::MAX,
    ensures
        forall|i: int|
            0 <= i < fills(row, n, y, theme, pane_bg, selection, abs, grid_cols).len()
                ==> #[trigger] is_text(
                fills(row, n, y, theme, pane_bg, selection, abs, grid_cols)[i],
                cols,
                rows,
            ),
    decreases n,
{
    if n > 0 {
        lemma_fills_are_text(
            row,
            n - 1,
            y,
            theme,
            pane_bg,
            selection,
            abs,
            grid_cols,
            cols,
            rows,
        );
        let before = fills(row, n - 1, y, theme, pane_bg, selection, abs, grid_cols);
        let all = fills(row, n, y, theme, pane_bg, selection, abs, grid_cols);
        assert forall|i: int| 0 <= i < all.len() implies #[trigger] is_text(all[i], cols, rows) by {
            if i < before.len() {
                assert(is_text(before[i], cols, rows));
            }
        }
    }
}

proof fn lemma_inks_are_text(
    row: Seq<Cell>,
    n: int,
    y: int,
    theme: &Theme,
    cols: int,
    rows: int,
)
    requires
        n <= cols <= usize::MAX,
        0 <= y < rows <= usize::MAX,
    ensures
        forall|i: int|
            0 <= i < inks(row, n, y, theme).len() ==> #[trigger] is_text(
                inks(row, n, y, theme)[i],
                cols,
                rows,
            ),
    decreases n,
{
    if n > 0 {
        lemma_inks_are_text(row, n - 1, y, theme, cols, rows);
        let before = inks(row, n - 1, y, theme);
        let all = inks(row, n, y, theme);
        assert forall|i: int| 0 <= i < all.len() implies #[trigger] is_text(all[i], cols, rows) by {
            if i < before.len() {
                assert(is_text(before[i], cols, rows));
            } else {
                assert(all[i] == ink_at(row, n - 1, y, theme)[i - before.len()]);
            }
        }
    }
}

proof fn lemma_rows_are_text(
    g: GridState,
    theme: &Theme,
    pane_bg: Rgb,
    selection: Option<Selection>,
    cols: int,
    n: int,
    rows: int,
)
    requires
        0 <= cols <= usize::MAX,
        n <= rows <= usize::MAX,
    ensures
        forall|i: int|
            0 <= i < g.paint_rows(theme, pane_bg, selection, cols, n).len() ==> #[trigger] is_text(
                g.paint_rows(theme, pane_bg, selection, cols, n)[i],
                cols,
                rows,
            ),
    decreases n,
{
    if n > 0 {
        let y = n - 1;
        lemma_rows_are_text(g, theme, pane_bg, selection, cols, y, rows);
        let above = g.paint_rows(theme, pane_bg, selection, cols, y);
        let all = g.paint_rows(theme, pane_bg, selection, cols, n);
        if let Some(row) = g.view_row(y) {
            let m = model::min(cols, row.len() as int);
            let abs = g.abs_row(y);
            lemma_fills_are_text(
                row,
                m,
                y,
                theme,
                pane_bg,
                selection,
                abs,
                g.cols,
                cols,
                rows,
            );
            lemma_inks_are_text(row, m, y, theme, cols, rows);
            let under = fills(row, m, y, theme, pane_bg, selection, abs, g.cols);
            let over = inks(row, m, y, theme);
            assert(all == above + under + over);
            assert forall|i: int| 0 <= i < all.len() implies #[trigger] is_text(
                all[i],
                cols,
                rows,
            ) by {
                if i < above.len() {
                    assert(is_text(above[i], cols, rows));
                } else if i < above.len() + under.len() {
                    assert(is_text(under[i - above.len()], cols, rows));
                } else {
                    assert(is_text(over[i - above.len() - under.len()], cols, rows));
                }
            }
        }
    }
}

proof fn lemma_composition_is_text(
    cells: Seq<PreeditCell>,
    n: int,
    theme: &Theme,
    cols: int,
    rows: int,
)
    requires
        n <= cells.len(),
        forall|k: int|
            0 <= k < cells.len() ==> (#[trigger] cells[k]).col < cols && cells[k].row < rows,
    ensures
        forall|i: int|
            0 <= i < composition(cells, n, theme).len() ==> #[trigger] is_text(
                composition(cells, n, theme)[i],
                cols,
                rows,
            ),
    decreases n,
{
    if n > 0 {
        lemma_composition_is_text(cells, n - 1, theme, cols, rows);
        let before = composition(cells, n - 1, theme);
        let all = composition(cells, n, theme);
        let here = cells[n - 1];
        assert(here.col < cols && here.row < rows);
        assert forall|i: int| 0 <= i < all.len() implies #[trigger] is_text(all[i], cols, rows) by {
            if i < before.len() {
                assert(is_text(before[i], cols, rows));
            } else {
                assert(all[i] == composed(here, theme)[i - before.len()]);
            }
        }
    }
}

/// Nothing is drawn outside the part of a pane that fits, and the terminal's
/// cursor is drawn only where it shows: never over the history, and never while
/// the pane has composing text.
pub proof fn law_paint_stays_in_the_pane(
    g: GridState,
    theme: &Theme,
    id: PaneId,
    focused: bool,
    selection: Option<Selection>,
    preedit: PreeditState,
    fit_cols: int,
    fit_rows: int,
    i: int,
)
    requires
        0 < g.cols <= usize::MAX,
        0 < g.rows <= usize::MAX,
        0 <= g.cx <= usize::MAX,
        0 <= g.cy <= usize::MAX,
        0 < fit_cols,
        0 <= fit_rows,
        0 <= i < g.paint(theme, id, focused, selection, preedit, fit_cols, fit_rows).len(),
    ensures
        ({
            let p = g.paint(theme, id, focused, selection, preedit, fit_cols, fit_rows)[i];
            &&& is_within(p, model::min(fit_cols, g.cols), model::min(fit_rows, g.rows))
            &&& p is Cursor ==> g.view_offset == 0 && g.cursor_visible && !composes_in(preedit, id)
        }),
{
    let cols = model::min(fit_cols, g.cols);
    let rows = model::min(fit_rows, g.rows);
    let composing = composes_in(preedit, id);
    let pane_bg = background(theme, focused);
    lemma_rows_are_text(g, theme, pane_bg, selection, cols, rows, rows);
    let text = g.paint_rows(theme, pane_bg, selection, cols, rows);
    let p = g.paint(theme, id, focused, selection, preedit, fit_cols, fit_rows)[i];
    if i < text.len() {
        assert(is_text(text[i], cols, rows));
    } else if composing {
        lemma_painted_composition(g, theme, preedit, cols, rows, i - text.len());
        assert(p == g.paint_composition(theme, preedit, cols, rows)[i - text.len()]);
    } else {
        assert(p == g.paint_cursor(theme, focused)[i - text.len()]);
    }
}

proof fn lemma_painted_composition(
    g: GridState,
    theme: &Theme,
    preedit: PreeditState,
    cols: int,
    rows: int,
    i: int,
)
    requires
        0 < cols <= usize::MAX,
        0 <= rows <= usize::MAX,
        0 <= g.cx <= usize::MAX,
        0 <= g.cy <= usize::MAX,
        0 <= i < g.paint_composition(theme, preedit, cols, rows).len(),
    ensures
        is_text(g.paint_composition(theme, preedit, cols, rows)[i], cols, rows),
{
    let origin = g.composition_origin(cols);
    let widths = preedit::widths_of(preedit.text);
    let cells = preedit::placed(preedit.text, widths, preedit.target, origin, cols, rows);
    assert forall|k: int| 0 <= k < cells.len() implies (#[trigger] cells[k]).col < cols
        && cells[k].row < rows by {
        preedit::law_composition_stays_in_the_pane(
            preedit.text,
            widths,
            preedit.target,
            origin,
            cols,
            rows,
            k,
        );
    }
    lemma_composition_is_text(cells, cells.len() as int, theme, cols, rows);
    let text = composition(cells, cells.len() as int, theme);
    if i < text.len() {
        assert(is_text(text[i], cols, rows));
    } else if cells.len() > 0 {
        assert(cells.last() == cells[cells.len() - 1]);
    }
}

/// The line that the viewport shows on row `y`: the last lines of the history, as
/// many as the viewport is scrolled back by, and then the screen from its top.
pub open spec fn shown_line(g: GridState, y: int) -> Seq<Cell> {
    if y < g.view_offset {
        g.history[g.history.len() - g.view_offset + y]
    } else {
        g.screen[y - g.view_offset]
    }
}

/// The viewport shows the history above the fold and the screen below it, and
/// the ids of its rows count on from that of the oldest line.
pub proof fn law_the_viewport_shows_history_then_screen(g: GridState, y: int)
    requires
        g.wf(),
        0 <= y < g.rows,
    ensures
        g.view_row(y) == Some(shown_line(g, y)),
        g.abs_row(y) == g.trimmed + (g.history.len() - g.view_offset + y),
        g.row_at(g.trimmed + (g.history.len() - g.view_offset + y)) == Some(shown_line(g, y)),
        g.row_at(g.trimmed - 1) is None,
        g.row_at(g.trimmed + g.history.len() + g.rows) is None,
{
}

/// Whether the cell in column `x` of row `y` of the viewport is highlighted.
pub open spec fn is_highlighted(
    g: GridState,
    selection: Option<Selection>,
    x: int,
    y: int,
) -> bool {
    match selection {
        Some(s) => selection::covers(
            s.span(),
            g.trimmed + (g.history.len() - g.view_offset + y),
            x,
            g.cols,
        ),
        None => false,
    }
}

/// How many columns the character in column `x` of a line takes on screen.
pub open spec fn drawn_width(line: Seq<Cell>, x: int) -> usize {
    if x + 1 < line.len() && line[x + 1].flags & 16 != 0 { 2usize } else { 1usize }
}

proof fn lemma_contains_concat(a: Seq<Paint>, b: Seq<Paint>, p: Paint)
    requires
        a.contains(p) || b.contains(p),
    ensures
        (a + b).contains(p),
{
    if a.contains(p) {
        let i = choose|i: int| 0 <= i < a.len() && a[i] == p;
        assert((a + b)[i] == p);
    } else {
        let i = choose|i: int| 0 <= i < b.len() && b[i] == p;
        assert((a + b)[a.len() + i] == p);
    }
}

proof fn lemma_fills_contain(
    row: Seq<Cell>,
    n: int,
    y: int,
    theme: &Theme,
    pane_bg: Rgb,
    selection: Option<Selection>,
    abs: int,
    cols: int,
    x: int,
    p: Paint,
)
    requires
        0 <= x < n,
        fill_at(row, x, y, theme, pane_bg, is_selected(selection, abs, x, cols)).contains(p),
    ensures
        fills(row, n, y, theme, pane_bg, selection, abs, cols).contains(p),
    decreases n,
{
    if x < n - 1 {
        lemma_fills_contain(row, n - 1, y, theme, pane_bg, selection, abs, cols, x, p);
    }
    lemma_contains_concat(
        fills(row, n - 1, y, theme, pane_bg, selection, abs, cols),
        fill_at(row, n - 1, y, theme, pane_bg, is_selected(selection, abs, n - 1, cols)),
        p,
    );
}

proof fn lemma_inks_contain(row: Seq<Cell>, n: int, y: int, theme: &Theme, x: int, p: Paint)
    requires
        0 <= x < n,
        ink_at(row, x, y, theme).contains(p),
    ensures
        inks(row, n, y, theme).contains(p),
    decreases n,
{
    if x < n - 1 {
        lemma_inks_contain(row, n - 1, y, theme, x, p);
    }
    lemma_contains_concat(inks(row, n - 1, y, theme), ink_at(row, n - 1, y, theme), p);
}

proof fn lemma_rows_contain(
    g: GridState,
    theme: &Theme,
    pane_bg: Rgb,
    selection: Option<Selection>,
    cols: int,
    n: int,
    x: int,
    y: int,
    p: Paint,
)
    requires
        g.wf(),
        0 <= y < n <= g.rows,
        0 <= x < cols,
        x < shown_line(g, y).len(),
        ({
            let line = shown_line(g, y);
            let selected = is_highlighted(g, selection, x, y);
            fill_at(line, x, y, theme, pane_bg, selected).contains(p) || ink_at(
                line,
                x,
                y,
                theme,
            ).contains(p)
        }),
    ensures
        g.paint_rows(theme, pane_bg, selection, cols, n).contains(p),
    decreases n,
{
    law_the_viewport_shows_history_then_screen(g, n - 1);
    let line = shown_line(g, n - 1);
    let m = model::min(cols, line.len() as int);
    let abs = g.abs_row(n - 1);
    let above = g.paint_rows(theme, pane_bg, selection, cols, n - 1);
    let under = fills(line, m, n - 1, theme, pane_bg, selection, abs, g.cols);
    let over = inks(line, m, n - 1, theme);
    if y < n - 1 {
        lemma_rows_contain(g, theme, pane_bg, selection, cols, n - 1, x, y, p);
        lemma_contains_concat(above, under, p);
        lemma_contains_concat(above + under, over, p);
    } else {
        let selected = is_highlighted(g, selection, x, y);
        assert(selected == is_selected(selection, abs, x, g.cols));
        if fill_at(line, x, y, theme, pane_bg, selected).contains(p) {
            lemma_fills_contain(line, m, y, theme, pane_bg, selection, abs, g.cols, x, p);
            lemma_contains_concat(above, under, p);
            lemma_contains_concat(above + under, over, p);
        } else {
            lemma_inks_contain(line, m, y, theme, x, p);
            lemma_contains_concat(above + under, over, p);
        }
    }
}

/// Whatever the viewport shows is painted where it shows it: every character
/// that is not blank, in its colour and weight, the line under an underlined
/// one, the highlight of a selected one, and the background of one that has a
/// background of its own.
pub proof fn law_what_is_shown_is_painted(
    g: GridState,
    theme: &Theme,
    id: PaneId,
    focused: bool,
    selection: Option<Selection>,
    preedit: PreeditState,
    fit_cols: int,
    fit_rows: int,
    x: int,
    y: int,
)
    requires
        g.wf(),
        0 <= x < g.cols,
        x < fit_cols,
        x < shown_line(g, y).len(),
        0 <= y < g.rows,
        y < fit_rows,
    ensures
        ({
            let out = g.paint(theme, id, focused, selection, preedit, fit_cols, fit_rows);
            let line = shown_line(g, y);
            let cell = line[x];
            let (ink, back) = theme::pair_of(cell, theme);
            let (col, row) = (x as usize, y as usize);
            let width = drawn_width(line, x);
            let pane = if focused { theme.bg } else { theme.bg_unfocused };
            let highlighted = is_highlighted(g, selection, x, y);
            cell.flags & 16 == 0 ==> {
                &&& cell.c != ' ' ==> out.contains(
                    Paint::Glyph {
                        col,
                        row,
                        c: cell.c,
                        bold: cell.flags & 1 != 0,
                        ink: Ink::Rgb(ink),
                    },
                )
                &&& cell.flags & 4 != 0 ==> out.contains(
                    Paint::Underline { col, row, ink: Ink::Rgb(ink) },
                )
                &&& highlighted ==> out.contains(
                    Paint::Fill { col, row, width, ink: Ink::Selection },
                )
                &&& !highlighted && back@ != pane@ ==> out.contains(
                    Paint::Fill { col, row, width, ink: Ink::Rgb(back) },
                )
            }
        }),
{
    let line = shown_line(g, y);
    let cell = line[x];
    if cell.flags & 16 == 0 {
        let cols = model::min(fit_cols, g.cols);
        let rows = model::min(fit_rows, g.rows);
        let (ink, back) = theme::pair_of(cell, theme);
        let (col, row) = (x as usize, y as usize);
        let width = drawn_width(line, x);
        let pane = background(theme, focused);
        let highlighted = is_highlighted(g, selection, x, y);
        let here = ink_at(line, x, y, theme);
        let glyph = Paint::Glyph {
            col,
            row,
            c: cell.c,
            bold: cell.flags & 1 != 0,
            ink: Ink::Rgb(ink),
        };
        let under = Paint::Underline { col, row, ink: Ink::Rgb(ink) };
        if cell.c != ' ' {
            assert(here[0] == glyph);
            lemma_rows_contain(g, theme, pane, selection, cols, rows, x, y, glyph);
            lemma_text_contained(g, theme, id, focused, selection, preedit, fit_cols, fit_rows, glyph);
        }
        if cell.flags & 4 != 0 {
            assert(here[here.len() - 1] == under);
            lemma_rows_contain(g, theme, pane, selection, cols, rows, x, y, under);
            lemma_text_contained(g, theme, id, focused, selection, preedit, fit_cols, fit_rows, under);
        }
        let fill = if highlighted {
            Paint::Fill { col, row, width, ink: Ink::Selection }
        } else {
            Paint::Fill { col, row, width, ink: Ink::Rgb(back) }
        };
        if highlighted || back@ != pane@ {
            assert(fill_at(line, x, y, theme, pane, highlighted)[0] == fill);
            lemma_rows_contain(g, theme, pane, selection, cols, rows, x, y, fill);
            lemma_text_contained(g, theme, id, focused, selection, preedit, fit_cols, fit_rows, fill);
        }
    }
}

proof fn lemma_text_contained(
    g: GridState,
    theme: &Theme,
    id: PaneId,
    focused: bool,
    selection: Option<Selection>,
    preedit: PreeditState,
    fit_cols: int,
    fit_rows: int,
    p: Paint,
)
    requires
        g.paint_rows(
            theme,
            background(theme, focused),
            selection,
            model::min(fit_cols, g.cols),
            model::min(fit_rows, g.rows),
        ).contains(p),
    ensures
        g.paint(theme, id, focused, selection, preedit, fit_cols, fit_rows).contains(p),
{
    let cols = model::min(fit_cols, g.cols);
    let rows = model::min(fit_rows, g.rows);
    let composing = composes_in(preedit, id);
    let text = g.paint_rows(theme, background(theme, focused), selection, cols, rows);
    let cursor = if g.shows_cursor(composing, cols, rows) {
        g.paint_cursor(theme, focused)
    } else {
        Seq::empty()
    };
    let over = if composing {
        g.paint_composition(theme, preedit, cols, rows)
    } else {
        Seq::empty()
    };
    lemma_contains_concat(text, cursor, p);
    lemma_contains_concat(text + cursor, over, p);
}

/// Whether something is painted for the cell that the viewport shows at its
/// place: its character, its line or its background.
pub open spec fn is_of_the_text(
    g: GridState,
    theme: &Theme,
    focused: bool,
    selection: Option<Selection>,
    p: Paint,
) -> bool {
    let (x, y) = match p {
        Paint::Fill { col, row, .. } => (col as int, row as int),
        Paint::Glyph { col, row, .. } => (col as int, row as int),
        Paint::Underline { col, row, .. } => (col as int, row as int),
        _ => (-1int, -1int),
    };
    let line = shown_line(g, y);
    let cell = line[x];
    let (inked, back) = theme::pair_of(cell, theme);
    let pane = if focused { theme.bg } else { theme.bg_unfocused };
    &&& 0 <= y < g.rows
    &&& 0 <= x < g.cols && x < line.len()
    &&& cell.flags & 16 == 0
    &&& match p {
        Paint::Fill { width, ink, .. } => {
            &&& width == drawn_width(line, x)
            &&& if is_highlighted(g, selection, x, y) {
                ink == Ink::Selection
            } else {
                ink == Ink::Rgb(back) && back@ != pane@
            }
        },
        Paint::Glyph { c, bold, ink, .. } => {
            &&& c == cell.c && c != ' '
            &&& bold == (cell.flags & 1 != 0)
            &&& ink == Ink::Rgb(inked)
        },
        Paint::Underline { ink, .. } => cell.flags & 4 != 0 && ink == Ink::Rgb(inked),
        _ => false,
    }
}

proof fn lemma_fills_of_the_text(
    g: GridState,
    theme: &Theme,
    focused: bool,
    selection: Option<Selection>,
    n: int,
    y: int,
)
    requires
        g.wf(),
        g.cols <= usize::MAX,
        g.rows <= usize::MAX,
        0 <= y < g.rows,
        n <= g.cols,
        n <= shown_line(g, y).len(),
    ensures
        ({
            let all = fills(
                shown_line(g, y),
                n,
                y,
                theme,
                background(theme, focused),
                selection,
                g.abs_row(y),
                g.cols,
            );
            forall|i: int|
                0 <= i < all.len() ==> is_of_the_text(g, theme, focused, selection, #[trigger] all[i])
                    && all[i] is Fill && place_of(all[i]).1 == y
        }),
    decreases n,
{
    if n > 0 {
        lemma_fills_of_the_text(g, theme, focused, selection, n - 1, y);
        let line = shown_line(g, y);
        let pane = background(theme, focused);
        let abs = g.abs_row(y);
        let before = fills(line, n - 1, y, theme, pane, selection, abs, g.cols);
        let here = fill_at(line, n - 1, y, theme, pane, is_selected(selection, abs, n - 1, g.cols));
        let all = fills(line, n, y, theme, pane, selection, abs, g.cols);
        assert(is_selected(selection, abs, n - 1, g.cols) == is_highlighted(g, selection, n - 1, y));
        assert forall|i: int| 0 <= i < all.len() implies is_of_the_text(
            g,
            theme,
            focused,
            selection,
            #[trigger] all[i],
        ) && all[i] is Fill && place_of(all[i]).1 == y by {
            if i < before.len() {
                assert(all[i] == before[i]);
            } else {
                assert(all[i] == here[i - before.len()]);
            }
        }
    }
}

proof fn lemma_inks_of_the_text(
    g: GridState,
    theme: &Theme,
    focused: bool,
    selection: Option<Selection>,
    n: int,
    y: int,
)
    requires
        g.wf(),
        g.cols <= usize::MAX,
        g.rows <= usize::MAX,
        0 <= y < g.rows,
        n <= g.cols,
        n <= shown_line(g, y).len(),
    ensures
        ({
            let all = inks(shown_line(g, y), n, y, theme);
            forall|i: int|
                0 <= i < all.len() ==> is_of_the_text(g, theme, focused, selection, #[trigger] all[i])
                    && !(all[i] is Fill) && place_of(all[i]).1 == y
        }),
    decreases n,
{
    if n > 0 {
        lemma_inks_of_the_text(g, theme, focused, selection, n - 1, y);
        let line = shown_line(g, y);
        let before = inks(line, n - 1, y, theme);
        let here = ink_at(line, n - 1, y, theme);
        let all = inks(line, n, y, theme);
        assert forall|i: int| 0 <= i < all.len() implies is_of_the_text(
            g,
            theme,
            focused,
            selection,
            #[trigger] all[i],
        ) && !(all[i] is Fill) && place_of(all[i]).1 == y by {
            if i < before.len() {
                assert(all[i] == before[i]);
            } else {
                assert(all[i] == here[i - before.len()]);
            }
        }
    }
}

/// Whether no background on a row of `out` comes after what is written on it.
pub open spec fn backgrounds_come_first(out: Seq<Paint>) -> bool {
    forall|i: int, j: int|
        0 <= i < j < out.len() && (#[trigger] out[j]) is Fill && !((#[trigger] out[i]) is Fill)
            ==> place_of(out[i]).1 < place_of(out[j]).1
}

proof fn lemma_rows_of_the_text(
    g: GridState,
    theme: &Theme,
    focused: bool,
    selection: Option<Selection>,
    cols: int,
    n: int,
)
    requires
        g.wf(),
        g.cols <= usize::MAX,
        g.rows <= usize::MAX,
        0 <= cols <= g.cols,
        n <= g.rows,
    ensures
        ({
            let all = g.paint_rows(theme, background(theme, focused), selection, cols, n);
            &&& forall|i: int|
                0 <= i < all.len() ==> is_of_the_text(g, theme, focused, selection, #[trigger] all[i])
                    && place_of(all[i]).1 < n
            &&& backgrounds_come_first(all)
        }),
    decreases n,
{
    if n > 0 {
        let y = n - 1;
        lemma_rows_of_the_text(g, theme, focused, selection, cols, y);
        law_the_viewport_shows_history_then_screen(g, y);
        let line = shown_line(g, y);
        let m = model::min(cols, line.len() as int);
        let pane = background(theme, focused);
        lemma_fills_of_the_text(g, theme, focused, selection, m, y);
        lemma_inks_of_the_text(g, theme, focused, selection, m, y);
        let above = g.paint_rows(theme, pane, selection, cols, y);
        let under = fills(line, m, y, theme, pane, selection, g.abs_row(y), g.cols);
        let over = inks(line, m, y, theme);
        let all = g.paint_rows(theme, pane, selection, cols, n);
        assert(all == above + under + over);
        let (a, b) = (above.len() as int, (above.len() + under.len()) as int);
        assert forall|i: int| 0 <= i < all.len() implies is_of_the_text(
            g,
            theme,
            focused,
            selection,
            #[trigger] all[i],
        ) && place_of(all[i]).1 < n by {
            if i < a {
                assert(all[i] == above[i]);
            } else if i < b {
                assert(all[i] == under[i - a]);
            } else {
                assert(all[i] == over[i - b]);
            }
        }
        assert forall|i: int, j: int|
            0 <= i < j < all.len() && (#[trigger] all[j]) is Fill && !((#[trigger] all[i])
                is Fill) implies place_of(all[i]).1 < place_of(all[j]).1 by {
            if j < a {
                assert(all[i] == above[i] && all[j] == above[j]);
            } else if j < b {
                assert(all[j] == under[j - a]);
                if i < a {
                    assert(all[i] == above[i]);
                } else {
                    assert(all[i] == under[i - a]);
                }
            } else {
                assert(all[j] == over[j - b]);
            }
        }
    }
}

/// What is painted for a pane: its text, and on top of it the cursor, or the
/// composing text where the pane has some. Of the text nothing is painted but
/// what the viewport shows, where it shows it, and backgrounds come before what
/// stands on them.
pub proof fn law_only_what_is_shown_is_painted(
    g: GridState,
    theme: &Theme,
    id: PaneId,
    focused: bool,
    selection: Option<Selection>,
    preedit: PreeditState,
    fit_cols: int,
    fit_rows: int,
)
    requires
        g.wf(),
        g.cols <= usize::MAX,
        g.rows <= usize::MAX,
        0 <= fit_cols,
        0 <= fit_rows,
    ensures
        ({
            let out = g.paint(theme, id, focused, selection, preedit, fit_cols, fit_rows);
            let hidden = GridState { cursor_visible: false, ..g };
            let none = PreeditState { text: Seq::empty(), target: None, owner: None };
            let text = hidden.paint(theme, id, focused, selection, none, fit_cols, fit_rows);
            let composing = preedit.text.len() > 0 && preedit.owner == Some(id);
            let cell = g.screen[g.cy][g.cx];
            let (col, row) = (g.cx as usize, g.cy as usize);
            &&& forall|i: int|
                0 <= i < text.len() ==> is_of_the_text(
                    g,
                    theme,
                    focused,
                    selection,
                    #[trigger] text[i],
                )
            &&& backgrounds_come_first(text)
            &&& text.len() <= out.len() && out.take(text.len() as int) == text
            &&& !composing ==> {
                let cursor = out.skip(text.len() as int);
                if g.cursor_visible && g.view_offset == 0 && g.cx < fit_cols && g.cy < fit_rows {
                    &&& cursor.len() > 0
                    &&& cursor[0] == Paint::Cursor { col, row, shape: g.cursor_shape, focused }
                    &&& if focused && g.cursor_shape == CursorShape::Block && cell.c != ' ' {
                        &&& cursor.len() == 2
                        &&& cursor[1] == Paint::Glyph {
                            col,
                            row,
                            c: cell.c,
                            bold: cell.flags & 1 != 0,
                            ink: Ink::Rgb(theme.bg),
                        }
                    } else {
                        cursor.len() == 1
                    }
                } else {
                    cursor.len() == 0
                }
            }
        }),
{
    let hidden = GridState { cursor_visible: false, ..g };
    let none = PreeditState { text: Seq::empty(), target: None, owner: None };
    let cols = model::min(fit_cols, g.cols);
    let rows = model::min(fit_rows, g.rows);
    let pane = background(theme, focused);
    let text = hidden.paint(theme, id, focused, selection, none, fit_cols, fit_rows);
    let out = g.paint(theme, id, focused, selection, preedit, fit_cols, fit_rows);
    let painted = g.paint_rows(theme, pane, selection, cols, rows);
    lemma_rows_of_the_text(g, theme, focused, selection, cols, rows);
    lemma_hidden_rows(g, theme, pane, selection, cols, rows);
    assert(text =~= painted);
    assert(out.take(text.len() as int) =~= text);
    let composing = composes_in(preedit, id);
    if !composing {
        let cursor = if g.shows_cursor(composing, cols, rows) {
            g.paint_cursor(theme, focused)
        } else {
            Seq::empty()
        };
        assert(out.skip(text.len() as int) =~= cursor);
    }
}

proof fn lemma_hidden_rows(
    g: GridState,
    theme: &Theme,
    pane_bg: Rgb,
    selection: Option<Selection>,
    cols: int,
    n: int,
)
    ensures
        (GridState { cursor_visible: false, ..g }).paint_rows(theme, pane_bg, selection, cols, n)
            == g.paint_rows(theme, pane_bg, selection, cols, n),
    decreases n,
{
    if n > 0 {
        let hidden = GridState { cursor_visible: false, ..g };
        lemma_hidden_rows(g, theme, pane_bg, selection, cols, n - 1);
        assert(hidden.view_row(n - 1) == g.view_row(n - 1));
        assert(hidden.abs_row(n - 1) == g.abs_row(n - 1));
    }
}

proof fn lemma_composition_by_threes(cells: Seq<PreeditCell>, n: int, theme: &Theme, k: int)
    requires
        0 <= k < n <= cells.len(),
    ensures
        composition(cells, n, theme).len() == 3 * n,
        composition(cells, n, theme)[3 * k] == composed(cells[k], theme)[0],
        composition(cells, n, theme)[3 * k + 1] == composed(cells[k], theme)[1],
        composition(cells, n, theme)[3 * k + 2] == composed(cells[k], theme)[2],
    decreases n,
{
    reveal_with_fuel(composition, 2);
    if n - 1 > 0 {
        lemma_composition_by_threes(cells, n - 1, theme, if k < n - 1 { k } else { 0 });
    }
}

/// Composing text is painted over the cursor, in its pane alone: for each
/// character its background, itself in the theme's ink, and the rule under it,
/// which is heavier under the active segment; and last the caret after it, if
/// the input method wants one shown and there is a row for it.
pub proof fn law_composing_text_is_painted(
    g: GridState,
    theme: &Theme,
    id: PaneId,
    focused: bool,
    selection: Option<Selection>,
    preedit: PreeditState,
    fit_cols: int,
    fit_rows: int,
    k: int,
)
    requires
        g.wf(),
        g.cols <= usize::MAX,
        g.rows <= usize::MAX,
        0 < fit_cols,
        0 <= fit_rows,
        preedit.text.len() > 0,
        preedit.owner == Some(id),
    ensures
        ({
            let out = g.paint(theme, id, focused, selection, preedit, fit_cols, fit_rows);
            let hidden = GridState { cursor_visible: false, ..g };
            let none = PreeditState { text: Seq::empty(), target: None, owner: None };
            let text = hidden.paint(theme, id, focused, selection, none, fit_cols, fit_rows);
            let n = text.len() as int;
            let cols = if fit_cols < g.cols { fit_cols } else { g.cols };
            let rows = if fit_rows < g.rows { fit_rows } else { g.rows };
            let start = (if g.cx < cols { g.cx as usize } else { (cols - 1) as usize }, g.cy as usize);
            let cells = preedit::placed(
                preedit.text,
                preedit::widths_of(preedit.text),
                preedit.target,
                start,
                cols,
                rows,
            );
            let caret = preedit::caret_after(cells, start, cols);
            let m = n + 3 * cells.len();
            &&& 0 <= k < cells.len() ==> {
                let cell = cells[k];
                let (col, row) = (cell.col, cell.row);
                &&& out[n + 3 * k] == Paint::Fill {
                    col,
                    row,
                    width: cell.width,
                    ink: Ink::Composition,
                }
                &&& out[n + 3 * k + 1] == Paint::Glyph {
                    col,
                    row,
                    c: cell.c,
                    bold: false,
                    ink: Ink::Rgb(theme.fg),
                }
                &&& out[n + 3 * k + 2] == Paint::Rule {
                    col,
                    row,
                    width: cell.width,
                    active: cell.active,
                }
            }
            &&& if preedit.target is Some && caret.1 < rows {
                &&& out.len() == m + 1
                &&& out[m] == Paint::Caret { col: caret.0 as usize, row: caret.1 as usize }
            } else {
                out.len() == m
            }
        }),
{
    let hidden = GridState { cursor_visible: false, ..g };
    let none = PreeditState { text: Seq::empty(), target: None, owner: None };
    let cols = model::min(fit_cols, g.cols);
    let rows = model::min(fit_rows, g.rows);
    let pane = background(theme, focused);
    let text = hidden.paint(theme, id, focused, selection, none, fit_cols, fit_rows);
    let out = g.paint(theme, id, focused, selection, preedit, fit_cols, fit_rows);
    lemma_hidden_rows(g, theme, pane, selection, cols, rows);
    let painted = g.paint_rows(theme, pane, selection, cols, rows);
    assert(text =~= painted);
    let over = g.paint_composition(theme, preedit, cols, rows);
    assert(out =~= text + over);
    let origin = g.composition_origin(cols);
    let cells = preedit::placed(
        preedit.text,
        preedit::widths_of(preedit.text),
        preedit.target,
        origin,
        cols,
        rows,
    );
    let drawn = composition(cells, cells.len() as int, theme);
    if cells.len() > 0 {
        lemma_composition_by_threes(cells, cells.len() as int, theme, 0);
        if 0 <= k < cells.len() {
            lemma_composition_by_threes(cells, cells.len() as int, theme, k);
            assert(over[3 * k] == drawn[3 * k]);
            assert(over[3 * k + 1] == drawn[3 * k + 1]);
            assert(over[3 * k + 2] == drawn[3 * k + 2]);
        }
    }
}

} // verus!
