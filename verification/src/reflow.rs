//! What a change of size does, cell by cell.

use crate::cell::{Cell, Color};
use crate::effects;
use crate::model::{self, GridState};
use vstd::prelude::*;

verus! {

/// Whether `to` is the line `from` at another width: its cells as far as both
/// go, none of them past column `limit`, and blanks after them.
pub open spec fn is_line_at(to: Seq<Cell>, from: Seq<Cell>, limit: int, cols: int) -> bool {
    &&& to.len() == cols
    &&& forall|x: int|
        0 <= x < cols ==> if x < limit && x < from.len() {
            #[trigger] to[x] == from[x]
        } else {
            effects::is_blank(to[x], Color::Default)
        }
}

/// Whether a screen whose cursor is on row `cy` becomes another with fewer rows,
/// or as many, whose cursor is on row `to_cy`: the cursor's row stays, what is
/// below it goes first, and what is above it only as far as it must.
pub open spec fn shrunk(
    from: Seq<Seq<Cell>>,
    cy: int,
    old_cols: int,
    to: Seq<Seq<Cell>>,
    to_cy: int,
    cols: int,
    rows: int,
) -> bool {
    &&& to_cy == (if cy < rows { cy } else { rows - 1 })
    &&& to.len() == rows
    &&& forall|y: int|
        0 <= y < rows ==> is_line_at(#[trigger] to[y], from[y + (cy - to_cy)], old_cols, cols)
}

/// Whether a screen becomes another with more rows: its rows are at the bottom,
/// the cursor's with them, over them come the last lines of `above`, as far as
/// there are any, and blank rows over those.
pub open spec fn grown(
    from: Seq<Seq<Cell>>,
    cy: int,
    old_cols: int,
    above: Seq<Seq<Cell>>,
    to: Seq<Seq<Cell>>,
    to_cy: int,
    cols: int,
    rows: int,
) -> bool {
    let more = rows - from.len();
    &&& to_cy == cy + more
    &&& to.len() == rows
    &&& forall|y: int|
        0 <= y < rows ==> if y >= more {
            is_line_at(#[trigger] to[y], from[y - more], old_cols, cols)
        } else if above.len() + y - more >= 0 {
            is_line_at(to[y], above[above.len() + y - more], old_cols, cols)
        } else {
            effects::is_blank_row(to[y], cols, Color::Default)
        }
}

proof fn lemma_fitted(line: Seq<Cell>, limit: int, cols: int)
    requires
        0 <= cols,
    ensures
        is_line_at(model::fit_row(line, limit, cols), line, limit, cols),
{
}

proof fn lemma_shrunk(screen: Seq<Seq<Cell>>, old_cols: int, cy: int, cols: int, rows: int)
    requires
        0 <= cy < screen.len(),
        1 <= cols,
        1 <= rows <= screen.len(),
    ensures
        shrunk(
            screen,
            cy,
            old_cols,
            model::reshaped(screen, old_cols, cy, Seq::empty(), cols, rows),
            cy - model::off_top(cy, rows),
            cols,
            rows,
        ),
{
    let from = model::off_top(cy, rows);
    let to = model::reshaped(screen, old_cols, cy, Seq::empty(), cols, rows);
    let kept = screen.subrange(from, from + rows);
    assert forall|y: int| 0 <= y < rows implies is_line_at(
        #[trigger] to[y],
        screen[y + from],
        old_cols,
        cols,
    ) by {
        assert(to[y] == model::fit_rows(kept, old_cols, cols)[y]);
        lemma_fitted(screen[y + from], old_cols, cols);
    }
}

proof fn lemma_grown(
    screen: Seq<Seq<Cell>>,
    old_cols: int,
    cy: int,
    above: Seq<Seq<Cell>>,
    cols: int,
    rows: int,
)
    requires
        0 <= cy < screen.len(),
        1 <= cols,
        screen.len() <= rows,
        above.len() <= rows - screen.len(),
    ensures
        grown(
            screen,
            cy,
            old_cols,
            above,
            model::reshaped(screen, old_cols, cy, above, cols, rows),
            cy + (rows - screen.len()),
            cols,
            rows,
        ),
{
    let to = model::reshaped(screen, old_cols, cy, above, cols, rows);
    let kept = screen.subrange(0, screen.len() as int);
    assert(model::off_top(cy, rows) == 0);
    let more = rows - screen.len();
    let open = more - above.len();
    assert forall|y: int| 0 <= y < rows implies if y >= more {
        is_line_at(#[trigger] to[y], screen[y - more], old_cols, cols)
    } else if above.len() + y - more >= 0 {
        is_line_at(to[y], above[above.len() + y - more], old_cols, cols)
    } else {
        effects::is_blank_row(to[y], cols, Color::Default)
    } by {
        if y >= more {
            assert(to[y] == model::fit_rows(kept, old_cols, cols)[y - more]);
            lemma_fitted(screen[y - more], old_cols, cols);
        } else if y >= open {
            assert(to[y] == model::fit_rows(above, old_cols, cols)[y - open]);
            lemma_fitted(above[y - open], old_cols, cols);
        }
    }
}

/// Whether nothing but the size and what goes by it changed, and the viewport is
/// on the live screen.
pub open spec fn only_resized(s: GridState, t: GridState, cols: int, rows: int) -> bool {
    &&& t == GridState {
        cols,
        rows,
        screen: t.screen,
        history: t.history,
        trimmed: t.trimmed,
        view_offset: 0,
        cx: t.cx,
        cy: t.cy,
        top: 0,
        bot: rows - 1,
        wrap_pending: false,
        parked: t.parked,
        ..s
    }
    &&& t.cx == (if s.cx < cols { s.cx } else { cols - 1 })
}

/// What a resize does to the visible screen, the history and the parked screen.
proof fn lemma_resize(s: GridState, cols: int, rows: int)
    requires
        s.wf(),
        1 <= cols,
        1 <= rows,
        !(cols == s.cols && rows == s.rows),
    ensures
        ({
            let t = s.resize(cols, rows);
            let kept = s.with_view_offset(0).keep_lost(rows);
            let left = kept.history.len() - kept.pulled(rows);
            &&& only_resized(s, t, cols, rows)
            &&& t.cy == model::resized_row(s.cy, s.rows, rows)
            &&& t.screen == model::reshaped(
                s.screen,
                s.cols,
                s.cy,
                kept.history.skip(left),
                cols,
                rows,
            )
            &&& t.history == kept.history.take(left)
            &&& t.trimmed == kept.trimmed
            &&& t.parked == (match s.parked {
                Some(p) => Some(p.resize(s.cols, s.rows, cols, rows)),
                None => None,
            })
        }),
{
}

/// What becomes of the lines that fall off the main screen.
proof fn lemma_lost(s: GridState, rows: int)
    requires
        s.wf(),
        1 <= rows,
    ensures
        ({
            let main = s.main_screen();
            let kept = s.with_view_offset(0).keep_lost(rows);
            let lost = model::off_top(main.cy, rows);
            &&& lost == 0 ==> kept.history == s.history && kept.trimmed == s.trimmed
            &&& lost > 0 ==> effects::kept_as_history(
                GridState { screen: main.screen, ..s },
                kept,
                lost,
            )
        }),
{
    let main = s.main_screen();
    let kept = s.with_view_offset(0).keep_lost(rows);
    let lost = model::off_top(main.cy, rows);
    if lost > 0 {
        let shown = GridState { screen: main.screen, ..s };
        let all = s.history + main.screen.take(lost);
        assert forall|i: int| 0 <= i < kept.history.len() implies #[trigger] kept.history[i]
            == effects::line_of(shown, i + kept.trimmed - s.trimmed) by {
            assert(kept.history[i] == all[i + kept.trimmed - s.trimmed]);
        }
    }
}

/// A history goes by its lines.
proof fn lemma_same_history(s: GridState, kept: GridState, t: GridState, n: int)
    requires
        effects::kept_as_history(s, kept, n),
        t.history == kept.history,
        t.trimmed == kept.trimmed,
    ensures
        effects::kept_as_history(s, t, n),
{
    assert forall|i: int| 0 <= i < t.history.len() implies #[trigger] t.history[i]
        == effects::line_of(s, i + t.trimmed - s.trimmed) by {
        assert(kept.history[i] == effects::line_of(s, i + kept.trimmed - s.trimmed));
    }
}

/// A main screen that gets fewer rows keeps the cursor's, and what falls off its
/// top becomes history, as wide as it was.
pub proof fn law_a_main_screen_shrinks(s: GridState, cols: int, rows: int)
    requires
        s.wf(),
        s.parked is None,
        1 <= cols,
        1 <= rows <= s.rows,
        !(cols == s.cols && rows == s.rows),
    ensures
        ({
            let t = s.resize(cols, rows);
            &&& only_resized(s, t, cols, rows)
            &&& t.parked is None
            &&& shrunk(s.screen, s.cy, s.cols, t.screen, t.cy, cols, rows)
            &&& s.cy == t.cy ==> t.history == s.history && t.trimmed == s.trimmed
            &&& s.cy > t.cy ==> effects::kept_as_history(s, t, s.cy - t.cy)
        }),
{
    let t = s.resize(cols, rows);
    let kept = s.with_view_offset(0).keep_lost(rows);
    let n = kept.history.len() as int;
    lemma_resize(s, cols, rows);
    lemma_lost(s, rows);
    assert(kept.pulled(rows) == 0);
    assert(kept.history.skip(n) =~= Seq::<Seq<Cell>>::empty());
    assert(kept.history.take(n) =~= kept.history);
    lemma_shrunk(s.screen, s.cols, s.cy, cols, rows);
    let lost = model::off_top(s.cy, rows);
    assert(s.cy - t.cy == lost);
    if lost > 0 {
        assert(GridState { screen: s.screen, ..s } == s);
        lemma_same_history(s, kept, t, lost);
    }
}

/// A main screen that gets more rows has its text at the bottom, and the last
/// lines of the history come back over it, as far as there are any.
pub proof fn law_a_main_screen_grows(s: GridState, cols: int, rows: int)
    requires
        s.wf(),
        s.parked is None,
        1 <= cols,
        s.rows < rows,
    ensures
        ({
            let t = s.resize(cols, rows);
            let back = if rows - s.rows < s.history.len() {
                rows - s.rows
            } else {
                s.history.len() as int
            };
            &&& only_resized(s, t, cols, rows)
            &&& t.parked is None
            &&& grown(s.screen, s.cy, s.cols, s.history, t.screen, t.cy, cols, rows)
            &&& t.history == s.history.take(s.history.len() - back)
            &&& t.trimmed == s.trimmed
        }),
{
    let t = s.resize(cols, rows);
    let back = s.pulled(rows);
    let left = s.history.len() - back;
    let above = s.history.skip(left);
    assert(s.with_view_offset(0).keep_lost(rows) == s.with_view_offset(0));
    lemma_resize(s, cols, rows);
    lemma_grown(s.screen, s.cols, s.cy, above, cols, rows);
    let more = rows - s.rows;
    assert forall|y: int| 0 <= y < rows implies if y >= more {
        is_line_at(#[trigger] t.screen[y], s.screen[y - more], s.cols, cols)
    } else if s.history.len() + y - more >= 0 {
        is_line_at(t.screen[y], s.history[s.history.len() + y - more], s.cols, cols)
    } else {
        effects::is_blank_row(t.screen[y], cols, Color::Default)
    } by {
        assert(t.screen[y] == t.screen[y]);
        if y < more && s.history.len() + y - more >= 0 {
            assert(above[above.len() + y - more] == s.history[s.history.len() + y - more]);
        }
    }
}

/// The alternate screen has no history to take from or to give to. The main
/// screen behind it goes by its own cursor, and what falls off its top becomes
/// history.
pub proof fn law_both_screens_change_size(s: GridState, cols: int, rows: int)
    requires
        s.wf(),
        s.parked is Some,
        1 <= cols,
        1 <= rows,
        !(cols == s.cols && rows == s.rows),
    ensures
        ({
            let t = s.resize(cols, rows);
            let none = Seq::<Seq<Cell>>::empty();
            let p = s.parked->0;
            &&& only_resized(s, t, cols, rows)
            &&& t.parked matches Some(q)
            &&& q.cx == (if p.cx < cols { p.cx } else { cols - 1 })
            &&& rows <= s.rows ==> {
                &&& shrunk(s.screen, s.cy, s.cols, t.screen, t.cy, cols, rows)
                &&& shrunk(p.screen, p.cy, s.cols, q.screen, q.cy, cols, rows)
            }
            &&& rows > s.rows ==> {
                &&& grown(s.screen, s.cy, s.cols, none, t.screen, t.cy, cols, rows)
                &&& grown(p.screen, p.cy, s.cols, none, q.screen, q.cy, cols, rows)
            }
            &&& rows > p.cy ==> t.history == s.history && t.trimmed == s.trimmed
            &&& rows <= p.cy ==> effects::kept_as_history(
                GridState { screen: p.screen, ..s },
                t,
                p.cy - q.cy,
            )
        }),
{
    let t = s.resize(cols, rows);
    let none = Seq::<Seq<Cell>>::empty();
    let p = s.parked->0;
    let kept = s.with_view_offset(0).keep_lost(rows);
    let n = kept.history.len() as int;
    lemma_resize(s, cols, rows);
    lemma_lost(s, rows);
    assert(kept.pulled(rows) == 0);
    assert(kept.history.skip(n) =~= none);
    assert(kept.history.take(n) =~= kept.history);
    if rows <= s.rows {
        lemma_shrunk(s.screen, s.cols, s.cy, cols, rows);
        lemma_shrunk(p.screen, s.cols, p.cy, cols, rows);
    } else {
        lemma_grown(s.screen, s.cols, s.cy, none, cols, rows);
        lemma_grown(p.screen, s.cols, p.cy, none, cols, rows);
    }
    let lost = model::off_top(p.cy, rows);
    if lost > 0 {
        lemma_same_history(GridState { screen: p.screen, ..s }, kept, t, lost);
    }
}

} // verus!
