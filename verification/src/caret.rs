//! Where the caret of composing text sits.

use crate::preedit::{self, PreeditCell};
use crate::width;
use vstd::prelude::*;

verus! {

/// Where a character one column wide goes next.
spec fn next_spot(col: int, row: int, cols: int) -> (int, int) {
    if col + 1 > cols { (0, row + 1) } else { (col, row) }
}

/// Whether `more` is `cells`, placed from `(col, row)` on, or that and `c` at
/// the spot after them.
spec fn one_more(
    cells: Seq<PreeditCell>,
    more: Seq<PreeditCell>,
    c: char,
    col: int,
    row: int,
    cols: int,
) -> bool {
    ||| more == cells
    ||| {
        &&& more.len() == cells.len() + 1
        &&& more.drop_last() == cells
        &&& more.last().c == c
        &&& (more.last().col as int, more.last().row as int) == if cells.len() == 0 {
            next_spot(col, row, cols)
        } else {
            next_spot(cells.last().col + cells.last().width, cells.last().row as int, cols)
        }
    }
}

proof fn lemma_one_more_behind(
    here: PreeditCell,
    cells: Seq<PreeditCell>,
    more: Seq<PreeditCell>,
    c: char,
    col: int,
    row: int,
    cols: int,
)
    requires
        one_more(cells, more, c, here.col + here.width, here.row as int, cols),
    ensures
        one_more(seq![here] + cells, seq![here] + more, c, col, row, cols),
{
    if more != cells {
        let all = seq![here] + more;
        assert(all.drop_last() =~= seq![here] + cells);
        assert(all.last() == more.last());
        if cells.len() > 0 {
            assert((seq![here] + cells).last() == cells.last());
        }
    }
}

/// The cell of `c`, which is character `i` and has a place.
proof fn lemma_placed_here(
    text: Seq<char>,
    widths: Seq<usize>,
    target: Option<(usize, usize)>,
    i: int,
    col: int,
    row: int,
    cols: int,
    rows: int,
    c: char,
) -> (here: PreeditCell)
    requires
        0 <= i < text.len(),
        c == text[i],
        text.len() == widths.len(),
        text[i] != '\n',
        text[i] != '\r',
        0 <= col,
        0 <= row,
        1 <= cols <= usize::MAX,
        rows <= usize::MAX,
        col + widths[i] > cols ==> row + 1 < rows,
        row < rows,
    ensures
        preedit::placed_from(text, widths, target, i, col, row, cols, rows) == seq![here]
            + preedit::placed_from(
            text,
            widths,
            target,
            i + 1,
            here.col + here.width,
            here.row as int,
            cols,
            rows,
        ),
        here.c == text[i],
        here.width == widths[i],
        here.active == preedit::in_target(target, preedit::offset_of(text, i)),
        here.col == if col + widths[i] > cols { 0 } else { col },
        here.row == if col + widths[i] > cols { row + 1 } else { row },
{
    let active = preedit::in_target(target, preedit::offset_of(text, i));
    if col + widths[i] > cols {
        PreeditCell { col: 0, row: (row + 1) as usize, c, width: widths[i], active }
    } else {
        PreeditCell { col: col as usize, row: row as usize, c, width: widths[i], active }
    }
}

proof fn lemma_one_more(
    text: Seq<char>,
    widths: Seq<usize>,
    target: Option<(usize, usize)>,
    c: char,
    i: int,
    col: int,
    row: int,
    cols: int,
    rows: int,
)
    requires
        text.len() == widths.len(),
        c != '\n',
        c != '\r',
        0 <= i <= text.len(),
        0 <= col,
        0 <= row,
        1 <= cols <= usize::MAX,
        rows <= usize::MAX,
    ensures
        ({
            let cells = preedit::placed_from(text, widths, target, i, col, row, cols, rows);
            let more = preedit::placed_from(
                text.push(c),
                widths.push(1),
                target,
                i,
                col,
                row,
                cols,
                rows,
            );
            &&& one_more(cells, more, c, col, row, cols)
            &&& row + (text.len() - i) + 1 < rows ==> more.len() > cells.len()
        }),
    decreases text.len() - i,
{
    let longer = text.push(c);
    let wider = widths.push(1);
    if i == text.len() {
        lemma_last_one(text, widths, target, c, col, row, cols, rows);
    } else if text[i] == '\n' || text[i] == '\r' {
        lemma_one_more(text, widths, target, c, i + 1, col, row, cols, rows);
    } else {
        let w = widths[i] as int;
        let x = if col + w > cols { 0 } else { col };
        let y = if col + w > cols { row + 1 } else { row };
        if y < rows {
            lemma_same_offset(text, c, i);
            let here = lemma_placed_here(text, widths, target, i, col, row, cols, rows, text[i]);
            let same = lemma_placed_here(longer, wider, target, i, col, row, cols, rows, text[i]);
            assert(here == same);
            let next = here.col + here.width;
            let line = here.row as int;
            lemma_one_more(text, widths, target, c, i + 1, next, line, cols, rows);
            let cells = preedit::placed_from(text, widths, target, i + 1, next, line, cols, rows);
            let more = preedit::placed_from(longer, wider, target, i + 1, next, line, cols, rows);
            lemma_one_more_behind(here, cells, more, c, col, row, cols);
        }
    }
}

proof fn lemma_last_one(
    text: Seq<char>,
    widths: Seq<usize>,
    target: Option<(usize, usize)>,
    c: char,
    col: int,
    row: int,
    cols: int,
    rows: int,
)
    requires
        text.len() == widths.len(),
        c != '\n',
        c != '\r',
        0 <= col,
        0 <= row,
        1 <= cols <= usize::MAX,
        rows <= usize::MAX,
    ensures
        ({
            let n = text.len() as int;
            let more = preedit::placed_from(
                text.push(c),
                widths.push(1),
                target,
                n,
                col,
                row,
                cols,
                rows,
            );
            &&& one_more(Seq::empty(), more, c, col, row, cols)
            &&& row + 1 < rows ==> more.len() > 0
        }),
{
    let n = text.len() as int;
    let longer = text.push(c);
    let wider = widths.push(1);
    let (x, y) = next_spot(col, row, cols);
    if y < rows {
        let here = lemma_placed_here(longer, wider, target, n, col, row, cols, rows, c);
        let more = preedit::placed_from(longer, wider, target, n, col, row, cols, rows);
        assert(preedit::placed_from(longer, wider, target, n + 1, x + 1, y, cols, rows)
            == Seq::<PreeditCell>::empty());
        assert(more =~= seq![here]);
        assert(more.drop_last() =~= Seq::empty());
    }
}

proof fn lemma_same_offset(text: Seq<char>, c: char, i: int)
    requires
        0 <= i <= text.len(),
    ensures
        preedit::offset_of(text.push(c), i) == preedit::offset_of(text, i),
    decreases i,
{
    if i > 0 {
        lemma_same_offset(text, c, i - 1);
    }
}

/// The caret is where one more character of one column would go: if `c` is
/// typed after `text` and still finds a place, that place is where the caret
/// was, and nothing composed before it moves. It does find one where the pane
/// has a row to spare for every character. With nothing composed the caret is
/// where composing starts.
pub proof fn law_caret_is_where_the_next_character_goes(
    text: Seq<char>,
    widths: Seq<usize>,
    c: char,
    target: Option<(usize, usize)>,
    start: (usize, usize),
    cols: int,
    rows: int,
)
    requires
        text.len() == widths.len(),
        c != '\n',
        c != '\r',
        start.0 < cols <= usize::MAX,
        0 <= rows <= usize::MAX,
    ensures
        ({
            let cells = preedit::placed(text, widths, target, start, cols, rows);
            let more = preedit::placed(text.push(c), widths.push(1), target, start, cols, rows);
            let caret = preedit::caret_after(cells, start, cols);
            &&& more.len() > cells.len() ==> {
                &&& more.drop_last() == cells
                &&& more.last().c == c
                &&& more.last().col == caret.0
                &&& more.last().row == caret.1
            }
            &&& start.1 + text.len() + 1 < rows ==> more.len() > cells.len()
            &&& text.len() == 0 ==> caret == (start.0 as int, start.1 as int)
        }),
        width::columns(c) == 1 ==> preedit::widths_of(text.push(c)) == preedit::widths_of(
            text,
        ).push(1),
{
    if rows > 0 {
        let (col, row) = (start.0 as int, start.1 as int);
        lemma_one_more(text, widths, target, c, 0, col, row, cols, rows);
    }
}

} // verus!
