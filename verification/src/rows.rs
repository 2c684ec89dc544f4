//! A row-major buffer seen as a sequence of rows.
//!
//! The screen is stored flat, `cols * rows` cells in one vector. Everything
//! that reasons about it speaks of rows; this module is the only place where
//! the arithmetic that ties the two together appears.

use vstd::arithmetic::mul::{
    lemma_mul_inequality, lemma_mul_is_commutative, lemma_mul_is_distributive_add_other_way,
    lemma_mul_nonnegative,
};
use vstd::prelude::*;
use vstd::slice::slice_subrange;

verus! {

/// Row `y` of a buffer that is `cols` wide.
spec fn row_of<T>(cells: Seq<T>, cols: int, y: int) -> Seq<T> {
    cells.subrange(y * cols, y * cols + cols)
}

/// The buffer as `rows` rows of `cols` cells.
pub closed spec fn rows_of<T>(cells: Seq<T>, cols: int, rows: int) -> Seq<Seq<T>> {
    Seq::new(rows as nat, |y: int| row_of(cells, cols, y))
}

/// The contents of each of `lines`.
pub open spec fn lines_of<T>(lines: Seq<Vec<T>>) -> Seq<Seq<T>> {
    Seq::new(lines.len(), |i: int| lines[i]@)
}

/// Whether a buffer holds exactly `rows` rows of `cols` cells.
pub closed spec fn is_rect<T>(cells: Seq<T>, cols: int, rows: int) -> bool {
    cells.len() == cols * rows <= usize::MAX
}

/// A buffer that exists is small enough to allocate again.
pub proof fn lemma_rect_fits<T>(cells: Seq<T>, cols: int, rows: int)
    requires
        is_rect(cells, cols, rows),
    ensures
        cols * rows <= usize::MAX,
{
}

/// A buffer of the right size is a rectangle.
pub proof fn lemma_rectangle<T>(cells: Seq<T>, cols: int, rows: int)
    requires
        0 <= cols,
        0 <= rows,
        is_rect(cells, cols, rows),
    ensures
        rows_of(cells, cols, rows).len() == rows,
        forall|y: int| 0 <= y < rows ==> (#[trigger] rows_of(cells, cols, rows)[y]).len() == cols,
{
    assert forall|y: int| 0 <= y < rows implies (#[trigger] rows_of(cells, cols, rows)[y]).len()
        == cols by {
        lemma_row_inside(cols, rows, y);
    }
}

/// Row `y` lies inside the buffer.
proof fn lemma_row_inside(cols: int, rows: int, y: int)
    requires
        0 <= cols,
        0 <= y < rows,
    ensures
        0 <= y * cols,
        y * cols + cols <= rows * cols,
        rows * cols == cols * rows,
{
    lemma_mul_nonnegative(y, cols);
    lemma_mul_is_distributive_add_other_way(cols, y, 1);
    lemma_mul_inequality(y + 1, rows, cols);
    lemma_mul_is_commutative(rows, cols);
}

/// Two different rows share no cell.
proof fn lemma_rows_apart(cols: int, y: int, z: int)
    requires
        0 <= cols,
        y < z,
    ensures
        y * cols + cols <= z * cols,
{
    lemma_mul_is_distributive_add_other_way(cols, y, 1);
    lemma_mul_inequality(y + 1, z, cols);
}

/// A buffer that differs from another only inside row `y` has the same rows
/// but for that one.
proof fn lemma_one_row_changed<T>(before: Seq<T>, after: Seq<T>, cols: int, rows: int, y: int)
    requires
        0 <= cols,
        0 <= y < rows,
        before.len() == cols * rows,
        after.len() == cols * rows,
        forall|i: int|
            0 <= i < cols * rows && !(y * cols <= i < y * cols + cols) ==> after[i] == before[i],
    ensures
        rows_of(after, cols, rows) == rows_of(before, cols, rows).update(
            y,
            row_of(after, cols, y),
        ),
{
    let expected = rows_of(before, cols, rows).update(y, row_of(after, cols, y));
    assert forall|z: int| 0 <= z < rows implies rows_of(after, cols, rows)[z] == expected[z] by {
        lemma_row_inside(cols, rows, z);
        if z < y {
            lemma_rows_apart(cols, z, y);
        } else if z > y {
            lemma_rows_apart(cols, y, z);
        }
        if z != y {
            assert(row_of(after, cols, z) =~= row_of(before, cols, z));
        }
    }
    assert(rows_of(after, cols, rows) =~= expected);
}

/// Appending one row's worth of cells appends that row.
proof fn lemma_push_row<T>(cells: Seq<T>, row: Seq<T>, cols: int, rows: int)
    requires
        0 <= cols,
        0 <= rows,
        cells.len() == cols * rows,
        row.len() == cols,
    ensures
        (cells + row).len() == cols * (rows + 1),
        rows_of(cells + row, cols, rows + 1) == rows_of(cells, cols, rows).push(row),
{
    lemma_mul_is_commutative(cols, rows);
    lemma_mul_is_commutative(cols, rows + 1);
    lemma_mul_is_distributive_add_other_way(cols, rows, 1);
    let expected = rows_of(cells, cols, rows).push(row);
    assert forall|z: int| 0 <= z < rows + 1 implies rows_of(cells + row, cols, rows + 1)[z]
        == expected[z] by {
        lemma_row_inside(cols, rows + 1, z);
        if z < rows {
            lemma_row_inside(cols, rows, z);
            assert(row_of(cells + row, cols, z) =~= row_of(cells, cols, z));
        } else {
            assert(row_of(cells + row, cols, z) =~= row);
        }
    }
    assert(rows_of(cells + row, cols, rows + 1) =~= expected);
}

/// A buffer without any row yet, with space for `cols * rows` cells.
pub fn empty<T>(cols: usize, rows: usize) -> (cells: Vec<T>)
    requires
        cols * rows <= usize::MAX,
    ensures
        is_rect(cells@, cols as int, 0),
        rows_of(cells@, cols as int, 0) == Seq::<Seq<T>>::empty(),
{
    let cells: Vec<T> = Vec::with_capacity(cols * rows);
    assert(rows_of(cells@, cols as int, 0) =~= Seq::<Seq<T>>::empty());
    cells
}

/// Appends `row` to a buffer of `done` rows that is to have `rows`.
pub fn push_row<T>(cells: &mut Vec<T>, cols: usize, rows: usize, done: usize, row: Vec<T>)
    requires
        cols * rows <= usize::MAX,
        done < rows,
        is_rect(old(cells)@, cols as int, done as int),
        row@.len() == cols,
    ensures
        is_rect(final(cells)@, cols as int, done + 1),
        rows_of(final(cells)@, cols as int, done + 1) == rows_of(
            old(cells)@,
            cols as int,
            done as int,
        ).push(row@),
{
    let mut row = row;
    proof {
        lemma_push_row(cells@, row@, cols as int, done as int);
        lemma_mul_inequality(done + 1, rows as int, cols as int);
        lemma_mul_is_commutative(cols as int, done + 1);
        lemma_mul_is_commutative(cols as int, rows as int);
    }
    cells.append(&mut row);
}

/// A copy of row `y`.
pub fn read_row<T: Copy>(cells: &Vec<T>, cols: usize, rows: usize, y: usize) -> (row: Vec<T>)
    requires
        is_rect(cells@, cols as int, rows as int),
        y < rows,
    ensures
        row@ == rows_of(cells@, cols as int, rows as int)[y as int],
{
    proof {
        lemma_row_inside(cols as int, rows as int, y as int);
    }
    let start: usize = y * cols;
    let mut row: Vec<T> = Vec::with_capacity(cols);
    let mut x: usize = 0;
    while x < cols
        invariant
            x <= cols,
            start == y * cols,
            start + cols <= cells.len(),
            row@ =~= cells@.subrange(start as int, start + x),
        decreases cols - x,
    {
        row.push(cells[start + x]);
        x = x + 1;
    }
    row
}

/// Row `y` in place.
pub fn borrow_row<T>(cells: &Vec<T>, cols: usize, rows: usize, y: usize) -> (row: &[T])
    requires
        is_rect(cells@, cols as int, rows as int),
        y < rows,
    ensures
        row@ == rows_of(cells@, cols as int, rows as int)[y as int],
{
    proof {
        lemma_row_inside(cols as int, rows as int, y as int);
    }
    let start: usize = y * cols;
    slice_subrange(cells.as_slice(), start, start + cols)
}

/// A buffer of `cols * rows` copies of `value`.
pub fn filled<T: Copy>(cols: usize, rows: usize, value: T) -> (cells: Vec<T>)
    requires
        cols * rows <= usize::MAX,
    ensures
        is_rect(cells@, cols as int, rows as int),
        rows_of(cells@, cols as int, rows as int) == Seq::new(
            rows as nat,
            |y: int| row_filled_with(cols as int, value),
        ),
{
    let len: usize = cols * rows;
    let mut cells: Vec<T> = Vec::with_capacity(len);
    let mut i: usize = 0;
    while i < len
        invariant
            i <= len,
            cells.len() == i,
            forall|j: int| 0 <= j < i ==> cells@[j] == value,
        decreases len - i,
    {
        cells.push(value);
        i = i + 1;
    }
    proof {
        let expected = Seq::new(rows as nat, |y: int| row_filled_with(cols as int, value));
        assert forall|y: int| 0 <= y < rows implies rows_of(cells@, cols as int, rows as int)[y]
            == expected[y] by {
            lemma_row_inside(cols as int, rows as int, y);
            assert(row_of(cells@, cols as int, y) =~= row_filled_with(cols as int, value));
        }
        assert(rows_of(cells@, cols as int, rows as int) =~= expected);
    }
    cells
}

/// Overwrites row `y` with `row`.
pub fn write_row<T: Copy>(cells: &mut Vec<T>, cols: usize, rows: usize, y: usize, row: &Vec<T>)
    requires
        is_rect(old(cells)@, cols as int, rows as int),
        y < rows,
        row@.len() == cols,
    ensures
        is_rect(final(cells)@, cols as int, rows as int),
        rows_of(final(cells)@, cols as int, rows as int) == rows_of(
            old(cells)@,
            cols as int,
            rows as int,
        ).update(y as int, row@),
{
    proof {
        lemma_row_inside(cols as int, rows as int, y as int);
    }
    let ghost before = cells@;
    let start: usize = y * cols;
    let mut x: usize = 0;
    while x < cols
        invariant
            x <= cols,
            start == y * cols,
            start + cols <= cells.len(),
            cells@.len() == before.len(),
            row@.len() == cols,
            forall|i: int| 0 <= i < x ==> cells@[start + i] == row@[i],
            forall|i: int|
                0 <= i < before.len() && !(start <= i < start + x) ==> cells@[i] == before[i],
        decreases cols - x,
    {
        cells[start + x] = row[x];
        x = x + 1;
    }
    proof {
        lemma_one_row_changed(before, cells@, cols as int, rows as int, y as int);
        assert(row_of(cells@, cols as int, y as int) =~= row@);
    }
}

/// The cell at column `x` of row `y`.
pub fn cell_at<T>(cells: &Vec<T>, cols: usize, rows: usize, x: usize, y: usize) -> (cell: &T)
    requires
        is_rect(cells@, cols as int, rows as int),
        x < cols,
        y < rows,
    ensures
        *cell == rows_of(cells@, cols as int, rows as int)[y as int][x as int],
{
    proof {
        lemma_row_inside(cols as int, rows as int, y as int);
    }
    &cells[y * cols + x]
}

/// Overwrites the cell at column `x` of row `y`.
pub fn set_cell<T: Copy>(
    cells: &mut Vec<T>,
    cols: usize,
    rows: usize,
    x: usize,
    y: usize,
    value: T,
)
    requires
        is_rect(old(cells)@, cols as int, rows as int),
        x < cols,
        y < rows,
    ensures
        is_rect(final(cells)@, cols as int, rows as int),
        rows_of(final(cells)@, cols as int, rows as int) == ({
            let before = rows_of(old(cells)@, cols as int, rows as int);
            before.update(y as int, before[y as int].update(x as int, value))
        }),
{
    proof {
        lemma_row_inside(cols as int, rows as int, y as int);
    }
    let ghost before = cells@;
    cells[y * cols + x] = value;
    proof {
        lemma_one_row_changed(before, cells@, cols as int, rows as int, y as int);
        assert(row_of(cells@, cols as int, y as int) =~= row_of(
            before,
            cols as int,
            y as int,
        ).update(x as int, value));
    }
}

/// `row` with columns `from..to` overwritten by `value`.
pub open spec fn span_filled<T>(row: Seq<T>, from: int, to: int, value: T) -> Seq<T> {
    Seq::new(row.len(), |x: int| if from <= x < to { value } else { row[x] })
}

/// Overwrites columns `from..to` of row `y` with `value`.
pub fn fill_span<T: Copy>(
    cells: &mut Vec<T>,
    cols: usize,
    rows: usize,
    y: usize,
    from: usize,
    to: usize,
    value: T,
)
    requires
        is_rect(old(cells)@, cols as int, rows as int),
        y < rows,
        from <= to <= cols,
    ensures
        is_rect(final(cells)@, cols as int, rows as int),
        rows_of(final(cells)@, cols as int, rows as int) == ({
            let before = rows_of(old(cells)@, cols as int, rows as int);
            before.update(
                y as int,
                span_filled(before[y as int], from as int, to as int, value),
            )
        }),
{
    proof {
        lemma_row_inside(cols as int, rows as int, y as int);
    }
    let ghost before = cells@;
    let start: usize = y * cols;
    let mut x: usize = from;
    while x < to
        invariant
            from <= x <= to <= cols,
            start == y * cols,
            start + cols <= cells.len(),
            cells@.len() == before.len(),
            forall|i: int| start + from <= i < start + x ==> cells@[i] == value,
            forall|i: int|
                0 <= i < before.len() && !(start + from <= i < start + x) ==> cells@[i]
                    == before[i],
        decreases to - x,
    {
        cells[start + x] = value;
        x = x + 1;
    }
    proof {
        lemma_one_row_changed(before, cells@, cols as int, rows as int, y as int);
        assert(row_of(cells@, cols as int, y as int) =~= span_filled(
            row_of(before, cols as int, y as int),
            from as int,
            to as int,
            value,
        ));
    }
}

/// `row` without the `n` cells at `at`: what follows them moves left, and
/// `value` fills the end.
pub open spec fn shifted_left<T>(row: Seq<T>, at: int, n: int, value: T) -> Seq<T> {
    Seq::new(
        row.len(),
        |x: int|
            if x < at {
                row[x]
            } else if x + n < row.len() {
                row[x + n]
            } else {
                value
            },
    )
}

/// `row` with `n` copies of `value` put in at `at`: what was there moves
/// right, and what is pushed past the end is lost.
pub open spec fn shifted_right<T>(row: Seq<T>, at: int, n: int, value: T) -> Seq<T> {
    Seq::new(
        row.len(),
        |x: int|
            if x < at {
                row[x]
            } else if x < at + n {
                value
            } else {
                row[x - n]
            },
    )
}

/// Deletes `n` cells at column `at` of row `y`.
pub fn shift_left<T: Copy>(
    cells: &mut Vec<T>,
    cols: usize,
    rows: usize,
    y: usize,
    at: usize,
    n: usize,
    value: T,
)
    requires
        is_rect(old(cells)@, cols as int, rows as int),
        y < rows,
        at + n <= cols,
    ensures
        is_rect(final(cells)@, cols as int, rows as int),
        rows_of(final(cells)@, cols as int, rows as int) == ({
            let before = rows_of(old(cells)@, cols as int, rows as int);
            before.update(y as int, shifted_left(before[y as int], at as int, n as int, value))
        }),
{
    let before = read_row(cells, cols, rows, y);
    proof {
        lemma_row_inside(cols as int, rows as int, y as int);
    }
    let mut row: Vec<T> = Vec::with_capacity(cols);
    let mut x: usize = 0;
    while x < cols
        invariant
            x <= cols,
            at + n <= cols,
            before.len() == cols,
            row@ =~= shifted_left(before@, at as int, n as int, value).take(x as int),
        decreases cols - x,
    {
        let cell = if x < at {
            before[x]
        } else if x < cols - n {
            before[x + n]
        } else {
            value
        };
        row.push(cell);
        x = x + 1;
    }
    assert(row@ =~= shifted_left(before@, at as int, n as int, value));
    write_row(cells, cols, rows, y, &row);
}

/// Inserts `n` copies of `value` at column `at` of row `y`.
pub fn shift_right<T: Copy>(
    cells: &mut Vec<T>,
    cols: usize,
    rows: usize,
    y: usize,
    at: usize,
    n: usize,
    value: T,
)
    requires
        is_rect(old(cells)@, cols as int, rows as int),
        y < rows,
        at + n <= cols,
    ensures
        is_rect(final(cells)@, cols as int, rows as int),
        rows_of(final(cells)@, cols as int, rows as int) == ({
            let before = rows_of(old(cells)@, cols as int, rows as int);
            before.update(y as int, shifted_right(before[y as int], at as int, n as int, value))
        }),
{
    let before = read_row(cells, cols, rows, y);
    proof {
        lemma_row_inside(cols as int, rows as int, y as int);
    }
    let mut row: Vec<T> = Vec::with_capacity(cols);
    let mut x: usize = 0;
    while x < cols
        invariant
            x <= cols,
            at + n <= cols,
            before.len() == cols,
            row@ =~= shifted_right(before@, at as int, n as int, value).take(x as int),
        decreases cols - x,
    {
        let cell = if x < at {
            before[x]
        } else if x < at + n {
            value
        } else {
            before[x - n]
        };
        row.push(cell);
        x = x + 1;
    }
    assert(row@ =~= shifted_right(before@, at as int, n as int, value));
    write_row(cells, cols, rows, y, &row);
}

/// `rows` with rows `from..to` replaced by `row`.
pub open spec fn rows_filled<T>(rows: Seq<Seq<T>>, from: int, to: int, row: Seq<T>) -> Seq<Seq<T>> {
    Seq::new(rows.len(), |y: int| if from <= y < to { row } else { rows[y] })
}

/// A row of `cols` copies of `value`.
pub open spec fn row_filled_with<T>(cols: int, value: T) -> Seq<T> {
    Seq::new(cols as nat, |x: int| value)
}

/// Overwrites rows `from..to` with `value`.
pub fn fill_rows<T: Copy>(
    cells: &mut Vec<T>,
    cols: usize,
    rows: usize,
    from: usize,
    to: usize,
    value: T,
)
    requires
        is_rect(old(cells)@, cols as int, rows as int),
        from <= to <= rows,
    ensures
        is_rect(final(cells)@, cols as int, rows as int),
        rows_of(final(cells)@, cols as int, rows as int) == rows_filled(
            rows_of(old(cells)@, cols as int, rows as int),
            from as int,
            to as int,
            row_filled_with(cols as int, value),
        ),
{
    let ghost before = rows_of(cells@, cols as int, rows as int);
    let ghost row = row_filled_with(cols as int, value);
    let mut y: usize = from;
    assert(before =~= rows_filled(before, from as int, from as int, row));
    while y < to
        invariant
            from <= y <= to <= rows,
            is_rect(cells@, cols as int, rows as int),
            before.len() == rows,
            row == row_filled_with(cols as int, value),
            rows_of(cells@, cols as int, rows as int) == rows_filled(
                before,
                from as int,
                y as int,
                row,
            ),
        decreases to - y,
    {
        proof {
            lemma_row_inside(cols as int, rows as int, y as int);
        }
        fill_span(cells, cols, rows, y, 0, cols, value);
        proof {
            assert(row_of(cells@, cols as int, y as int).len() == cols);
            assert(span_filled(before[y as int], 0, cols as int, value).len()
                == before[y as int].len());
        }
        y = y + 1;
        proof {
            assert(rows_of(cells@, cols as int, rows as int)[y - 1] =~= row);
            assert(rows_of(cells@, cols as int, rows as int) =~= rows_filled(
                before,
                from as int,
                y as int,
                row,
            ));
        }
    }
}

/// Copies row `from` over row `to`.
pub fn copy_row<T: Copy>(cells: &mut Vec<T>, cols: usize, rows: usize, from: usize, to: usize)
    requires
        is_rect(old(cells)@, cols as int, rows as int),
        from < rows,
        to < rows,
    ensures
        is_rect(final(cells)@, cols as int, rows as int),
        rows_of(final(cells)@, cols as int, rows as int) == ({
            let before = rows_of(old(cells)@, cols as int, rows as int);
            before.update(to as int, before[from as int])
        }),
{
    let row = read_row(cells, cols, rows, from);
    proof {
        lemma_row_inside(cols as int, rows as int, from as int);
    }
    write_row(cells, cols, rows, to, &row);
}

/// Rows `top..=bot` moved up by `n`, with `row` coming in at the bottom.
pub open spec fn region_up<T>(
    rows: Seq<Seq<T>>,
    top: int,
    bot: int,
    n: int,
    row: Seq<T>,
) -> Seq<Seq<T>> {
    Seq::new(
        rows.len(),
        |y: int|
            if top <= y <= bot {
                if y + n <= bot { rows[y + n] } else { row }
            } else {
                rows[y]
            },
    )
}

/// Rows `top..=bot` moved down by `n`, with `row` coming in at the top.
pub open spec fn region_down<T>(
    rows: Seq<Seq<T>>,
    top: int,
    bot: int,
    n: int,
    row: Seq<T>,
) -> Seq<Seq<T>> {
    Seq::new(
        rows.len(),
        |y: int|
            if top <= y <= bot {
                if y - n >= top { rows[y - n] } else { row }
            } else {
                rows[y]
            },
    )
}

/// Moves rows `top..=bot` up by `n` and fills what opens up with `value`.
pub fn move_up<T: Copy>(
    cells: &mut Vec<T>,
    cols: usize,
    rows: usize,
    top: usize,
    bot: usize,
    n: usize,
    value: T,
)
    requires
        is_rect(old(cells)@, cols as int, rows as int),
        top <= bot < rows,
        n <= bot - top + 1,
    ensures
        is_rect(final(cells)@, cols as int, rows as int),
        rows_of(final(cells)@, cols as int, rows as int) == region_up(
            rows_of(old(cells)@, cols as int, rows as int),
            top as int,
            bot as int,
            n as int,
            row_filled_with(cols as int, value),
        ),
{
    let ghost before = rows_of(cells@, cols as int, rows as int);
    let ghost row = row_filled_with(cols as int, value);
    let mut r: usize = top;
    while r <= bot
        invariant
            is_rect(cells@, cols as int, rows as int),
            top <= r <= bot + 1,
            bot < rows,
            n <= bot - top + 1,
            before.len() == rows,
            row == row_filled_with(cols as int, value),
            forall|y: int|
                0 <= y < rows ==> #[trigger] rows_of(cells@, cols as int, rows as int)[y] == (
                if top <= y < r {
                    if y + n <= bot { before[y + n] } else { row }
                } else {
                    before[y]
                }),
        decreases bot + 1 - r,
    {
        let ghost prior = rows_of(cells@, cols as int, rows as int);
        if n <= bot - r {
            assert(prior[r + n] == before[r + n]);
            copy_row(cells, cols, rows, r + n, r);
        } else {
            fill_rows(cells, cols, rows, r, r + 1, value);
        }
        assert forall|y: int| 0 <= y < rows && y != r implies #[trigger] rows_of(
            cells@,
            cols as int,
            rows as int,
        )[y] == prior[y] by {}
        r = r + 1;
    }
    assert(rows_of(cells@, cols as int, rows as int) =~= region_up(
        before,
        top as int,
        bot as int,
        n as int,
        row,
    ));
}

/// Moves rows `top..=bot` down by `n` and fills what opens up with `value`.
pub fn move_down<T: Copy>(
    cells: &mut Vec<T>,
    cols: usize,
    rows: usize,
    top: usize,
    bot: usize,
    n: usize,
    value: T,
)
    requires
        is_rect(old(cells)@, cols as int, rows as int),
        top <= bot < rows,
        n <= bot - top + 1,
    ensures
        is_rect(final(cells)@, cols as int, rows as int),
        rows_of(final(cells)@, cols as int, rows as int) == region_down(
            rows_of(old(cells)@, cols as int, rows as int),
            top as int,
            bot as int,
            n as int,
            row_filled_with(cols as int, value),
        ),
{
    let ghost before = rows_of(cells@, cols as int, rows as int);
    let ghost row = row_filled_with(cols as int, value);
    let mut left: usize = bot - top + 1;
    while left > 0
        invariant
            is_rect(cells@, cols as int, rows as int),
            top <= bot < rows,
            left <= bot - top + 1,
            n <= bot - top + 1,
            before.len() == rows,
            row == row_filled_with(cols as int, value),
            forall|y: int|
                0 <= y < rows ==> #[trigger] rows_of(cells@, cols as int, rows as int)[y] == (
                if top + left <= y <= bot {
                    if y - n >= top { before[y - n] } else { row }
                } else {
                    before[y]
                }),
        decreases left,
    {
        let ghost prior = rows_of(cells@, cols as int, rows as int);
        left = left - 1;
        let r: usize = top + left;
        if left >= n {
            assert(prior[r - n] == before[r - n]);
            copy_row(cells, cols, rows, r - n, r);
        } else {
            fill_rows(cells, cols, rows, r, r + 1, value);
        }
        assert forall|y: int| 0 <= y < rows && y != r implies #[trigger] rows_of(
            cells@,
            cols as int,
            rows as int,
        )[y] == prior[y] by {}
    }
    assert(rows_of(cells@, cols as int, rows as int) =~= region_down(
        before,
        top as int,
        bot as int,
        n as int,
        row,
    ));
}

} // verus!
