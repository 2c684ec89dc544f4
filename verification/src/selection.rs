//! Text selection, in coordinates that survive scrolling.
//!
//! A cell is addressed by an *absolute row*: an id that stays with a line as it
//! scrolls off the screen into history, and keeps working after old history is
//! trimmed. See `Grid::abs_row`.

use crate::cell::{self, Cell};
use crate::grid::Grid;
use crate::model::{self, GridState};
use crate::text::{self, is_alphanumeric, text_from, trim_end};
use vstd::prelude::*;

verus! {

/// Row id that outlives scrolling. Not an index into anything directly.
pub type AbsRow = usize;

#[derive(Clone, Copy, PartialEq, Eq, Debug, Structural)]
pub enum Mode {
    /// Cell by cell, as dragged.
    Char,
    /// Snapped out to whole words: a double click.
    Word,
    /// Whole lines: a triple click.
    Line,
}

#[derive(Clone, Copy, PartialEq, Eq, PartialOrd, Ord, Debug, Structural)]
pub struct Point {
    pub row: AbsRow,
    /// Column. As the *end* of a range this is exclusive.
    pub col: usize,
}

impl Point {
    pub fn new(row: AbsRow, col: usize) -> (p: Self)
        ensures
            p == (Point { row, col }),
    {
        Point { row, col }
    }

    /// Reading order: by row, then by column.
    pub open spec fn at_or_before(self, other: Point) -> bool {
        self.row < other.row || (self.row == other.row && self.col <= other.col)
    }

    fn precedes(self, other: Point) -> (yes: bool)
        ensures
            yes == self.at_or_before(other),
    {
        self.row < other.row || (self.row == other.row && self.col <= other.col)
    }
}

/// Characters that count as part of a word for double-click selection.
/// Deliberately generous: paths and URLs should come out in one piece.
pub open spec fn in_word(c: char) -> bool {
    text::alphanumeric(c) || c == '_' || c == '-' || c == '.' || c == '/' || c == ':' || c == '~'
        || c == '@' || c == '+' || c == '=' || c == '%'
}

fn is_word_char(c: char) -> (yes: bool)
    ensures
        yes == in_word(c),
        c as int <= 127 ==> text::alphanumeric(c) == text::ascii_alphanumeric(c),
{
    let alphanumeric = is_alphanumeric(c);
    alphanumeric || c == '_' || c == '-' || c == '.' || c == '/' || c == ':' || c == '~' || c
        == '@' || c == '+' || c == '=' || c == '%'
}

/// Whether each character of a row is part of a word.
pub open spec fn word_flags(row: Seq<char>) -> Seq<bool> {
    Seq::new(row.len(), |i: int| in_word(row[i]))
}

/// Whether the letters and digits among the ASCII characters of a row are
/// those of ASCII.
pub open spec fn ascii_is_known(row: Seq<char>) -> bool {
    forall|i: int|
        0 <= i < row.len() && row[i] as int <= 127 ==> text::alphanumeric(#[trigger] row[i])
            == text::ascii_alphanumeric(row[i])
}

/// Whether `start..end` is the longest run of set flags around `col`, or just
/// `col` itself where its flag is not set.
pub open spec fn is_run(flags: Seq<bool>, col: int, start: int, end: int) -> bool {
    &&& 0 <= start <= col < end <= flags.len()
    &&& if flags[col] {
        &&& forall|i: int| start <= i < end ==> flags[i]
        &&& start == 0 || !flags[start - 1]
        &&& end == flags.len() || !flags[end]
    } else {
        start == col && end == col + 1
    }
}

/// Grows `col` out to the run of set flags around it.
pub fn run_at(flags: &[bool], col: usize) -> (span: (usize, usize))
    requires
        flags@.len() > 0,
    ensures
        is_run(
            flags@,
            model::min(col as int, flags@.len() - 1),
            span.0 as int,
            span.1 as int,
        ),
{
    let col: usize = if col < flags.len() { col } else { flags.len() - 1 };
    if !flags[col] {
        return (col, col + 1);
    }
    let mut start: usize = col;
    while start > 0 && flags[start - 1]
        invariant
            start <= col < flags@.len(),
            forall|i: int| start <= i <= col ==> flags@[i],
        decreases start,
    {
        start = start - 1;
    }
    let mut end: usize = col + 1;
    while end < flags.len() && flags[end]
        invariant
            col < end <= flags@.len(),
            forall|i: int| col <= i < end ==> flags@[i],
        decreases flags.len() - end,
    {
        end = end + 1;
    }
    (start, end)
}

/// Grows `col` out to the word around it. Returns a half-open column range.
/// On a non-word character the "word" is just that one cell, which is what
/// double-clicking a space or a bracket should give you.
pub fn word_at(row: &[char], col: usize) -> (span: (usize, usize))
    ensures
        ascii_is_known(row@),
        if row@.len() == 0 {
            span == (0usize, 0usize)
        } else {
            is_run(
                word_flags(row@),
                model::min(col as int, row@.len() - 1),
                span.0 as int,
                span.1 as int,
            )
        },
{
    if row.len() == 0 {
        return (0, 0);
    }
    let mut flags: Vec<bool> = Vec::new();
    let mut i: usize = 0;
    while i < row.len()
        invariant
            i <= row@.len(),
            flags@ =~= word_flags(row@).take(i as int),
            ascii_is_known(row@.take(i as int)),
        decreases row.len() - i,
    {
        flags.push(is_word_char(row[i]));
        i = i + 1;
    }
    assert(flags@ =~= word_flags(row@));
    assert(row@.take(i as int) =~= row@);
    run_at(flags.as_slice(), col)
}

/// The column where the character that covers column `col` starts: the spacer
/// half of a double-width character belongs to the character on its left.
pub open spec fn head_of(row: Seq<Option<char>>, col: int) -> int
    decreases col,
{
    if 0 < col < row.len() && row[col] is None { head_of(row, col - 1) } else { col }
}

/// The character that covers each column; a blank where a row starts with a
/// spacer.
pub open spec fn covering(row: Seq<Option<char>>) -> Seq<char> {
    Seq::new(
        row.len(),
        |i: int|
            match row[head_of(row, i)] {
                Some(c) => c,
                None => ' ',
            },
    )
}

proof fn lemma_head(row: Seq<Option<char>>, col: int)
    requires
        0 <= col < row.len(),
    ensures
        0 <= head_of(row, col) <= col,
        head_of(row, col) == 0 || row[head_of(row, col)] is Some,
    decreases col,
{
    if col > 0 && row[col] is None {
        lemma_head(row, col - 1);
    }
}

/// As [`word_at`], for a row with one entry for each grid column, in which the
/// spacer half of a double-width character is `None`. A spacer goes with the
/// character on its left.
pub fn word_at_cells(row: &[Option<char>], col: usize) -> (span: (usize, usize))
    ensures
        ascii_is_known(covering(row@)),
        if row@.len() == 0 {
            span == (0usize, 0usize)
        } else {
            is_run(
                word_flags(covering(row@)),
                model::min(col as int, row@.len() - 1),
                span.0 as int,
                span.1 as int,
            )
        },
{
    let mut chars: Vec<char> = Vec::new();
    let mut last: char = ' ';
    let mut i: usize = 0;
    while i < row.len()
        invariant
            i <= row@.len(),
            chars@ =~= covering(row@).take(i as int),
            i > 0 ==> last == covering(row@)[i - 1],
            i == 0 ==> last == ' ',
        decreases row.len() - i,
    {
        if let Some(c) = row[i] {
            last = c;
        }
        chars.push(last);
        i = i + 1;
    }
    assert(chars@ =~= covering(row@));
    word_at(chars.as_slice(), col)
}

/// A drag in progress, or a finished selection.
///
/// Both ends are stored already expanded for the mode, so a word-mode drag
/// keeps whole words at both ends rather than snapping only where it started.
#[derive(Clone, Copy, Debug)]
pub struct Selection {
    pub anchor: (Point, Point),
    pub head: (Point, Point),
    pub mode: Mode,
}

/// The earlier of two points.
pub open spec fn earlier(a: Point, b: Point) -> Point {
    if a.at_or_before(b) { a } else { b }
}

/// The later of two points.
pub open spec fn later(a: Point, b: Point) -> Point {
    if a.at_or_before(b) { b } else { a }
}

/// The columns of `row` that a range covers, on a screen `cols` wide. Rows
/// before the last are covered to the end of the line.
pub open spec fn columns_in(range: (Point, Point), row: int, cols: int) -> (int, int) {
    (
        if row == range.0.row { range.0.col as int } else { 0 },
        if row == range.1.row { range.1.col as int } else { cols },
    )
}

/// Whether a range covers a cell.
pub open spec fn covers(range: (Point, Point), row: int, col: int, cols: int) -> bool {
    let (from, to) = columns_in(range, row, cols);
    range.0.row <= row <= range.1.row && from <= col < to
}

impl Selection {
    /// The ordered ends of the selection.
    pub open spec fn span(self) -> (Point, Point) {
        (earlier(self.anchor.0, self.head.0), later(self.anchor.1, self.head.1))
    }

    /// Whether a range covers no cells.
    pub open spec fn nothing_in(range: (Point, Point)) -> bool {
        range.0.row == range.1.row && range.0.col >= range.1.col
    }

    pub fn new(start: (Point, Point), mode: Mode) -> (s: Self)
        ensures
            s == (Selection { anchor: start, head: start, mode }),
    {
        Selection { anchor: start, head: start, mode }
    }

    pub fn extend_to(&mut self, end: (Point, Point))
        ensures
            *final(self) == (Selection { head: end, ..*old(self) }),
    {
        self.head = end;
    }

    /// Ordered `(start, end)` covering both ends. `end.col` is exclusive.
    pub fn range(&self) -> (r: (Point, Point))
        ensures
            r == self.span(),
    {
        let start = if self.anchor.0.precedes(self.head.0) { self.anchor.0 } else { self.head.0 };
        let end = if self.anchor.1.precedes(self.head.1) { self.head.1 } else { self.anchor.1 };
        (start, end)
    }

    /// True when the selection covers no cells at all: a plain click that
    /// never became a drag.
    pub fn is_empty(&self) -> (empty: bool)
        ensures
            empty == Selection::nothing_in(self.span()),
    {
        let (start, end) = self.range();
        start.row == end.row && start.col >= end.col
    }

    /// Whether `(row, col)` is inside the selection, for highlighting.
    pub fn contains(&self, row: AbsRow, col: usize, cols: usize) -> (inside: bool)
        ensures
            inside == covers(self.span(), row as int, col as int, cols as int),
    {
        let (start, end) = self.range();
        if row < start.row || row > end.row {
            return false;
        }
        let from: usize = if row == start.row { start.col } else { 0 };
        // Rows before the last are selected to the end of the line, so that a
        // multi-line selection reads as a block rather than a ragged staircase.
        let to: usize = if row == end.row { end.col } else { cols };
        col >= from && col < to
    }
}

/// The characters of a row in columns `from..to`, without the blanks at the
/// end: a terminal row is padded to the full width, and nobody wants that
/// padding on the clipboard.
pub open spec fn cut(row: Seq<char>, from: int, to: int) -> Seq<char> {
    let hi = model::min(to, row.len() as int);
    text::trimmed_end(if from < hi { row.subrange(from, hi) } else { Seq::empty() })
}

/// The text of the first `n` rows of a range, `lines` being what each row
/// holds: one line for each row, whether or not the row is still there.
pub open spec fn joined_lines(
    range: (Point, Point),
    cols: int,
    lines: Seq<Option<Seq<char>>>,
    n: int,
) -> Seq<char>
    decreases n,
{
    if n <= 0 {
        Seq::empty()
    } else {
        let row = range.0.row + n - 1;
        let (from, to) = columns_in(range, row, cols);
        let text = match lines[n - 1] {
            Some(line) => cut(line, from, to),
            None => Seq::empty(),
        };
        let before = joined_lines(range, cols, lines, n - 1) + text;
        if row != range.1.row { before.push('\n') } else { before }
    }
}

/// How many rows a range has.
pub open spec fn height(range: (Point, Point)) -> int {
    model::max(0, range.1.row - range.0.row + 1)
}

/// What a row of the grid says, seen from its cells: one character for each
/// column but the spacers.
pub open spec fn said(row: Seq<Option<char>>) -> Seq<char>
    decreases row.len(),
{
    if row.len() == 0 {
        Seq::empty()
    } else {
        match row.last() {
            Some(c) => said(row.drop_last()).push(c),
            None => said(row.drop_last()),
        }
    }
}

fn push_chars(out: &mut Vec<char>, line: &[char])
    ensures
        final(out)@ == old(out)@ + line@,
{
    let ghost before = out@;
    let mut i: usize = 0;
    while i < line.len()
        invariant
            i <= line@.len(),
            out@ =~= before + line@.take(i as int),
        decreases line.len() - i,
    {
        out.push(line[i]);
        i = i + 1;
    }
    assert(out@ =~= before + line@);
}

fn cut_line(row: &[char], from: usize, to: usize) -> (line: Vec<char>)
    ensures
        line@ == cut(row@, from as int, to as int),
{
    let hi: usize = if to < row.len() { to } else { row.len() };
    let mut line: Vec<char> = Vec::new();
    let mut i: usize = from;
    while i < hi
        invariant
            hi <= row@.len(),
            from < hi ==> from <= i <= hi && line@ =~= row@.subrange(from as int, i as int),
            from >= hi ==> i == from && line@.len() == 0,
        decreases hi - i,
    {
        line.push(row[i]);
        i = i + 1;
    }
    assert(line@ =~= if from < hi {
        row@.subrange(from as int, hi as int)
    } else {
        Seq::empty()
    });
    trim_end(&mut line);
    line
}

/// Pulls the selected text out, one line per row.
///
/// Trailing blanks are dropped from each line: a terminal row is padded to the
/// full width, and nobody wants that padding on the clipboard.
pub fn extract<F: Fn(AbsRow) -> Option<Vec<char>>>(
    range: (Point, Point),
    cols: usize,
    row_at: F,
) -> (out: String)
    requires
        forall|row: AbsRow|
            range.0.row <= row <= range.1.row ==> call_requires(row_at, (row,)),
    ensures
        exists|lines: Seq<Option<Seq<char>>>|
            {
                &&& lines.len() == height(range)
                &&& forall|i: int|
                    0 <= i < lines.len() ==> row_says(
                        row_at,
                        (range.0.row + i) as usize,
                        #[trigger] lines[i],
                    )
                &&& out@ == #[trigger] joined_lines(range, cols as int, lines, height(range))
            },
{
    let (start, end) = range;
    let mut out: Vec<char> = Vec::new();
    let ghost mut lines: Seq<Option<Seq<char>>> = Seq::empty();
    if start.row > end.row {
        assert(out@ =~= joined_lines(range, cols as int, lines, height(range)));
        return text_from(out.as_slice());
    }
    let mut row: usize = start.row;
    loop
        invariant
            start == range.0,
            end == range.1,
            start.row <= row <= end.row,
            forall|row: AbsRow|
                range.0.row <= row <= range.1.row ==> call_requires(row_at, (row,)),
            lines.len() == row - start.row,
            forall|i: int|
                0 <= i < lines.len() ==> row_says(
                    row_at,
                    (range.0.row + i) as usize,
                    #[trigger] lines[i],
                ),
            out@ == joined_lines(range, cols as int, lines, lines.len() as int),
        decreases end.row - row,
    {
        let from: usize = if row == start.row { start.col } else { 0 };
        let to: usize = if row == end.row { end.col } else { cols };
        let ghost before = lines;
        let held = row_at(row);
        let ghost line = line_of(held);
        assert(row_says(row_at, row, line));
        if let Some(chars) = held {
            let text = cut_line(chars.as_slice(), from, to);
            push_chars(&mut out, text.as_slice());
        }
        proof {
            lines = before.push(line);
            lemma_lines_prefix(range, cols as int, before, lines, before.len() as int);
            assert(lines[before.len() as int] == line);
        }
        if row == end.row {
            assert(out@ =~= joined_lines(range, cols as int, lines, lines.len() as int));
            assert(out@ == joined_lines(range, cols as int, lines, height(range)));
            return text_from(out.as_slice());
        }
        out.push('\n');
        row = row + 1;
        assert(out@ =~= joined_lines(range, cols as int, lines, lines.len() as int));
    }
}

/// The contents of a row that is still there.
pub open spec fn line_of(held: Option<Vec<char>>) -> Option<Seq<char>> {
    match held {
        Some(chars) => Some(chars@),
        None => None,
    }
}

/// Whether `line` is what `row_at` may answer for `row`.
pub open spec fn row_says<F: Fn(AbsRow) -> Option<Vec<char>>>(
    row_at: F,
    row: AbsRow,
    line: Option<Seq<char>>,
) -> bool {
    match line {
        Some(text) => exists|v: Vec<char>|
            v@ == text && #[trigger] call_ensures(row_at, (row,), Some(v)),
        None => call_ensures(row_at, (row,), None::<Vec<char>>),
    }
}

/// The text of some rows depends on those rows alone.
proof fn lemma_lines_prefix(
    range: (Point, Point),
    cols: int,
    a: Seq<Option<Seq<char>>>,
    b: Seq<Option<Seq<char>>>,
    n: int,
)
    requires
        0 <= n <= a.len(),
        n <= b.len(),
        forall|i: int| 0 <= i < n ==> a[i] == b[i],
    ensures
        joined_lines(range, cols, a, n) == joined_lines(range, cols, b, n),
    decreases n,
{
    if n > 0 {
        lemma_lines_prefix(range, cols, a, b, n - 1);
    }
}

/// What a cell adds to the text of its row: the spacer half of a double-width
/// character adds nothing, but keeps its column.
pub open spec fn cell_says(cell: Cell) -> Option<char> {
    if cell.flags & cell::FLAG_WIDE_SPACER == 0 { Some(cell.c) } else { None }
}

/// A row as one entry for each grid column.
pub open spec fn row_says_cells(row: Seq<Cell>) -> Seq<Option<char>> {
    Seq::new(row.len(), |x: int| cell_says(row[x]))
}

/// What columns `from..to` of a row say, without the blanks at the end.
pub open spec fn cut_cells(row: Seq<Option<char>>, from: int, to: int) -> Seq<char> {
    let hi = model::min(to, row.len() as int);
    text::trimmed_end(said(if from < hi { row.subrange(from, hi) } else { Seq::empty() }))
}

/// The span that a click on a column selects in each mode: the cell itself, the
/// word around it, or the whole line.
pub open spec fn is_span_for(
    row: Seq<Option<char>>,
    abs: AbsRow,
    col: usize,
    cols: usize,
    mode: Mode,
    span: (Point, Point),
) -> bool {
    &&& span.0.row == abs
    &&& span.1.row == abs
    &&& match mode {
        Mode::Char => span.0.col == col && span.1.col == col,
        Mode::Word => if row.len() == 0 {
            span.0.col == 0 && span.1.col == 0
        } else {
            is_run(
                word_flags(covering(row)),
                model::min(col as int, row.len() - 1),
                span.0.col as int,
                span.1.col as int,
            )
        },
        Mode::Line => span.0.col == 0 && span.1.col == cols,
    }
}

impl GridState {
    /// What the row with id `abs` says, column by column; nothing where it is
    /// no longer held.
    pub open spec fn row_cells(self, abs: int) -> Option<Seq<Option<char>>> {
        match self.row_at(abs) {
            Some(row) => Some(row_says_cells(row)),
            None => None,
        }
    }

    /// The text of the first `n` rows of a range.
    pub open spec fn text_of_rows(self, range: (Point, Point), n: int) -> Seq<char>
        decreases n,
    {
        if n <= 0 {
            Seq::empty()
        } else {
            let row = range.0.row + n - 1;
            let (from, to) = columns_in(range, row, self.cols);
            let text = match self.row_cells(row) {
                Some(cells) => cut_cells(cells, from, to),
                None => Seq::empty(),
            };
            let before = self.text_of_rows(range, n - 1) + text;
            if row != range.1.row { before.push('\n') } else { before }
        }
    }

    /// The text of a selection, if there is any.
    pub open spec fn selected_text(self, selection: Selection) -> Option<Seq<char>> {
        let range = selection.span();
        let text = self.text_of_rows(range, height(range));
        if Selection::nothing_in(range) || text.len() == 0 { None } else { Some(text) }
    }
}

fn says(cell: &Cell) -> (c: Option<char>)
    ensures
        c == cell_says(*cell),
{
    if cell.flags & cell::FLAG_WIDE_SPACER == 0 { Some(cell.c) } else { None }
}

fn cut_row(row: &[Option<char>], from: usize, to: usize) -> (line: Vec<char>)
    ensures
        line@ == cut_cells(row@, from as int, to as int),
{
    let hi: usize = if to < row.len() { to } else { row.len() };
    let ghost part = if from < hi { row@.subrange(from as int, hi as int) } else { Seq::empty() };
    let mut line: Vec<char> = Vec::new();
    let mut i: usize = from;
    assert(part.take(0) =~= Seq::<Option<char>>::empty());
    while i < hi
        invariant
            hi <= row@.len(),
            from < hi ==> from <= i <= hi && part == row@.subrange(from as int, hi as int)
                && line@ == said(part.take(i - from)),
            from >= hi ==> i == from && line@.len() == 0 && part.len() == 0,
        decreases hi - i,
    {
        proof {
            let head = part.take(i - from);
            let longer = part.take(i + 1 - from);
            assert(longer.drop_last() =~= head);
            assert(longer.last() == row@[i as int]);
        }
        if let Some(c) = row[i] {
            line.push(c);
        }
        i = i + 1;
    }
    proof {
        if from < hi {
            assert(part.take(hi - from) =~= part);
        } else {
            assert(line@ =~= said(part));
        }
    }
    trim_end(&mut line);
    line
}

impl Grid {
    /// The row as one entry per **grid column**, so mouse columns index it
    /// directly. The spacer half of a double-width character is `None`: it must
    /// keep its column (or every column after a CJK glyph would be off by one)
    /// while contributing nothing to the text.
    pub fn row_cells(&self, abs: AbsRow) -> (cells: Option<Vec<Option<char>>>)
        requires
            self.shape_ok(),
        ensures
            match self@.row_cells(abs as int) {
                Some(row) => cells matches Some(v) && v@ == row,
                None => cells is None,
            },
    {
        match self.row_at(abs) {
            Some(row) => {
                let mut cells: Vec<Option<char>> = Vec::new();
                let mut x: usize = 0;
                while x < row.len()
                    invariant
                        x <= row@.len(),
                        cells@ =~= row_says_cells(row@).take(x as int),
                    decreases row.len() - x,
                {
                    cells.push(says(&row[x]));
                    x = x + 1;
                }
                assert(cells@ =~= row_says_cells(row@));
                Some(cells)
            },
            None => None,
        }
    }

    /// Expands a click to the span the current mode selects: the cell itself,
    /// the word around it, or the whole line.
    pub fn span_for(&self, abs: AbsRow, col: usize, mode: Mode) -> (span: (Point, Point))
        requires
            self.shape_ok(),
        ensures
            mode is Word && self@.row_cells(abs as int) is Some ==> ascii_is_known(
                covering(self@.row_cells(abs as int)->0),
            ),
            is_span_for(
                match self@.row_cells(abs as int) {
                    Some(row) => row,
                    None => Seq::empty(),
                },
                abs,
                col,
                self.cols,
                mode,
                span,
            ),
    {
        match mode {
            Mode::Char => (Point::new(abs, col), Point::new(abs, col)),
            Mode::Word => {
                let (start, end): (usize, usize) = match self.row_cells(abs) {
                    Some(row) => word_at_cells(row.as_slice(), col),
                    None => (0, 0),
                };
                (Point::new(abs, start), Point::new(abs, end))
            },
            Mode::Line => (Point::new(abs, 0), Point::new(abs, self.cols)),
        }
    }

    /// The text of a selection, one line per row, if it covers any.
    pub fn selected_text(&self, selection: &Selection) -> (out: Option<String>)
        requires
            self.shape_ok(),
        ensures
            match self@.selected_text(*selection) {
                Some(text) => out matches Some(s) && s@ == text,
                None => out is None,
            },
    {
        if selection.is_empty() {
            return None;
        }
        let range = selection.range();
        let (start, end) = range;
        let mut out: Vec<char> = Vec::new();
        if start.row > end.row {
            return None;
        }
        let mut row: usize = start.row;
        loop
            invariant_except_break
                row <= end.row,
                out@ == self@.text_of_rows(range, row - start.row),
            invariant
                self.shape_ok(),
                start == range.0,
                end == range.1,
                start.row <= row,
            ensures
                out@ == self@.text_of_rows(range, height(range)),
            decreases end.row - row,
        {
            let from: usize = if row == start.row { start.col } else { 0 };
            let to: usize = if row == end.row { end.col } else { self.cols };
            let ghost before = out@;
            if let Some(cells) = self.row_cells(row) {
                let text = cut_row(cells.as_slice(), from, to);
                push_chars(&mut out, text.as_slice());
            } else {
                assert(out@ =~= before + Seq::<char>::empty());
            }
            if row == end.row {
                break;
            }
            out.push('\n');
            row = row + 1;
        }
        if out.len() == 0 {
            None
        } else {
            Some(text_from(out.as_slice()))
        }
    }
}

/// The mode that the `streak`th click in one place selects: repeats cycle
/// through character, word and line.
pub fn mode_for_streak(streak: u32) -> (mode: Mode)
    ensures
        mode == mode_of(streak),
{
    match streak % 3 {
        1 => Mode::Char,
        2 => Mode::Word,
        _ => Mode::Line,
    }
}

/// A left press: when it was made, in which pane, and on which row and column.
#[derive(Clone, Copy, PartialEq, Eq, Debug, Structural)]
pub struct Click {
    pub millis: u64,
    pub pane: u64,
    pub row: AbsRow,
    pub col: usize,
}

/// The longest time between two clicks of a double click, in milliseconds.
pub const REPEAT_MILLIS: u64 = 400;

/// Whether a click repeats the one before it: the same cell, soon enough.
pub open spec fn repeats(last: Option<Click>, now: Click) -> bool {
    last matches Some(before) && now.millis - before.millis < REPEAT_MILLIS && before.pane
        == now.pane && before.row == now.row && before.col == now.col
}

/// How many clicks in a row `now` makes, after `streak` of them up to `last`.
/// Counting starts over where it would run out of numbers.
pub fn next_streak(last: Option<Click>, streak: u32, now: Click) -> (next: u32)
    ensures
        next == (if repeats(last, now) && streak < u32::MAX {
            streak + 1
        } else {
            1
        }),
{
    let repeat = match last {
        Some(before) => {
            let soon = now.millis < before.millis || now.millis - before.millis < REPEAT_MILLIS;
            soon && before.pane == now.pane && before.row == now.row && before.col == now.col
        },
        None => false,
    };
    if repeat && streak < u32::MAX { streak + 1 } else { 1 }
}

/// A drag covers the same cells whichever end it was started from.
pub proof fn law_direction_does_not_matter(a: (Point, Point), b: (Point, Point), mode: Mode)
    ensures
        (Selection { anchor: a, head: b, mode }).span() == (Selection {
            anchor: b,
            head: a,
            mode,
        }).span(),
{
}

/// An empty selection covers no cell.
pub proof fn law_empty_covers_nothing(s: Selection, row: int, col: int, cols: int)
    requires
        Selection::nothing_in(s.span()),
    ensures
        !covers(s.span(), row, col, cols),
{
}

/// Both ends of a drag are in what it covers: each cell of the anchor's span
/// and of the head's, where those lie on one row each and on the screen.
pub proof fn law_both_ends_are_covered(s: Selection, a: int, b: int, cols: int)
    requires
        s.anchor.0.row == s.anchor.1.row,
        s.head.0.row == s.head.1.row,
        s.anchor.0.col <= a < s.anchor.1.col <= cols,
        s.head.0.col <= b < s.head.1.col <= cols,
    ensures
        covers(s.span(), s.anchor.0.row as int, a, cols),
        covers(s.span(), s.head.0.row as int, b, cols),
{
}

/// A double click anywhere in a word selects the same word.
pub proof fn law_a_word_is_found_from_any_of_its_columns(
    flags: Seq<bool>,
    a: int,
    b: int,
    start: int,
    end: int,
)
    requires
        is_run(flags, a, start, end),
        start <= b < end,
    ensures
        is_run(flags, b, start, end),
{
}

/// The run around a column is determined by it.
pub proof fn law_a_word_is_unique(
    flags: Seq<bool>,
    col: int,
    start: int,
    end: int,
    start2: int,
    end2: int,
)
    requires
        is_run(flags, col, start, end),
        is_run(flags, col, start2, end2),
    ensures
        start == start2,
        end == end2,
{
    if flags[col] {
        if start < start2 {
            assert(flags[start2 - 1]);
        }
        if start2 < start {
            assert(flags[start - 1]);
        }
        if end < end2 {
            assert(flags[end]);
        }
        if end2 < end {
            assert(flags[end2]);
        }
    }
}

/// No line of copied text ends in a blank.
pub proof fn law_copied_lines_are_trimmed(row: Seq<char>, from: int, to: int)
    ensures
        cut(row, from, to).len() > 0 ==> !text::is_white(cut(row, from, to).last()),
{
    let hi = model::min(to, row.len() as int);
    lemma_trimmed(if from < hi { row.subrange(from, hi) } else { Seq::empty() });
}

proof fn lemma_trimmed(s: Seq<char>)
    ensures
        text::trimmed_end(s).len() > 0 ==> !text::is_white(text::trimmed_end(s).last()),
    decreases s.len(),
{
    if s.len() > 0 && text::is_white(s.last()) {
        lemma_trimmed(s.drop_last());
    }
}

/// Whether the cell in column `col` of `row` lies from `start` on, in reading
/// order, and before `end`, on a screen `cols` wide.
pub open spec fn is_between(start: Point, end: Point, row: int, col: int, cols: int) -> bool {
    &&& start.row < row || (start.row == row && start.col <= col)
    &&& (row < end.row && col < cols) || (row == end.row && col < end.col)
}

/// Whether `start` and `end` are the ends of a selection: the first of its two
/// starts in reading order, and the last of its two ends.
pub open spec fn are_ends(s: Selection, start: Point, end: Point) -> bool {
    &&& start == s.anchor.0 || start == s.head.0
    &&& end == s.anchor.1 || end == s.head.1
    &&& comes_first(start, s.anchor.0) && comes_first(start, s.head.0)
    &&& comes_first(s.anchor.1, end) && comes_first(s.head.1, end)
}

/// Whether `a` is not after `b` in reading order.
pub open spec fn comes_first(a: Point, b: Point) -> bool {
    a.row < b.row || (a.row == b.row && a.col <= b.col)
}

/// A selection covers the cells between its ends in reading order: its first row
/// from where it starts, its last row to where it ends, and all of the rows
/// between.
pub proof fn law_a_selection_covers_what_is_between(
    s: Selection,
    start: Point,
    end: Point,
    row: int,
    col: int,
    cols: int,
)
    requires
        are_ends(s, start, end),
        0 <= col,
    ensures
        covers(s.span(), row, col, cols) == is_between(start, end, row, col, cols),
        Selection::nothing_in(s.span()) == (start.row == end.row && start.col >= end.col),
{
    lemma_ends(s, start, end);
}

proof fn lemma_ends(s: Selection, start: Point, end: Point)
    requires
        are_ends(s, start, end),
    ensures
        s.span() == (start, end),
{
}

/// The row with id `abs`, where the terminal still holds it.
pub open spec fn held_row(g: GridState, abs: int) -> Option<Seq<Cell>> {
    let i = abs - g.trimmed;
    if 0 <= i < g.history.len() {
        Some(g.history[i])
    } else if g.history.len() <= i < g.history.len() + g.rows {
        Some(g.screen[i - g.history.len()])
    } else {
        None
    }
}

/// The characters in the first `n` columns of a row that lie between two points,
/// the second halves of double-width characters left out.
pub open spec fn chosen(
    row: Seq<Cell>,
    n: int,
    start: Point,
    end: Point,
    abs: int,
    cols: int,
) -> Seq<char>
    decreases n,
{
    if n <= 0 {
        Seq::empty()
    } else {
        let before = chosen(row, n - 1, start, end, abs, cols);
        if is_between(start, end, abs, n - 1, cols) && row[n - 1].flags & 16 == 0 {
            before.push(row[n - 1].c)
        } else {
            before
        }
    }
}

/// Whether `line` is `whole` without the white space at its end.
pub open spec fn is_trimmed(whole: Seq<char>, line: Seq<char>) -> bool {
    &&& line.len() <= whole.len()
    &&& line == whole.take(line.len() as int)
    &&& line.len() > 0 ==> !text::is_white(line.last())
    &&& forall|i: int| line.len() <= i < whole.len() ==> text::is_white(#[trigger] whole[i])
}

/// Whether `line` is what row `abs` adds to a copy.
pub open spec fn is_copied_line(
    g: GridState,
    start: Point,
    end: Point,
    abs: int,
    line: Seq<char>,
) -> bool {
    match held_row(g, abs) {
        Some(row) => is_trimmed(
            chosen(row, row.len() as int, start, end, abs, g.cols),
            line,
        ),
        None => line.len() == 0,
    }
}

/// `lines` with a newline between each and the next.
pub open spec fn with_newlines(lines: Seq<Seq<char>>) -> Seq<char>
    decreases lines.len(),
{
    if lines.len() == 0 {
        Seq::empty()
    } else if lines.len() == 1 {
        lines[0]
    } else {
        with_newlines(lines.drop_last()).push('\n') + lines.last()
    }
}

/// What is copied is what is highlighted: for each row from the first to the
/// last, the characters of the cells that the selection covers, without the
/// blanks at the end of the line, and a newline between one row and the next.
/// Where that comes to nothing, nothing is copied.
pub proof fn law_what_is_highlighted_is_copied(
    g: GridState,
    s: Selection,
    start: Point,
    end: Point,
    lines: Seq<Seq<char>>,
)
    requires
        are_ends(s, start, end),
        start.row <= end.row,
        lines.len() == end.row - start.row + 1,
        forall|k: int|
            0 <= k < lines.len() ==> is_copied_line(
                g,
                start,
                end,
                start.row + k,
                #[trigger] lines[k],
            ),
    ensures
        g.selected_text(s) == (if with_newlines(lines).len() == 0 || (start.row == end.row
            && start.col >= end.col) {
            None
        } else {
            Some(with_newlines(lines))
        }),
{
    lemma_ends(s, start, end);
    lemma_rows_are_lines(g, start, end, lines, lines.len() as int);
    assert(lines.take(lines.len() as int) =~= lines);
}

proof fn lemma_rows_are_lines(
    g: GridState,
    start: Point,
    end: Point,
    lines: Seq<Seq<char>>,
    n: int,
)
    requires
        start.row <= end.row,
        lines.len() == end.row - start.row + 1,
        1 <= n <= lines.len(),
        forall|k: int|
            0 <= k < lines.len() ==> is_copied_line(
                g,
                start,
                end,
                start.row + k,
                #[trigger] lines[k],
            ),
    ensures
        g.text_of_rows((start, end), n) == (if n == lines.len() {
            with_newlines(lines.take(n))
        } else {
            with_newlines(lines.take(n)).push('\n')
        }),
    decreases n,
{
    let range = (start, end);
    let row = start.row + n - 1;
    let (from, to) = columns_in(range, row, g.cols);
    let line = lines[n - 1];
    assert(is_copied_line(g, start, end, row, line));
    let text = match g.row_cells(row) {
        Some(cells) => cut_cells(cells, from, to),
        None => Seq::empty(),
    };
    assert(text =~= line) by {
        if let Some(cells) = held_row(g, row) {
            lemma_cut_is_chosen(cells, start, end, row, g.cols);
            let whole = chosen(cells, cells.len() as int, start, end, row, g.cols);
            lemma_trimmed_unique(whole, line);
        }
    }
    let some = lines.take(n);
    assert(some.last() == line);
    if n > 1 {
        lemma_rows_are_lines(g, start, end, lines, n - 1);
        assert(some.drop_last() =~= lines.take(n - 1));
    } else {
        assert(g.text_of_rows(range, 0) + text =~= text);
        assert(some[0] == line);
    }
}

/// Only one text is another without the white space at its end.
proof fn lemma_trimmed_unique(whole: Seq<char>, line: Seq<char>)
    requires
        is_trimmed(whole, line),
    ensures
        text::trimmed_end(whole) == line,
{
    text::law_trimming_the_end(whole);
    let t = text::trimmed_end(whole);
    if t.len() < line.len() {
        assert(text::is_white(whole[line.len() - 1]));
        assert(line.last() == whole[line.len() - 1]);
    } else if line.len() < t.len() {
        assert(text::is_white(whole[t.len() - 1]));
        assert(t.last() == whole[t.len() - 1]);
    }
}

/// Cutting a row at the columns of a range picks the cells between its ends.
proof fn lemma_cut_is_chosen(row: Seq<Cell>, start: Point, end: Point, abs: int, cols: int)
    requires
        start.row <= abs <= end.row,
    ensures
        ({
            let (from, to) = columns_in((start, end), abs, cols);
            cut_cells(row_says_cells(row), from, to) == text::trimmed_end(
                chosen(row, row.len() as int, start, end, abs, cols),
            )
        }),
{
    let (from, to) = columns_in((start, end), abs, cols);
    let says = row_says_cells(row);
    let hi = model::min(to, row.len() as int);
    let part = if from < hi { says.subrange(from, hi) } else { Seq::empty() };
    if from < hi {
        lemma_chosen_outside(row, start, end, abs, cols, from);
        lemma_chosen_inside(row, start, end, abs, cols, from, hi, hi);
        assert(says.subrange(from, hi) =~= part);
        lemma_chosen_after(row, start, end, abs, cols, hi, row.len() as int);
    } else {
        lemma_chosen_none(row, start, end, abs, cols, row.len() as int);
    }
}

proof fn lemma_chosen_none(
    row: Seq<Cell>,
    start: Point,
    end: Point,
    abs: int,
    cols: int,
    n: int,
)
    requires
        start.row <= abs <= end.row,
        n <= row.len(),
        columns_in((start, end), abs, cols).0 >= model::min(
            columns_in((start, end), abs, cols).1,
            row.len() as int,
        ),
    ensures
        chosen(row, n, start, end, abs, cols) =~= Seq::<char>::empty(),
    decreases n,
{
    if n > 0 {
        lemma_chosen_none(row, start, end, abs, cols, n - 1);
    }
}

proof fn lemma_chosen_outside(
    row: Seq<Cell>,
    start: Point,
    end: Point,
    abs: int,
    cols: int,
    n: int,
)
    requires
        start.row <= abs <= end.row,
        n <= columns_in((start, end), abs, cols).0,
    ensures
        chosen(row, n, start, end, abs, cols) =~= Seq::<char>::empty(),
    decreases n,
{
    if n > 0 {
        lemma_chosen_outside(row, start, end, abs, cols, n - 1);
    }
}

proof fn lemma_chosen_inside(
    row: Seq<Cell>,
    start: Point,
    end: Point,
    abs: int,
    cols: int,
    from: int,
    hi: int,
    n: int,
)
    requires
        start.row <= abs <= end.row,
        from == columns_in((start, end), abs, cols).0,
        hi == model::min(columns_in((start, end), abs, cols).1, row.len() as int),
        from <= n <= hi,
    ensures
        chosen(row, n, start, end, abs, cols) == said(row_says_cells(row).subrange(from, n)),
    decreases n,
{
    let part = row_says_cells(row).subrange(from, n);
    if n > from {
        lemma_chosen_inside(row, start, end, abs, cols, from, hi, n - 1);
        assert(part.drop_last() =~= row_says_cells(row).subrange(from, n - 1));
        assert(part.last() == cell_says(row[n - 1]));
    } else {
        lemma_chosen_outside(row, start, end, abs, cols, n);
        assert(part =~= Seq::<Option<char>>::empty());
        assert(said(part) =~= Seq::<char>::empty());
    }
}

proof fn lemma_chosen_after(
    row: Seq<Cell>,
    start: Point,
    end: Point,
    abs: int,
    cols: int,
    hi: int,
    n: int,
)
    requires
        start.row <= abs <= end.row,
        0 <= hi == model::min(columns_in((start, end), abs, cols).1, row.len() as int),
        hi <= n <= row.len(),
    ensures
        chosen(row, n, start, end, abs, cols) == chosen(row, hi, start, end, abs, cols),
    decreases n,
{
    if n > hi {
        lemma_chosen_after(row, start, end, abs, cols, hi, n - 1);
    }
}

/// As above for what [`extract`] joins: each line is a stretch of its row, from
/// column zero on in every row but the first and up to the last column in every
/// row but the last, without the white space at its end.
pub proof fn law_extracted_lines(
    range: (Point, Point),
    cols: int,
    rows: Seq<Option<Seq<char>>>,
    lines: Seq<Seq<char>>,
)
    requires
        range.0.row <= range.1.row,
        0 <= cols,
        rows.len() == range.1.row - range.0.row + 1,
        lines.len() == rows.len(),
        forall|k: int|
            0 <= k < lines.len() ==> match rows[k] {
                Some(row) => {
                    let lo = if k == 0 { range.0.col as int } else { 0 };
                    let to = if k == lines.len() - 1 { range.1.col as int } else { cols };
                    let hi = if to < row.len() { to } else { row.len() as int };
                    is_trimmed(
                        if lo < hi { row.subrange(lo, hi) } else { Seq::empty() },
                        #[trigger] lines[k],
                    )
                },
                None => lines[k].len() == 0,
            },
    ensures
        joined_lines(range, cols, rows, rows.len() as int) == with_newlines(lines),
{
    lemma_joined(range, cols, rows, lines, lines.len() as int);
    assert(lines.take(lines.len() as int) =~= lines);
}

proof fn lemma_joined(
    range: (Point, Point),
    cols: int,
    rows: Seq<Option<Seq<char>>>,
    lines: Seq<Seq<char>>,
    n: int,
)
    requires
        range.0.row <= range.1.row,
        0 <= cols,
        rows.len() == range.1.row - range.0.row + 1,
        lines.len() == rows.len(),
        1 <= n <= lines.len(),
        forall|k: int|
            0 <= k < lines.len() ==> match rows[k] {
                Some(row) => {
                    let lo = if k == 0 { range.0.col as int } else { 0 };
                    let to = if k == lines.len() - 1 { range.1.col as int } else { cols };
                    let hi = if to < row.len() { to } else { row.len() as int };
                    is_trimmed(
                        if lo < hi { row.subrange(lo, hi) } else { Seq::empty() },
                        #[trigger] lines[k],
                    )
                },
                None => lines[k].len() == 0,
            },
    ensures
        joined_lines(range, cols, rows, n) == (if n == lines.len() {
            with_newlines(lines.take(n))
        } else {
            with_newlines(lines.take(n)).push('\n')
        }),
    decreases n,
{
    let line = lines[n - 1];
    let row = range.0.row + n - 1;
    let (from, to) = columns_in(range, row, cols);
    let text = match rows[n - 1] {
        Some(held) => cut(held, from, to),
        None => Seq::empty(),
    };
    assert(text =~= line) by {
        if let Some(held) = rows[n - 1] {
            let hi = model::min(to, held.len() as int);
            lemma_trimmed_unique(if from < hi { held.subrange(from, hi) } else { Seq::empty() }, line);
        }
    }
    let some = lines.take(n);
    assert(some.last() == line);
    if n > 1 {
        lemma_joined(range, cols, rows, lines, n - 1);
        assert(some.drop_last() =~= lines.take(n - 1));
    } else {
        assert(joined_lines(range, cols, rows, 0) + text =~= text);
        assert(some[0] == line);
    }
}

/// Letters and digits of any script make up words, and so do the characters that
/// hold paths and addresses together; nothing else does.
pub proof fn law_what_words_are_made_of(c: char)
    ensures
        in_word(c) == (text::alphanumeric(c) || seq![
            '_', '-', '.', '/', ':', '~', '@', '+', '=', '%',
        ].contains(c)),
{
    let others = seq!['_', '-', '.', '/', ':', '~', '@', '+', '=', '%'];
    if in_word(c) && !text::alphanumeric(c) {
        assert(others[0] == '_' && others[1] == '-' && others[2] == '.' && others[3] == '/');
        assert(others[4] == ':' && others[5] == '~' && others[6] == '@' && others[7] == '+');
        assert(others[8] == '=' && others[9] == '%');
        assert(others.contains(c));
    }
    if others.contains(c) {
        let i = choose|i: int| 0 <= i < others.len() && others[i] == c;
        assert(in_word(others[i]));
    }
}

/// A double click selects the word under it, all of it and nothing else: every
/// column of it is part of a word, a neighbour that is too belongs to it, and a
/// column that is not part of a word stands alone.
pub proof fn law_a_word_is_all_of_it(flags: Seq<bool>, col: int, start: int, end: int, x: int)
    requires
        is_run(flags, col, start, end),
    ensures
        start <= col < end,
        !flags[col] ==> end == start + 1,
        flags[col] && start <= x < end ==> flags[x],
        flags[col] && start <= x < end && 0 < x && flags[x - 1] ==> start <= x - 1,
        flags[col] && start <= x < end && x + 1 < flags.len() && flags[x + 1] ==> x + 1 < end,
{
}

/// The second half of a double-width character goes with the first.
pub proof fn law_spacers_go_with_their_character(row: Seq<Option<char>>, i: int)
    requires
        0 <= i < row.len(),
    ensures
        covering(row).len() == row.len(),
        row[i] matches Some(c) ==> covering(row)[i] == c,
        row[i] is None && i > 0 ==> covering(row)[i] == covering(row)[i - 1],
        row[0] is None ==> covering(row)[0] == ' ',
{
    reveal_with_fuel(head_of, 2);
    lemma_head(row, i);
}

/// One click selects nothing yet, a double click a word and a triple click the
/// whole line it is on: every column of that row, and no other row.
pub proof fn law_a_triple_click_selects_the_line(
    row: Seq<Option<char>>,
    abs: AbsRow,
    col: usize,
    cols: usize,
    span: (Point, Point),
    y: int,
    x: int,
)
    requires
        is_span_for(row, abs, col, cols, Mode::Line, span),
        0 <= x,
    ensures
        covers((Selection { anchor: span, head: span, mode: Mode::Line }).span(), y, x, cols as int)
            == (y == abs && x < cols),
{
}

/// A double click covers the columns of the word under it, on that row alone.
pub proof fn law_a_double_click_selects_the_word(
    row: Seq<Option<char>>,
    abs: AbsRow,
    col: usize,
    cols: usize,
    span: (Point, Point),
    y: int,
    x: int,
)
    requires
        is_span_for(row, abs, col, cols, Mode::Word, span),
        col < row.len(),
        0 <= x,
    ensures
        is_run(word_flags(covering(row)), col as int, span.0.col as int, span.1.col as int),
        covers((Selection { anchor: span, head: span, mode: Mode::Word }).span(), y, x, cols as int)
            == (y == abs && span.0.col <= x < span.1.col),
{
}

/// A plain drag covers the cells from the one where it started, up to the one
/// where it is, and a click that never moved covers none.
pub proof fn law_a_drag_selects_what_it_passes(
    row: Seq<Option<char>>,
    other: Seq<Option<char>>,
    a: Point,
    b: Point,
    cols: usize,
    from: (Point, Point),
    to: (Point, Point),
    y: int,
    x: int,
)
    requires
        is_span_for(row, a.row, a.col, cols, Mode::Char, from),
        is_span_for(other, b.row, b.col, cols, Mode::Char, to),
        a.row < b.row || (a.row == b.row && a.col <= b.col),
        0 <= x,
    ensures
        covers((Selection { anchor: from, head: to, mode: Mode::Char }).span(), y, x, cols as int)
            == is_between(a, b, y, x, cols as int),
{
}

/// What the `streak`th click in one place selects.
pub open spec fn mode_of(streak: u32) -> Mode {
    if streak % 3 == 1 {
        Mode::Char
    } else if streak % 3 == 2 {
        Mode::Word
    } else {
        Mode::Line
    }
}

/// One click is by character, two by word, three by line, and a fourth starts
/// over.
pub proof fn law_clicks_go_round(k: u32)
    requires
        k < 0x1000_0000,
    ensures
        mode_of((3 * k + 1) as u32) == Mode::Char,
        mode_of((3 * k + 2) as u32) == Mode::Word,
        mode_of((3 * k + 3) as u32) == Mode::Line,
{
}

/// A click in the same cell of the same pane within 400 milliseconds repeats the
/// one before, and no other click does.
pub proof fn law_what_a_repeat_is(before: Click, now: Click)
    ensures
        repeats(Some(before), now) == (now.millis < before.millis + 400 && now.pane == before.pane
            && now.row == before.row && now.col == before.col),
        !repeats(None, now),
{
}

} // verus!
