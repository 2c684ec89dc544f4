//! Text the input method is still composing.

use crate::model;
use crate::pane::PaneId;
use crate::text::chars_of;
use crate::width::{self, columns_for, width_of};
use vstd::prelude::*;

verus! {

/// Text the IME is still composing. It belongs to the terminal, not the shell:
/// nothing is written to the pty until the IME commits it.
pub struct Preedit {
    pub text: String,
    /// Byte range within `text` that the IME marks as the active segment.
    /// `None` means the IME wants no cursor shown.
    pub target: Option<(usize, usize)>,
    /// Pane the composition belongs to. The OS keeps its marked text when
    /// focus moves between our panes, having no idea they exist, so the
    /// composition has to remember where it started, or a later commit would
    /// land in whichever pane happens to be focused.
    ///
    /// Deliberately outlives an empty `text`: an empty preedit is sent
    /// immediately before the commit, and clearing the owner there would
    /// orphan it. So a cancelled composition also leaves a stale owner behind,
    /// which is harmless, because only `commit` reads it and the next
    /// composition rebinds it first.
    pub owner: Option<PaneId>,
}

/// A [`Preedit`] by its contents.
pub struct PreeditState {
    pub text: Seq<char>,
    pub target: Option<(usize, usize)>,
    pub owner: Option<PaneId>,
}

impl View for Preedit {
    type V = PreeditState;

    open spec fn view(&self) -> PreeditState {
        PreeditState { text: self.text@, target: self.target, owner: self.owner }
    }
}

impl PreeditState {
    /// Nothing composed, for no pane.
    pub open spec fn none() -> PreeditState {
        PreeditState { text: Seq::empty(), target: None, owner: None }
    }

    pub open spec fn is_active(self) -> bool {
        self.text.len() > 0
    }

    /// A new state of the composing text. A composition that is starting binds
    /// to `focus`; one in flight keeps its owner.
    pub open spec fn update(
        self,
        text: Seq<char>,
        target: Option<(usize, usize)>,
        focus: PaneId,
    ) -> PreeditState {
        PreeditState {
            text,
            target,
            owner: if !self.is_active() && text.len() > 0 { Some(focus) } else { self.owner },
        }
    }

    /// The pane that composing text belongs to: its owner, or `focus` when
    /// nothing is being composed. A cancelled composition's owner is stale.
    pub open spec fn composing_pane(self, focus: PaneId) -> PaneId {
        if self.is_active() { self.receiver(focus) } else { focus }
    }

    /// The pane that a commit goes to.
    pub open spec fn receiver(self, fallback: PaneId) -> PaneId {
        match self.owner {
            Some(owner) => owner,
            None => fallback,
        }
    }
}

impl Default for Preedit {
    fn default() -> (p: Self)
        ensures
            p@ == PreeditState::none(),
    {
        Preedit { text: String::new(), target: None, owner: None }
    }
}

impl Preedit {
    pub fn is_active(&self) -> (active: bool)
        ensures
            active == self@.is_active(),
    {
        !self.text.as_str().is_empty()
    }

    /// Applies an update of the composing text. A composition that is
    /// *starting* binds to `focus`; one already in flight keeps its owner,
    /// which matters because an empty preedit is sent immediately before the
    /// commit, and that must not orphan it.
    pub fn update(&mut self, text: String, target: Option<(usize, usize)>, focus: PaneId)
        ensures
            final(self)@ == old(self)@.update(text@, target, focus),
    {
        if !self.is_active() && !text.as_str().is_empty() {
            self.owner = Some(focus);
        }
        self.text = text;
        self.target = target;
    }

    /// Consumes the composition, returning the pane the text belongs to.
    pub fn commit(&mut self, fallback: PaneId) -> (owner: PaneId)
        ensures
            owner == old(self)@.receiver(fallback),
            final(self)@ == PreeditState::none(),
    {
        let owner: PaneId = match self.owner {
            Some(owner) => owner,
            None => fallback,
        };
        self.clear();
        owner
    }

    pub fn clear(&mut self)
        ensures
            final(self)@ == PreeditState::none(),
    {
        self.text = String::new();
        self.target = None;
        self.owner = None;
    }

    /// The pane a composition belongs to: its owner, or the focused pane when
    /// nothing is being composed.
    pub fn composing_pane(&self, focus: PaneId) -> (pane: PaneId)
        ensures
            pane == self@.composing_pane(focus),
    {
        if !self.is_active() {
            return focus;
        }
        match self.owner {
            Some(owner) => owner,
            None => focus,
        }
    }

    /// Abandons a composition whose pane is going away; otherwise it would
    /// render nowhere and commit into a dead pty. Returns whether it did.
    pub fn drop_composition_of(&mut self, id: PaneId) -> (dropped: bool)
        ensures
            dropped == (old(self)@.owner == Some(id)),
            final(self)@ == (if dropped {
                PreeditState::none()
            } else {
                old(self)@
            }),
    {
        let ours = match self.owner {
            Some(owner) => owner == id,
            None => false,
        };
        if ours {
            self.clear();
        }
        ours
    }
}

/// What the input method tells us.
pub enum ImeEvent {
    Enabled,
    /// The composing text, and the byte range of its active segment.
    Preedit(String, Option<(usize, usize)>),
    /// The text that came of composing.
    Commit(String),
    Disabled,
}

/// What an event of the input method asks for.
pub enum ImeAction {
    /// Tell the input method where the caret is.
    Anchor,
    /// The composing text changed: bring the viewport of this pane, if any,
    /// back to the live screen, tell the input method where the caret is, and
    /// draw.
    Compose(Option<PaneId>),
    /// Write the text to this pane, and bring its viewport back to the live
    /// screen. Then as for a change.
    Deliver(PaneId, String),
    /// Draw.
    Redraw,
}

impl Preedit {
    /// Takes in an event of the input method.
    ///
    /// Composing is input, so it leaves the scrollback the way typing does;
    /// otherwise the text would be drawn on top of history. Only a real
    /// composition does: an empty one also arrives when the input method is
    /// dismissed, and yanking the view back then would look unprovoked.
    pub fn handle(&mut self, event: ImeEvent, focus: PaneId) -> (action: ImeAction)
        ensures
            match event {
                ImeEvent::Enabled => action is Anchor && final(self)@ == old(self)@,
                ImeEvent::Preedit(text, target) => {
                    let next = old(self)@.update(text@, target, focus);
                    &&& final(self)@ == next
                    &&& action matches ImeAction::Compose(pane)
                    &&& pane == (if next.is_active() {
                        Some(next.composing_pane(focus))
                    } else {
                        None
                    })
                },
                ImeEvent::Commit(text) => {
                    &&& final(self)@ == PreeditState::none()
                    &&& action matches ImeAction::Deliver(pane, sent)
                    &&& pane == old(self)@.receiver(focus)
                    &&& sent@ == text@
                },
                ImeEvent::Disabled => action is Redraw && final(self)@ == PreeditState::none(),
            },
    {
        match event {
            ImeEvent::Enabled => ImeAction::Anchor,
            ImeEvent::Preedit(text, target) => {
                self.update(text, target, focus);
                if self.is_active() {
                    ImeAction::Compose(Some(self.composing_pane(focus)))
                } else {
                    ImeAction::Compose(None)
                }
            },
            // Composition finished: only now does the shell hear about it, and
            // it goes to the pane it was composed in.
            ImeEvent::Commit(text) => ImeAction::Deliver(self.commit(focus), text),
            ImeEvent::Disabled => {
                self.clear();
                ImeAction::Redraw
            },
        }
    }
}

/// One composed character placed on the grid.
#[derive(Clone, Copy, Debug, PartialEq, Eq, Structural)]
pub struct PreeditCell {
    pub col: usize,
    pub row: usize,
    pub c: char,
    /// Columns occupied: 2 for full-width characters.
    pub width: usize,
    /// Inside the IME's active segment, which is drawn more prominently.
    pub active: bool,
}

/// How many bytes `c` takes in UTF-8.
pub open spec fn utf8_len(c: char) -> int {
    if (c as int) < 0x80 {
        1
    } else if (c as int) < 0x800 {
        2
    } else if (c as int) < 0x1_0000 {
        3
    } else {
        4
    }
}

/// The byte offset of character `i` of `text`.
pub open spec fn offset_of(text: Seq<char>, i: int) -> int
    decreases i,
{
    if i <= 0 { 0 } else { offset_of(text, i - 1) + utf8_len(text[i - 1]) }
}

/// Whether the byte at `offset` lies in the active segment.
pub open spec fn in_target(target: Option<(usize, usize)>, offset: int) -> bool {
    target matches Some(t) && t.0 <= offset < t.1
}

/// Characters `i` and after of `text` placed from `(col, row)` on, wrapping
/// within `cols` and stopping at `rows`. A character wraps as a unit rather
/// than being split across the edge; line breaks take no place.
pub open spec fn placed_from(
    text: Seq<char>,
    widths: Seq<usize>,
    target: Option<(usize, usize)>,
    i: int,
    col: int,
    row: int,
    cols: int,
    rows: int,
) -> Seq<PreeditCell>
    decreases text.len() - i,
{
    if i < 0 || i >= text.len() {
        Seq::empty()
    } else if text[i] == '\n' || text[i] == '\r' {
        placed_from(text, widths, target, i + 1, col, row, cols, rows)
    } else {
        let w = widths[i] as int;
        let (x, y) = if col + w > cols { (0int, row + 1) } else { (col, row) };
        if y >= rows {
            Seq::empty()
        } else {
            let here = PreeditCell {
                col: x as usize,
                row: y as usize,
                c: text[i],
                width: widths[i],
                active: in_target(target, offset_of(text, i)),
            };
            seq![here] + placed_from(text, widths, target, i + 1, x + w, y, cols, rows)
        }
    }
}

/// Where each character of composing text goes, `start` being the caret's
/// column and row.
pub open spec fn placed(
    text: Seq<char>,
    widths: Seq<usize>,
    target: Option<(usize, usize)>,
    start: (usize, usize),
    cols: int,
    rows: int,
) -> Seq<PreeditCell> {
    if cols == 0 || rows == 0 {
        Seq::empty()
    } else {
        placed_from(
            text,
            widths,
            target,
            0,
            model::min(start.0 as int, cols - 1),
            start.1 as int,
            cols,
            rows,
        )
    }
}

/// The columns that each character of `text` takes.
pub open spec fn widths_of(text: Seq<char>) -> Seq<usize> {
    Seq::new(text.len(), |i: int| width::columns(text[i]) as usize)
}

/// Whether the printable ASCII characters of `text` take one column each.
pub open spec fn ascii_is_narrow(text: Seq<char>) -> bool {
    forall|i: int|
        0 <= i < text.len() && ' ' <= text[i] <= '~' ==> width::columns(#[trigger] text[i]) == 1
}

fn utf8_length(c: char) -> (n: usize)
    ensures
        n == utf8_len(c),
{
    let u: u32 = c as u32;
    if u < 0x80 {
        1
    } else if u < 0x800 {
        2
    } else if u < 0x1_0000 {
        3
    } else {
        4
    }
}

/// Moving the first item of a sequence to the end of the one before it.
proof fn lemma_cons(
    head: Seq<PreeditCell>,
    item: PreeditCell,
    rest: Seq<PreeditCell>,
    tail: Seq<PreeditCell>,
)
    requires
        tail == seq![item] + rest,
    ensures
        head.push(item) + rest == head + tail,
{
    assert(head.push(item) + rest =~= head + tail);
}

proof fn lemma_place_one(
    text: Seq<char>,
    widths: Seq<usize>,
    target: Option<(usize, usize)>,
    i: int,
    col: int,
    row: int,
    cols: int,
    rows: int,
    here: PreeditCell,
)
    requires
        0 <= i < text.len(),
        text[i] != '\n',
        text[i] != '\r',
        0 <= col,
        0 <= row,
        here.c == text[i],
        here.width == widths[i],
        here.active == in_target(target, offset_of(text, i)),
        if col + widths[i] > cols {
            here.col == 0 && here.row == row + 1
        } else {
            here.col == col && here.row == row
        },
        here.row < rows,
    ensures
        placed_from(text, widths, target, i, col, row, cols, rows) == seq![here] + placed_from(
            text,
            widths,
            target,
            i + 1,
            here.col + here.width,
            here.row as int,
            cols,
            rows,
        ),
{
}

/// Places characters of the given widths on the grid starting at `start`,
/// wrapping within `cols` and stopping at `rows`.
pub fn layout_cells(
    text: &[char],
    widths: &[usize],
    target: Option<(usize, usize)>,
    start: (usize, usize),
    cols: usize,
    rows: usize,
) -> (out: Vec<PreeditCell>)
    requires
        text@.len() == widths@.len(),
    ensures
        out@ == placed(text@, widths@, target, start, cols as int, rows as int),
{
    let mut out: Vec<PreeditCell> = Vec::new();
    if cols == 0 || rows == 0 {
        return out;
    }
    let mut col: usize = if start.0 < cols - 1 { start.0 } else { cols - 1 };
    let mut row: usize = start.1;
    let mut offset: usize = 0;
    let ghost whole = placed(text@, widths@, target, start, cols as int, rows as int);
    let mut i: usize = 0;
    assert(out@ + whole =~= whole);
    while i < text.len()
        invariant
            i <= text@.len(),
            text@.len() == widths@.len(),
            0 < cols,
            0 < rows,
            offset == model::min(offset_of(text@, i as int), usize::MAX as int),
            out@ + placed_from(
                text@,
                widths@,
                target,
                i as int,
                col as int,
                row as int,
                cols as int,
                rows as int,
            ) == whole,
            whole == placed(text@, widths@, target, start, cols as int, rows as int),
        decreases text.len() - i,
    {
        let c: char = text[i];
        let byte: usize = offset;
        let ghost tail = placed_from(
            text@,
            widths@,
            target,
            i as int,
            col as int,
            row as int,
            cols as int,
            rows as int,
        );
        let len: usize = utf8_length(c);
        offset = if len < usize::MAX - offset { offset + len } else { usize::MAX };
        i = i + 1;
        if c == '\n' || c == '\r' {
            continue;
        }
        let width: usize = widths[i - 1];
        let ghost before = out@;
        let ghost was = (col, row);
        if row >= rows {
            assert(out@ =~= whole);
            return out;
        }
        if col > cols || width > cols - col {
            col = 0;
            row = row + 1;
        }
        if row >= rows {
            assert(out@ =~= whole);
            return out;
        }
        let active = match target {
            Some((t0, t1)) => byte >= t0 && byte < t1,
            None => false,
        };
        let here = PreeditCell { col, row, c, width, active };
        out.push(here);
        col = col + width;
        proof {
            let rest = placed_from(
                text@,
                widths@,
                target,
                i as int,
                col as int,
                row as int,
                cols as int,
                rows as int,
            );
            lemma_place_one(
                text@,
                widths@,
                target,
                i - 1,
                was.0 as int,
                was.1 as int,
                cols as int,
                rows as int,
                here,
            );
            lemma_cons(before, here, rest, tail);
        }
    }
    assert(out@ + Seq::<PreeditCell>::empty() =~= out@);
    out
}

/// Places composing text on the grid starting at `start`, wrapping within
/// `cols` and stopping at `rows`. Full-width characters take two columns and
/// wrap as a unit rather than being split across the edge.
pub fn layout_preedit(
    text: &str,
    target: Option<(usize, usize)>,
    start: (usize, usize),
    cols: usize,
    rows: usize,
) -> (out: Vec<PreeditCell>)
    ensures
        out@ == placed(text@, widths_of(text@), target, start, cols as int, rows as int),
        ascii_is_narrow(text@),
{
    let chars = chars_of(text);
    let mut widths: Vec<usize> = Vec::new();
    let mut i: usize = 0;
    while i < chars.len()
        invariant
            i <= chars@.len(),
            widths@ =~= widths_of(chars@).take(i as int),
            ascii_is_narrow(chars@.take(i as int)),
        decreases chars.len() - i,
    {
        widths.push(columns_for(width_of(chars[i])));
        i = i + 1;
    }
    assert(widths@ =~= widths_of(text@));
    assert(chars@.take(i as int) =~= text@);
    layout_cells(chars.as_slice(), widths.as_slice(), target, start, cols, rows)
}

/// Where the caret sits after `cells`.
pub open spec fn caret_after(cells: Seq<PreeditCell>, start: (usize, usize), cols: int) -> (
    int,
    int,
) {
    if cells.len() == 0 {
        (start.0 as int, start.1 as int)
    } else {
        let last = cells.last();
        if last.col + last.width >= cols {
            (0, last.row + 1)
        } else {
            (last.col + last.width, last.row as int)
        }
    }
}

/// Where the caret sits after `cells`, for drawing and for telling the IME
/// where to put its candidate window.
pub fn preedit_caret(cells: &[PreeditCell], start: (usize, usize), cols: usize) -> (caret: (
    usize,
    usize,
))
    requires
        cells@.len() > 0 ==> cells@.last().row < usize::MAX,
    ensures
        caret.0 == caret_after(cells@, start, cols as int).0,
        caret.1 == caret_after(cells@, start, cols as int).1,
{
    if cells.len() == 0 {
        return start;
    }
    let last = cells[cells.len() - 1];
    if last.col >= cols || last.width >= cols - last.col {
        (0, last.row + 1)
    } else {
        (last.col + last.width, last.row)
    }
}

/// The widths of characters are at least one column each.
proof fn lemma_widths(text: Seq<char>)
    ensures
        widths_of(text).len() == text.len(),
        forall|i: int| 0 <= i < text.len() ==> widths_of(text)[i] >= 1,
{
}

/// Every character of composing text is on one of the pane's rows.
pub proof fn lemma_rows_are_inside(
    text: Seq<char>,
    widths: Seq<usize>,
    target: Option<(usize, usize)>,
    start: (usize, usize),
    cols: int,
    rows: int,
    k: int,
)
    requires
        widths == widths_of(text),
        0 <= cols <= usize::MAX,
        0 <= rows <= usize::MAX,
        0 <= k < placed(text, widths, target, start, cols, rows).len(),
    ensures
        placed(text, widths, target, start, cols, rows)[k].row < rows,
{
    lemma_widths(text);
    law_composition_stays_in_the_pane(text, widths, target, start, cols, rows, k);
}

/// Composing text never leaves the pane: every character is on one of its
/// rows, and starts in one of its columns.
pub proof fn law_composition_stays_in_the_pane(
    text: Seq<char>,
    widths: Seq<usize>,
    target: Option<(usize, usize)>,
    start: (usize, usize),
    cols: int,
    rows: int,
    k: int,
)
    requires
        text.len() == widths.len(),
        forall|i: int| 0 <= i < widths.len() ==> widths[i] >= 1,
        0 <= cols <= usize::MAX,
        0 <= rows <= usize::MAX,
        0 <= k < placed(text, widths, target, start, cols, rows).len(),
    ensures
        ({
            let cell = placed(text, widths, target, start, cols, rows)[k];
            cell.row < rows && cell.col < cols && (cell.col == 0 || cell.col + cell.width <= cols)
        }),
{
    lemma_placed_inside(
        text,
        widths,
        target,
        0,
        model::min(start.0 as int, cols - 1),
        start.1 as int,
        cols,
        rows,
        k,
    );
}

/// What a sequence with one more item at the front holds.
proof fn lemma_front(item: PreeditCell, rest: Seq<PreeditCell>, k: int)
    ensures
        (seq![item] + rest).len() == 1 + rest.len(),
        (seq![item] + rest)[0] == item,
        0 < k <= rest.len() ==> (seq![item] + rest)[k] == rest[k - 1],
{
}

proof fn lemma_placed_inside(
    text: Seq<char>,
    widths: Seq<usize>,
    target: Option<(usize, usize)>,
    i: int,
    col: int,
    row: int,
    cols: int,
    rows: int,
    k: int,
)
    requires
        text.len() == widths.len(),
        forall|i: int| 0 <= i < widths.len() ==> widths[i] >= 1,
        0 < cols <= usize::MAX,
        0 < rows <= usize::MAX,
        0 <= i,
        0 <= col <= usize::MAX,
        0 <= row,
        0 <= k < placed_from(text, widths, target, i, col, row, cols, rows).len(),
    ensures
        ({
            let cell = placed_from(text, widths, target, i, col, row, cols, rows)[k];
            cell.row < rows && cell.col < cols && (cell.col == 0 || cell.col + cell.width <= cols)
        }),
    decreases text.len() - i, 1int,
{
    if text[i] == '\n' || text[i] == '\r' {
        lemma_placed_inside(text, widths, target, i + 1, col, row, cols, rows, k);
    } else {
        let w = widths[i] as int;
        let (x, y) = if col + w > cols { (0int, row + 1) } else { (col, row) };
        let here = PreeditCell {
            col: x as usize,
            row: y as usize,
            c: text[i],
            width: widths[i],
            active: in_target(target, offset_of(text, i)),
        };
        assert(y < rows);
        lemma_placed_after(text, widths, target, i, col, row, cols, rows, k, here);
    }
}

/// The step of [`lemma_placed_inside`] at a character that is placed.
proof fn lemma_placed_after(
    text: Seq<char>,
    widths: Seq<usize>,
    target: Option<(usize, usize)>,
    i: int,
    col: int,
    row: int,
    cols: int,
    rows: int,
    k: int,
    here: PreeditCell,
)
    requires
        text.len() == widths.len(),
        forall|i: int| 0 <= i < widths.len() ==> widths[i] >= 1,
        0 < cols <= usize::MAX,
        0 < rows <= usize::MAX,
        0 <= i < text.len(),
        text[i] != '\n',
        text[i] != '\r',
        0 <= col <= usize::MAX,
        0 <= row,
        0 <= k < placed_from(text, widths, target, i, col, row, cols, rows).len(),
        here.c == text[i],
        here.width == widths[i],
        here.active == in_target(target, offset_of(text, i)),
        if col + widths[i] > cols {
            here.col == 0 && here.row == row + 1
        } else {
            here.col == col && here.row == row
        },
        here.row < rows,
    ensures
        ({
            let cell = placed_from(text, widths, target, i, col, row, cols, rows)[k];
            cell.row < rows && cell.col < cols && (cell.col == 0 || cell.col + cell.width <= cols)
        }),
    decreases text.len() - i, 0int,
{
    lemma_place_one(text, widths, target, i, col, row, cols, rows, here);
    let next = here.col + here.width;
    let rest = placed_from(text, widths, target, i + 1, next, here.row as int, cols, rows);
    lemma_front(here, rest, k);
    if k > 0 {
        lemma_placed_inside(
            text,
            widths,
            target,
            i + 1,
            next,
            here.row as int,
            cols,
            rows,
            k - 1,
        );
    }
}

/// The caret after a composition is at most one row past the pane, and never
/// past the last column.
pub proof fn law_caret_is_at_most_one_row_past_the_pane(
    text: Seq<char>,
    widths: Seq<usize>,
    target: Option<(usize, usize)>,
    start: (usize, usize),
    cols: int,
    rows: int,
)
    requires
        text.len() == widths.len(),
        forall|i: int| 0 <= i < widths.len() ==> widths[i] >= 1,
        start.0 < cols <= usize::MAX,
        start.1 < rows <= usize::MAX,
    ensures
        ({
            let caret = caret_after(
                placed(text, widths, target, start, cols, rows),
                start,
                cols,
            );
            0 <= caret.0 < cols && 0 <= caret.1 <= rows
        }),
{
    let cells = placed(text, widths, target, start, cols, rows);
    if cells.len() > 0 {
        law_composition_stays_in_the_pane(
            text,
            widths,
            target,
            start,
            cols,
            rows,
            cells.len() - 1,
        );
    }
}

/// A composition in flight keeps its pane, wherever the focus goes: a commit
/// after any update still reaches the pane it was started in.
pub proof fn law_a_composition_keeps_its_pane(
    p: PreeditState,
    text: Seq<char>,
    target: Option<(usize, usize)>,
    focus: PaneId,
    fallback: PaneId,
)
    requires
        p.is_active() || text.len() == 0,
    ensures
        p.update(text, target, focus).receiver(fallback) == p.receiver(fallback),
{
}

/// A composition that starts belongs to the focused pane, whatever was composed
/// before.
pub proof fn law_a_new_composition_binds_to_the_focus(
    p: PreeditState,
    text: Seq<char>,
    target: Option<(usize, usize)>,
    focus: PaneId,
    fallback: PaneId,
)
    requires
        !p.is_active(),
        text.len() > 0,
    ensures
        p.update(text, target, focus).receiver(fallback) == focus,
{
}

/// The byte offset of a character is the length of what precedes it in UTF-8.
pub proof fn law_offsets_are_utf8_lengths(text: Seq<char>, i: int)
    requires
        0 <= i <= text.len(),
    ensures
        offset_of(text, i) == vstd::utf8::encode_utf8(text.take(i)).len(),
    decreases i,
{
    if i > 0 {
        law_offsets_are_utf8_lengths(text, i - 1);
        lemma_encoded_push(text.take(i - 1), text[i - 1]);
        assert(text.take(i - 1).push(text[i - 1]) =~= text.take(i));
    } else {
        assert(text.take(0) =~= Seq::<char>::empty());
    }
}

proof fn lemma_encoded_push(text: Seq<char>, c: char)
    ensures
        vstd::utf8::encode_utf8(text.push(c)).len() == vstd::utf8::encode_utf8(text).len()
            + utf8_len(c),
    decreases text.len(),
{
    broadcast use vstd::utf8::char_is_scalar;

    if text.len() == 0 {
        assert(text.push(c).drop_first() =~= Seq::<char>::empty());
        assert(text.push(c)[0] == c);
        reveal_with_fuel(vstd::utf8::encode_utf8, 2);
    } else {
        lemma_encoded_push(text.drop_first(), c);
        assert(text.push(c).drop_first() =~= text.drop_first().push(c));
        assert(text.push(c)[0] == text[0]);
    }
}

/// The characters of `text` from `i` on that have a place: all but line breaks.
pub open spec fn without_breaks(text: Seq<char>, i: int) -> Seq<char>
    decreases text.len() - i,
{
    if i < 0 || i >= text.len() {
        Seq::empty()
    } else if text[i] == '\n' || text[i] == '\r' {
        without_breaks(text, i + 1)
    } else {
        seq![text[i]] + without_breaks(text, i + 1)
    }
}

/// Whether a cell of width `w` comes right after column `col` of row `row`: there
/// if it fits into the line, and otherwise at the start of the next.
pub open spec fn follows(cell: PreeditCell, col: int, row: int, cols: int) -> bool {
    if col + cell.width <= cols {
        cell.col == col && cell.row == row
    } else {
        cell.col == 0 && cell.row == row + 1
    }
}

/// The cell of character `i`, which has a place.
proof fn lemma_here(
    text: Seq<char>,
    widths: Seq<usize>,
    target: Option<(usize, usize)>,
    i: int,
    col: int,
    row: int,
    cols: int,
    rows: int,
    c: char,
) -> (here: PreeditCell)
    requires
        0 <= i < text.len(),
        c == text[i],
        c != '\n',
        c != '\r',
        text.len() == widths.len(),
        0 <= col,
        0 <= row,
        0 < cols <= usize::MAX,
        rows <= usize::MAX,
        (if col + widths[i] > cols {
            row + 1
        } else {
            row
        }) < rows,
    ensures
        here.c == c,
        here.width == widths[i],
        here.active == in_target(target, offset_of(text, i)),
        follows(here, col, row, cols),
        placed_from(text, widths, target, i, col, row, cols, rows) == seq![here] + placed_from(
            text,
            widths,
            target,
            i + 1,
            here.col + here.width,
            here.row as int,
            cols,
            rows,
        ),
{
    let active = in_target(target, offset_of(text, i));
    let here = if col + widths[i] > cols {
        PreeditCell { col: 0, row: (row + 1) as usize, c, width: widths[i], active }
    } else {
        PreeditCell { col: col as usize, row: row as usize, c, width: widths[i], active }
    };
    lemma_place_one(text, widths, target, i, col, row, cols, rows, here);
    here
}

proof fn lemma_in_order(
    text: Seq<char>,
    widths: Seq<usize>,
    target: Option<(usize, usize)>,
    i: int,
    col: int,
    row: int,
    cols: int,
    rows: int,
)
    requires
        text.len() == widths.len(),
        0 <= i,
        0 <= col,
        0 <= row,
        0 < cols <= usize::MAX,
        0 < rows <= usize::MAX,
    ensures
        ({
            let cells = placed_from(text, widths, target, i, col, row, cols, rows);
            let chars = without_breaks(text, i);
            &&& cells.len() <= chars.len()
            &&& forall|k: int| 0 <= k < cells.len() ==> (#[trigger] cells[k]).c == chars[k]
            &&& cells.len() > 0 ==> follows(cells[0], col, row, cols)
            &&& forall|k: int|
                0 < k < cells.len() ==> follows(
                    #[trigger] cells[k],
                    cells[k - 1].col + cells[k - 1].width,
                    cells[k - 1].row as int,
                    cols,
                )
        }),
    decreases text.len() - i,
{
    if i < text.len() {
        if text[i] == '\n' || text[i] == '\r' {
            lemma_in_order(text, widths, target, i + 1, col, row, cols, rows);
        } else {
            let w = widths[i] as int;
            let (x, y) = if col + w > cols { (0int, row + 1) } else { (col, row) };
            if y < rows {
                let here = lemma_here(text, widths, target, i, col, row, cols, rows, text[i]);
                lemma_in_order(
                    text,
                    widths,
                    target,
                    i + 1,
                    here.col + here.width,
                    here.row as int,
                    cols,
                    rows,
                );
                let rest = placed_from(
                    text,
                    widths,
                    target,
                    i + 1,
                    here.col + here.width,
                    here.row as int,
                    cols,
                    rows,
                );
                let cells = placed_from(text, widths, target, i, col, row, cols, rows);
                let chars = without_breaks(text, i);
                assert(cells == seq![here] + rest);
                assert(cells.len() == rest.len() + 1);
                assert forall|k: int| 0 <= k < cells.len() implies (#[trigger] cells[k]).c
                    == chars[k] by {
                    lemma_front(here, rest, k);
                    if k > 0 {
                        assert(cells[k] == rest[k - 1]);
                        assert(chars[k] == without_breaks(text, i + 1)[k - 1]);
                    }
                }
                assert forall|k: int| 0 < k < cells.len() implies follows(
                    #[trigger] cells[k],
                    cells[k - 1].col + cells[k - 1].width,
                    cells[k - 1].row as int,
                    cols,
                ) by {
                    lemma_front(here, rest, k);
                    lemma_front(here, rest, k - 1);
                    assert(cells[k] == rest[k - 1]);
                    if k > 1 {
                        assert(cells[k - 1] == rest[k - 2]);
                    }
                }
            }
        }
    }
}

/// Composing text is laid out in reading order from the caret on: its characters
/// one after the other, each where the one before it ended, or at the start of
/// the next row where it does not fit.
pub proof fn law_composing_text_is_in_order(
    text: Seq<char>,
    widths: Seq<usize>,
    target: Option<(usize, usize)>,
    start: (usize, usize),
    cols: int,
    rows: int,
    k: int,
)
    requires
        text.len() == widths.len(),
        0 < cols <= usize::MAX,
        0 < rows <= usize::MAX,
        0 <= k < placed(text, widths, target, start, cols, rows).len(),
    ensures
        ({
            let cells = placed(text, widths, target, start, cols, rows);
            &&& cells.len() <= without_breaks(text, 0).len()
            &&& cells[k].c == without_breaks(text, 0)[k]
            &&& k == 0 ==> follows(
                cells[0],
                if start.0 < cols { start.0 as int } else { cols - 1 },
                start.1 as int,
                cols,
            )
            &&& k > 0 ==> follows(
                cells[k],
                cells[k - 1].col + cells[k - 1].width,
                cells[k - 1].row as int,
                cols,
            )
        }),
{
    lemma_in_order(
        text,
        widths,
        target,
        0,
        model::min(start.0 as int, cols - 1),
        start.1 as int,
        cols,
        rows,
    );
}

/// Whether `cell` is what character `i` of composing text looks like: itself, as
/// wide as it is, and active where its first byte lies in the active segment.
pub open spec fn looks_like(
    cell: PreeditCell,
    text: Seq<char>,
    widths: Seq<usize>,
    target: Option<(usize, usize)>,
    i: int,
) -> bool {
    let byte = vstd::utf8::encode_utf8(text.take(i)).len();
    &&& 0 <= i < text.len()
    &&& cell.c == text[i]
    &&& cell.width == widths[i]
    &&& cell.active == (match target {
        Some((from, to)) => from <= byte && byte < to,
        None => false,
    })
}

proof fn lemma_looks(
    text: Seq<char>,
    widths: Seq<usize>,
    target: Option<(usize, usize)>,
    i: int,
    col: int,
    row: int,
    cols: int,
    rows: int,
    k: int,
)
    requires
        text.len() == widths.len(),
        0 <= i,
        0 <= col,
        0 <= row,
        0 < cols <= usize::MAX,
        0 < rows <= usize::MAX,
        0 <= k < placed_from(text, widths, target, i, col, row, cols, rows).len(),
    ensures
        exists|j: int|
            i + k <= j && #[trigger] looks_like(
                placed_from(text, widths, target, i, col, row, cols, rows)[k],
                text,
                widths,
                target,
                j,
            ),
    decreases text.len() - i,
{
    if text[i] == '\n' || text[i] == '\r' {
        lemma_looks(text, widths, target, i + 1, col, row, cols, rows, k);
        let cell = placed_from(text, widths, target, i + 1, col, row, cols, rows)[k];
        let j = choose|j: int|
            i + 1 + k <= j && #[trigger] looks_like(cell, text, widths, target, j);
        assert(looks_like(cell, text, widths, target, j));
    } else {
        let w = widths[i] as int;
        let (x, y) = if col + w > cols { (0int, row + 1) } else { (col, row) };
        assert(y < rows);
        let here = lemma_here(text, widths, target, i, col, row, cols, rows, text[i]);
        law_offsets_are_utf8_lengths(text, i);
        let rest = placed_from(
            text,
            widths,
            target,
            i + 1,
            here.col + here.width,
            here.row as int,
            cols,
            rows,
        );
        lemma_front(here, rest, k);
        if k == 0 {
            assert(looks_like(here, text, widths, target, i));
        } else {
            lemma_looks(
                text,
                widths,
                target,
                i + 1,
                here.col + here.width,
                here.row as int,
                cols,
                rows,
                k - 1,
            );
            let j = choose|j: int|
                i + 1 + (k - 1) <= j && #[trigger] looks_like(rest[k - 1], text, widths, target, j);
            assert(looks_like(rest[k - 1], text, widths, target, j));
        }
    }
}

/// Every character that is laid out is one of the composing text, as wide as it
/// is, and marked where it is part of the active segment.
pub proof fn law_composing_text_looks_like_itself(
    text: Seq<char>,
    widths: Seq<usize>,
    target: Option<(usize, usize)>,
    start: (usize, usize),
    cols: int,
    rows: int,
    k: int,
)
    requires
        text.len() == widths.len(),
        0 < cols <= usize::MAX,
        0 < rows <= usize::MAX,
        0 <= k < placed(text, widths, target, start, cols, rows).len(),
    ensures
        exists|j: int|
            k <= j && #[trigger] looks_like(
                placed(text, widths, target, start, cols, rows)[k],
                text,
                widths,
                target,
                j,
            ),
{
    let col = model::min(start.0 as int, cols - 1);
    lemma_looks(text, widths, target, 0, col, start.1 as int, cols, rows, k);
    let cell = placed(text, widths, target, start, cols, rows)[k];
    let j = choose|j: int| 0 + k <= j && #[trigger] looks_like(cell, text, widths, target, j);
    assert(looks_like(cell, text, widths, target, j));
}

/// A composition holds what the input method says, and is active while there is
/// any text. It shows in its own pane, and where nothing is composed the focused
/// pane is the one that is asked about.
pub proof fn law_a_composition_is_what_was_said(
    p: PreeditState,
    text: Seq<char>,
    target: Option<(usize, usize)>,
    focus: PaneId,
)
    ensures
        ({
            let next = p.update(text, target, focus);
            &&& next.text == text && next.target == target
            &&& next.is_active() == (text.len() > 0)
            &&& p.text.len() == 0 && text.len() > 0 ==> next.owner == Some(focus)
            &&& p.text.len() > 0 || text.len() == 0 ==> next.owner == p.owner
            &&& text.len() == 0 ==> next.composing_pane(focus) == focus
            &&& text.len() > 0 && next.owner is Some ==> next.composing_pane(focus)
                == next.owner->0
            &&& p.owner is Some ==> p.receiver(focus) == p.owner->0
            &&& p.owner is None ==> p.receiver(focus) == focus
        }),
{
}

/// Wide characters take two columns of composing text, and all others one.
pub proof fn law_widths_of_composing_text(text: Seq<char>, i: int)
    requires
        0 <= i < text.len(),
    ensures
        widths_of(text).len() == text.len(),
        match width::char_width(text[i]) {
            Some(w) if w > 1 => widths_of(text)[i] == w,
            _ => widths_of(text)[i] == 1,
        },
{
}

proof fn lemma_none_left_out(
    text: Seq<char>,
    widths: Seq<usize>,
    target: Option<(usize, usize)>,
    i: int,
    col: int,
    row: int,
    cols: int,
    rows: int,
)
    requires
        text.len() == widths.len(),
        0 <= i,
        0 <= col,
        0 <= row,
        0 < cols <= usize::MAX,
        0 < rows <= usize::MAX,
    ensures
        ({
            let cells = placed_from(text, widths, target, i, col, row, cols, rows);
            cells.len() < without_breaks(text, i).len() ==> rows <= 1 + (if cells.len() > 0 {
                cells.last().row as int
            } else {
                row
            })
        }),
    decreases text.len() - i,
{
    if i < text.len() {
        if text[i] == '\n' || text[i] == '\r' {
            lemma_none_left_out(text, widths, target, i + 1, col, row, cols, rows);
        } else {
            let y = if col + widths[i] > cols { row + 1 } else { row };
            if y < rows {
                let here = lemma_here(text, widths, target, i, col, row, cols, rows, text[i]);
                let (next, line) = (here.col + here.width, here.row as int);
                lemma_none_left_out(text, widths, target, i + 1, next, line, cols, rows);
                let rest = placed_from(text, widths, target, i + 1, next, line, cols, rows);
                if rest.len() > 0 {
                    assert((seq![here] + rest).last() == rest.last());
                } else {
                    assert((seq![here] + rest).last() == here);
                }
            }
        }
    }
}

/// Composing text is cut off only at the bottom of the pane: what is not laid out
/// had no row left.
pub proof fn law_no_composing_text_is_left_out(
    text: Seq<char>,
    widths: Seq<usize>,
    target: Option<(usize, usize)>,
    start: (usize, usize),
    cols: int,
    rows: int,
)
    requires
        text.len() == widths.len(),
        0 < cols <= usize::MAX,
        0 < rows <= usize::MAX,
    ensures
        ({
            let cells = placed(text, widths, target, start, cols, rows);
            cells.len() < without_breaks(text, 0).len() ==> rows <= 1 + (if cells.len() > 0 {
                cells.last().row as int
            } else {
                start.1 as int
            })
        }),
{
    let col = model::min(start.0 as int, cols - 1);
    lemma_none_left_out(text, widths, target, 0, col, start.1 as int, cols, rows);
}

} // verus!
