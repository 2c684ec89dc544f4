//! How many columns a character takes.

use unicode_width::UnicodeWidthChar;
use vstd::prelude::*;

verus! {

/// The number of columns that Unicode's East Asian Width rules give `c`, as
/// the `unicode-width` crate has them; `None` for control characters.
pub uninterp spec fn char_width(c: char) -> Option<usize>;

/// `unicode_width::UnicodeWidthChar::width`. Its result depends on the
/// character alone and is called [`char_width`]; printable ASCII is one column
/// wide.
#[verifier::external_body]
pub(crate) fn width_of(c: char) -> (w: Option<usize>)
    ensures
        w == char_width(c),
        ' ' <= c <= '~' ==> w == Some(1usize),
{
    c.width()
}

/// The columns that a printed `c` occupies: its width, and one column for
/// everything that has none.
pub open spec fn columns(c: char) -> int {
    match char_width(c) {
        Some(w) => if w > 1 { w as int } else { 1 },
        None => 1,
    }
}

/// Columns for a width as [`width_of`] gives it.
pub fn columns_for(width: Option<usize>) -> (w: usize)
    ensures
        w == (match width {
            Some(w) => if w > 1 { w } else { 1 },
            None => 1usize,
        }),
{
    match width {
        Some(w) => if w > 1 { w } else { 1 },
        None => 1,
    }
}

} // verus!
