//! What one screen cell holds: a character, its colours and its attributes.

use crate::rows;
use vstd::prelude::*;

verus! {

pub const FLAG_BOLD: u8 = 1;

pub const FLAG_ITALIC: u8 = 2;

pub const FLAG_UNDERLINE: u8 = 4;

pub const FLAG_INVERSE: u8 = 8;

/// Right-hand half of a double-width character. Never drawn directly.
pub const FLAG_WIDE_SPACER: u8 = 16;

pub type Rgb = [u8; 3];

#[derive(Clone, Copy, PartialEq, Eq, Debug)]
pub enum Color {
    /// Whatever the theme says the default fg/bg is.
    Default,
    /// Index into the xterm 256-colour palette.
    Indexed(u8),
    Rgb(Rgb),
}

#[derive(Clone, Copy)]
pub struct Cell {
    pub c: char,
    pub fg: Color,
    pub bg: Color,
    pub flags: u8,
}

/// An empty cell on background `bg`.
pub open spec fn blank(bg: Color) -> Cell {
    Cell { c: ' ', fg: Color::Default, bg, flags: 0 }
}

/// A whole row of empty cells.
pub open spec fn blank_row(cols: int, bg: Color) -> Seq<Cell> {
    rows::row_filled_with(cols, blank(bg))
}

impl Default for Cell {
    fn default() -> (cell: Self)
        ensures
            cell == blank(Color::Default),
    {
        Cell { c: ' ', fg: Color::Default, bg: Color::Default, flags: 0 }
    }
}

impl Cell {
    pub fn blank_with(bg: Color) -> (cell: Self)
        ensures
            cell == blank(bg),
    {
        Cell { c: ' ', fg: Color::Default, bg, flags: 0 }
    }
}

/// The colours and attributes that newly written cells take.
#[derive(Clone, Copy)]
pub struct Pen {
    pub fg: Color,
    pub bg: Color,
    pub flags: u8,
}

impl Pen {
    /// The pen that SGR 0 selects.
    pub open spec fn plain() -> Pen {
        Pen { fg: Color::Default, bg: Color::Default, flags: 0 }
    }

    pub fn new() -> (pen: Pen)
        ensures
            pen == Pen::plain(),
    {
        Pen { fg: Color::Default, bg: Color::Default, flags: 0 }
    }
}

#[derive(Clone, Copy, PartialEq, Eq, Debug, Structural)]
pub enum CursorShape {
    Block,
    Bar,
    Underline,
}

/// A character set that can be mapped into the printable range.
///
/// Only two of the VT100's sets matter in practice. `DecGraphics` is the one
/// tmux and ncurses reach for whenever the terminal isn't in a UTF-8 locale,
/// which is the normal case over ssh: without it every box-drawing character
/// arrives as the ASCII letter it shares a slot with.
#[derive(Clone, Copy, PartialEq, Eq, Debug, Structural)]
pub enum Charset {
    Ascii,
    DecGraphics,
}

/// The glyphs of DEC Special Graphics, in the order of the ASCII characters
/// `_` to `~` that stand in for them on the wire.
pub open spec fn dec_graphics() -> Seq<char> {
    seq![
        ' ', '◆', '▒', '␉', '␌', '␍', '␊', '°', '±', '␤', '␋', '┘', '┐', '┌', '└', '┼',
        '⎺', '⎻', '─', '⎼', '⎽', '├', '┤', '┴', '┬', '│', '≤', '≥', 'π', '≠', '£', '·',
    ]
}

/// The character that `c` stands for while `set` is mapped in.
pub open spec fn charset_char(set: Charset, c: char) -> char {
    if set is DecGraphics && '_' <= c <= '~' {
        dec_graphics()[c as int - '_' as int]
    } else {
        c
    }
}

impl Charset {
    /// DEC Special Graphics occupies `_` through `~`; everything else is ASCII.
    pub fn map(self, c: char) -> (mapped: char)
        ensures
            mapped == charset_char(self, c),
    {
        if self == Charset::Ascii || c < '_' || c > '~' {
            return c;
        }
        let graphics: [char; 32] = [
            ' ', '◆', '▒', '␉', '␌', '␍', '␊', '°', '±', '␤', '␋', '┘', '┐', '┌', '└', '┼',
            '⎺', '⎻', '─', '⎼', '⎽', '├', '┤', '┴', '┬', '│', '≤', '≥', 'π', '≠', '£', '·',
        ];
        assert(graphics@ =~= dec_graphics());
        graphics[(c as u32 - '_' as u32) as usize]
    }
}

} // verus!
