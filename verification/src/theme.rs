//! Colours, stored as sRGB bytes.

use crate::cell::{Cell, Color, Rgb, FLAG_BOLD, FLAG_INVERSE};
use vstd::prelude::*;

verus! {

pub struct Theme {
    pub fg: Rgb,
    pub bg: Rgb,
    pub cursor: Rgb,
    pub divider: Rgb,
    pub divider_focus: Rgb,
    /// Background of panes that don't have focus, so the active one stands out.
    pub bg_unfocused: Rgb,
    pub palette: [Rgb; 16],
}

/// The sixteen themed colours, in the order of the palette.
pub open spec fn default_palette() -> Seq<Rgb> {
    seq![
        [0x1bu8, 0x1f, 0x27],
        [0xf7u8, 0x76, 0x8e],
        [0x9eu8, 0xce, 0x6a],
        [0xe0u8, 0xaf, 0x68],
        [0x7au8, 0xa2, 0xf7],
        [0xbbu8, 0x9a, 0xf7],
        [0x7du8, 0xcf, 0xff],
        [0xa9u8, 0xb1, 0xd6],
        [0x41u8, 0x48, 0x68],
        [0xffu8, 0x7a, 0x93],
        [0xb9u8, 0xf2, 0x7c],
        [0xffu8, 0x9e, 0x64],
        [0x7du8, 0xa6, 0xff],
        [0xbbu8, 0x9a, 0xf7],
        [0x0du8, 0xb9, 0xd7],
        [0xc0u8, 0xca, 0xf5],
    ]
}

impl Default for Theme {
    fn default() -> (t: Self)
        ensures
            t.fg == [0xd8u8, 0xde, 0xe9],
            t.bg == [0x1bu8, 0x1f, 0x27],
            t.cursor == [0x7au8, 0xa2, 0xf7],
            t.divider == [0x2au8, 0x2f, 0x3a],
            t.divider_focus == [0x7au8, 0xa2, 0xf7],
            t.bg_unfocused == [0x16u8, 0x19, 0x20],
            t.palette@ == default_palette(),
    {
        let palette: [Rgb; 16] = [
            [0x1b, 0x1f, 0x27],
            [0xf7, 0x76, 0x8e],
            [0x9e, 0xce, 0x6a],
            [0xe0, 0xaf, 0x68],
            [0x7a, 0xa2, 0xf7],
            [0xbb, 0x9a, 0xf7],
            [0x7d, 0xcf, 0xff],
            [0xa9, 0xb1, 0xd6],
            [0x41, 0x48, 0x68],
            [0xff, 0x7a, 0x93],
            [0xb9, 0xf2, 0x7c],
            [0xff, 0x9e, 0x64],
            [0x7d, 0xa6, 0xff],
            [0xbb, 0x9a, 0xf7],
            [0x0d, 0xb9, 0xd7],
            [0xc0, 0xca, 0xf5],
        ];
        assert(palette@ =~= default_palette());
        Theme {
            fg: [0xd8, 0xde, 0xe9],
            bg: [0x1b, 0x1f, 0x27],
            cursor: [0x7a, 0xa2, 0xf7],
            divider: [0x2a, 0x2f, 0x3a],
            divider_focus: [0x7a, 0xa2, 0xf7],
            bg_unfocused: [0x16, 0x19, 0x20],
            palette,
        }
    }
}

/// One of the six levels of a channel in the colour cube.
pub open spec fn cube_level(n: int) -> u8 {
    if n == 0 { 0u8 } else { (55 + 40 * n) as u8 }
}

fn level(n: u8) -> (v: u8)
    requires
        n < 6,
    ensures
        v == cube_level(n as int),
{
    if n == 0 { 0 } else { 55 + 40 * n }
}

impl Theme {
    /// The xterm 256-colour palette: 16 themed, a 6×6×6 cube, then 24 greys.
    pub open spec fn palette_color(&self, i: u8) -> Rgb {
        if i < 16 {
            self.palette@[i as int]
        } else if i < 232 {
            let k = i - 16;
            [cube_level(k / 36), cube_level(k % 36 / 6), cube_level(k % 6)]
        } else {
            let v = (8 + (i - 232) * 10) as u8;
            [v, v, v]
        }
    }

    /// The sRGB bytes of a grid colour.
    pub open spec fn color(&self, c: Color, is_fg: bool) -> Rgb {
        match c {
            Color::Default => if is_fg { self.fg } else { self.bg },
            Color::Rgb(rgb) => rgb,
            Color::Indexed(i) => self.palette_color(i),
        }
    }

    /// Resolves a grid colour to sRGB bytes. `is_fg` picks the right default.
    pub fn resolve(&self, c: Color, is_fg: bool) -> (rgb: Rgb)
        ensures
            rgb == self.color(c, is_fg),
    {
        match c {
            Color::Default => if is_fg { self.fg } else { self.bg },
            Color::Rgb(rgb) => rgb,
            Color::Indexed(i) => self.indexed(i),
        }
    }

    /// The xterm 256-colour palette: 16 themed, a 6×6×6 cube, then 24 greys.
    pub fn indexed(&self, i: u8) -> (rgb: Rgb)
        ensures
            rgb == self.palette_color(i),
    {
        if i < 16 {
            self.palette[i as usize]
        } else if i < 232 {
            let k: u8 = i - 16;
            [level(k / 36), level(k % 36 / 6), level(k % 6)]
        } else {
            let v: u8 = 8 + (i - 232) * 10;
            [v, v, v]
        }
    }
}

/// The foreground of a cell, brightened where it is bold: bold over a basic
/// palette colour picks the bright variant, like xterm.
pub open spec fn ink_color(cell: Cell) -> Color {
    if cell.flags & FLAG_BOLD != 0 {
        match cell.fg {
            Color::Indexed(i) => if i < 8 { Color::Indexed((i + 8) as u8) } else { cell.fg },
            _ => cell.fg,
        }
    } else {
        cell.fg
    }
}

/// The colours that a cell is drawn in: ink, then background.
pub open spec fn pair_of(cell: Cell, theme: &Theme) -> (Rgb, Rgb) {
    let fg = theme.color(ink_color(cell), true);
    let bg = theme.color(cell.bg, false);
    if cell.flags & FLAG_INVERSE != 0 { (bg, fg) } else { (fg, bg) }
}

/// Applies bold-brightening and inverse video, returning `(fg, bg)` sRGB bytes.
pub fn resolve_pair(cell: &Cell, theme: &Theme) -> (pair: (Rgb, Rgb))
    ensures
        pair == pair_of(*cell, theme),
{
    let mut ink = cell.fg;
    if cell.flags & FLAG_BOLD != 0 {
        if let Color::Indexed(i) = cell.fg {
            if i < 8 {
                ink = Color::Indexed(i + 8);
            }
        }
    }
    let fg = theme.resolve(ink, true);
    let bg = theme.resolve(cell.bg, false);
    if cell.flags & FLAG_INVERSE != 0 { (bg, fg) } else { (fg, bg) }
}

/// Inverse video swaps ink and background and changes nothing else.
pub proof fn law_inverse_swaps(plain: Cell, inverse: Cell, theme: &Theme)
    requires
        plain.flags & FLAG_INVERSE == 0,
        inverse == (Cell { flags: plain.flags | FLAG_INVERSE, ..plain }),
    ensures
        pair_of(inverse, theme) == (pair_of(plain, theme).1, pair_of(plain, theme).0),
{
    let f = plain.flags;
    assert((f | 8) & 8 != 0) by (bit_vector);
    assert((f | 8) & 1 == f & 1) by (bit_vector);
}

/// The colours by number: the theme's sixteen, a cube of six levels for each of
/// red, green and blue, and 24 greys from dark to light.
pub proof fn law_the_palette(theme: &Theme, r: int, g: int, b: int, k: int)
    requires
        0 <= r < 6,
        0 <= g < 6,
        0 <= b < 6,
        0 <= k < 24,
    ensures
        ({
            let level = seq![0u8, 95, 135, 175, 215, 255];
            let grey = (8 + 10 * k) as u8;
            &&& theme.color(Color::Indexed((16 + 36 * r + 6 * g + b) as u8), true) == [
                level[r],
                level[g],
                level[b],
            ]
            &&& theme.color(Color::Indexed((232 + k) as u8), true) == [grey, grey, grey]
        }),
        forall|i: u8|
            i < 16 ==> #[trigger] theme.color(Color::Indexed(i), true) == theme.palette@[i as int],
{
    let i = (16 + 36 * r + 6 * g + b) as u8;
    let n = 36 * r + 6 * g + b;
    assert(i - 16 == n);
    assert(n / 36 == r && n % 36 == 6 * g + b && n % 36 / 6 == g && n % 6 == b) by (nonlinear_arith)
        requires
            n == 36 * r + 6 * g + b,
            0 <= r < 6,
            0 <= g < 6,
            0 <= b < 6,
    ;
}

/// A colour is the same whether it is ink or background, save the default, which
/// is the theme's ink or its background; a colour that was spelled out is
/// itself.
pub proof fn law_default_and_spelled_out_colours(theme: &Theme, c: Color, rgb: Rgb)
    ensures
        theme.color(Color::Default, true) == theme.fg,
        theme.color(Color::Default, false) == theme.bg,
        theme.color(Color::Rgb(rgb), true) == rgb,
        c != Color::Default ==> theme.color(c, true) == theme.color(c, false),
{
}

/// A cell without bold and inverse is drawn in its own two colours. Bold makes
/// the eight plain colours the bright ones, and changes no other ink and no
/// background.
pub proof fn law_bold_brightens(cell: Cell, theme: &Theme)
    requires
        cell.flags & 8 == 0,
    ensures
        ({
            let (ink, back) = pair_of(cell, theme);
            &&& back == theme.color(cell.bg, false)
            &&& cell.flags & 1 == 0 ==> ink == theme.color(cell.fg, true)
            &&& cell.flags & 1 != 0 ==> match cell.fg {
                Color::Indexed(i) if i < 8 => ink == theme.palette@[8 + i],
                _ => ink == theme.color(cell.fg, true),
            }
        }),
{
}

/// Inverse video swaps what the same cell without it is drawn in.
pub proof fn law_inverse_is_a_swap(cell: Cell, theme: &Theme)
    requires
        cell.flags & 8 != 0,
    ensures
        ({
            let plain = Cell { flags: cell.flags & !8u8, ..cell };
            pair_of(cell, theme) == (pair_of(plain, theme).1, pair_of(plain, theme).0)
        }),
{
    let f = cell.flags;
    assert((f & !8u8) & 8 == 0 && (f & !8u8) & 1 == f & 1) by (bit_vector);
}

} // verus!
