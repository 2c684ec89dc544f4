//! What is printed, and in what colours: the character sets, and the pen that
//! SGR sets.

use crate::cell::{self, Cell, Charset, Color, Pen};
use crate::effects::{self, sent};
use crate::model::{self, GridState};
use crate::sequences::{ActionState, TermState};
use crate::width;
use vstd::prelude::*;

verus! {

/// The terminal once it was sent SGR with the parameters `params`.
pub open spec fn styled(s: TermState, params: Seq<u16>) -> TermState {
    sent(s, seq![params], Seq::empty(), 'm')
}

proof fn lemma_styled(s: TermState, params: Seq<u16>)
    ensures
        styled(s, params) == (TermState { grid: s.grid.sgr(params), ..s }),
{
    assert(seq![params].flatten() =~= params) by {
        seq![params].lemma_flatten_one_element();
    }
    assert(s.reply + Seq::<u8>::empty() =~= s.reply);
}

/// Whether SGR did nothing but change the pen.
pub open spec fn only_pen(s: TermState, t: TermState) -> bool {
    t == TermState { grid: GridState { pen: t.grid.pen, ..s.grid }, ..s }
}

/// SGR changes the pen and nothing else: no cell, no cursor, no pending wrap.
pub proof fn law_sgr_changes_the_pen_alone(s: TermState, params: Seq<u16>)
    ensures
        only_pen(s, styled(s, params)),
{
    lemma_styled(s, params);
}

/// `38;5;n` and `48;5;n` make the foreground, or the background, colour `n` of
/// the palette, and leave the rest of the pen alone. Of a larger number the low
/// byte counts.
pub proof fn law_palette_colours(s: TermState, n: u16)
    ensures
        ({
            let color = Color::Indexed((n % 256) as u8);
            &&& styled(s, seq![38, 5, n]).grid.pen == Pen { fg: color, ..s.grid.pen }
            &&& styled(s, seq![48, 5, n]).grid.pen == Pen { bg: color, ..s.grid.pen }
        }),
{
    lemma_low_byte(n);
    lemma_styled(s, seq![38, 5, n]);
    lemma_styled(s, seq![48, 5, n]);
    reveal_with_fuel(model::sgr_from, 3);
}

proof fn lemma_low_byte(n: u16)
    ensures
        n as u8 == (n % 256) as u8,
{
    assert(n as u8 == (n % 256) as u8) by (bit_vector);
}

/// `38;2;r;g;b` and `48;2;r;g;b` make the foreground, or the background, that
/// colour, and leave the rest of the pen alone. Of a larger number the low byte
/// counts.
pub proof fn law_spelled_out_colours(s: TermState, r: u16, g: u16, b: u16)
    ensures
        ({
            let color = Color::Rgb([(r % 256) as u8, (g % 256) as u8, (b % 256) as u8]);
            &&& styled(s, seq![38, 2, r, g, b]).grid.pen == Pen { fg: color, ..s.grid.pen }
            &&& styled(s, seq![48, 2, r, g, b]).grid.pen == Pen { bg: color, ..s.grid.pen }
        }),
{
    lemma_low_byte(r);
    lemma_low_byte(g);
    lemma_low_byte(b);
    lemma_styled(s, seq![38, 2, r, g, b]);
    lemma_styled(s, seq![48, 2, r, g, b]);
    reveal_with_fuel(model::sgr_from, 3);
}

/// The sixteen basic colours: 30 to 37 and 90 to 97 are the foreground's, eight
/// plain and eight bright ones, and 40 to 47 and 100 to 107 the background's.
/// 39 and 49 go back to what the theme has.
pub proof fn law_basic_colours(s: TermState, k: u16)
    requires
        k < 8,
    ensures
        ({
            let pen = s.grid.pen;
            let one = |p: int| styled(s, seq![p as u16]).grid.pen;
            &&& one(30 + k) == Pen { fg: Color::Indexed(k as u8), ..pen }
            &&& one(90 + k) == Pen { fg: Color::Indexed((8 + k) as u8), ..pen }
            &&& one(40 + k) == Pen { bg: Color::Indexed(k as u8), ..pen }
            &&& one(100 + k) == Pen { bg: Color::Indexed((8 + k) as u8), ..pen }
            &&& one(39) == Pen { fg: Color::Default, ..pen }
            &&& one(49) == Pen { bg: Color::Default, ..pen }
        }),
{
    lemma_one(s, (30 + k) as u16);
    lemma_one(s, (90 + k) as u16);
    lemma_one(s, (40 + k) as u16);
    lemma_one(s, (100 + k) as u16);
    lemma_one(s, 39);
    lemma_one(s, 49);
}

/// SGR with one parameter takes one step.
proof fn lemma_one(s: TermState, p: u16)
    requires
        p != 38,
        p != 48,
    ensures
        styled(s, seq![p]).grid.pen == model::sgr_step(s.grid.pen, seq![p], 0).0,
{
    lemma_styled(s, seq![p]);
    reveal_with_fuel(model::sgr_from, 3);
}

/// Whether bit `bit` is set in `after` and the others are as in `before`.
pub open spec fn bit_set(before: u8, after: u8, bit: u8) -> bool {
    after & bit == bit && after & !bit == before & !bit
}

/// Whether bit `bit` is clear in `after` and the others are as in `before`.
pub open spec fn bit_cleared(before: u8, after: u8, bit: u8) -> bool {
    after & bit == 0 && after & !bit == before & !bit
}

/// Bold, italic, underlined and inverse are switched on by 1, 3, 4 and 7 and off
/// by 22, 23, 24 and 27, each without touching the others or the colours.
pub proof fn law_attributes(s: TermState)
    ensures
        ({
            let was = s.grid.pen.flags;
            let now = |p: int| styled(s, seq![p as u16]).grid.pen.flags;
            &&& bit_set(was, now(1), 1)
            &&& bit_set(was, now(3), 2)
            &&& bit_set(was, now(4), 4)
            &&& bit_set(was, now(7), 8)
            &&& bit_cleared(was, now(22), 1)
            &&& bit_cleared(was, now(23), 2)
            &&& bit_cleared(was, now(24), 4)
            &&& bit_cleared(was, now(27), 8)
        }),
        forall|p: u16|
            p == 1 || p == 3 || p == 4 || p == 7 || p == 22 || p == 23 || p == 24 || p == 27 ==> {
                let pen = #[trigger] styled(s, seq![p]).grid.pen;
                pen.fg == s.grid.pen.fg && pen.bg == s.grid.pen.bg
            },
{
    lemma_one(s, 1);
    lemma_one(s, 3);
    lemma_one(s, 4);
    lemma_one(s, 7);
    lemma_one(s, 22);
    lemma_one(s, 23);
    lemma_one(s, 24);
    lemma_one(s, 27);
    let f = s.grid.pen.flags;
    lemma_bit(f, 1);
    lemma_bit(f, 2);
    lemma_bit(f, 4);
    lemma_bit(f, 8);
}

proof fn lemma_bit(f: u8, bit: u8)
    ensures
        bit_set(f, f | bit, bit),
        bit_cleared(f, f & !bit, bit),
{
    assert((f | bit) & bit == bit && (f | bit) & !bit == f & !bit && (f & !bit) & bit == 0 && (f
        & !bit) & !bit == f & !bit) by (bit_vector);
}

/// SGR 0, and SGR without parameters, go back to a plain pen: the theme's
/// colours and no attribute.
pub proof fn law_sgr_resets(s: TermState)
    ensures
        styled(s, seq![0]).grid.pen == (Pen { fg: Color::Default, bg: Color::Default, flags: 0 }),
        styled(s, Seq::empty()).grid.pen == (Pen {
            fg: Color::Default,
            bg: Color::Default,
            flags: 0,
        }),
{
    lemma_one(s, 0);
    lemma_styled(s, Seq::empty());
}

/// Whether SGR knows a parameter.
pub open spec fn is_known(p: u16) -> bool {
    ||| p <= 1
    ||| p == 3
    ||| p == 4
    ||| p == 7
    ||| 22 <= p <= 24
    ||| p == 27
    ||| 30 <= p <= 49
    ||| 90 <= p <= 97
    ||| 100 <= p <= 107
}

/// A parameter that SGR does not know changes nothing, and neither does a colour
/// that is cut off or of an unknown kind.
pub proof fn law_unknown_attributes_do_nothing(s: TermState, p: u16, a: u16, b: u16)
    ensures
        !is_known(p) ==> styled(s, seq![p]).grid.pen == s.grid.pen,
        p == 38 || p == 48 ==> {
            &&& styled(s, seq![p]).grid.pen == s.grid.pen
            &&& styled(s, seq![p, 5]).grid.pen == s.grid.pen
            &&& styled(s, seq![p, 2]).grid.pen == s.grid.pen
            &&& styled(s, seq![p, 2, a]).grid.pen == s.grid.pen
            &&& styled(s, seq![p, 2, a, b]).grid.pen == s.grid.pen
        },
{
    if p == 38 || p == 48 {
        lemma_cut_off(s, seq![p]);
        lemma_cut_off(s, seq![p, 5]);
        lemma_cut_off(s, seq![p, 2]);
        lemma_cut_off(s, seq![p, 2, a]);
        lemma_cut_off(s, seq![p, 2, a, b]);
    } else {
        lemma_one(s, p);
    }
}

proof fn lemma_cut_off(s: TermState, params: Seq<u16>)
    requires
        1 <= params.len() <= 4,
        params[0] == 38 || params[0] == 48,
        params.len() > 1 ==> params[1] == 2 || (params[1] == 5 && params.len() == 2),
    ensures
        styled(s, params).grid.pen == s.grid.pen,
{
    lemma_styled(s, params);
    reveal_with_fuel(model::sgr_from, 2);
    let (pen, next) = model::sgr_step(s.grid.pen, params, 0);
    assert(pen == s.grid.pen && next == params.len());
}

/// Reading parameters from `i` on is reading what is left of them.
proof fn lemma_sgr_shift(pen: Pen, head: Seq<u16>, rest: Seq<u16>, i: int)
    requires
        0 <= i <= rest.len(),
    ensures
        model::sgr_from(pen, head + rest, head.len() + i) == model::sgr_from(pen, rest, i),
    decreases rest.len() - i,
{
    let all = head + rest;
    if i < rest.len() {
        let (a, j) = model::sgr_step(pen, all, head.len() + i);
        let (b, k) = model::sgr_step(pen, rest, i);
        assert(all[head.len() + i] == rest[i]);
        assert(i + 1 < rest.len() ==> all[head.len() + i + 1] == rest[i + 1]);
        assert(i + 2 < rest.len() ==> all[head.len() + i + 2] == rest[i + 2]);
        assert(i + 3 < rest.len() ==> all[head.len() + i + 3] == rest[i + 3]);
        assert(i + 4 < rest.len() ==> all[head.len() + i + 4] == rest[i + 4]);
        assert(a == b && j == head.len() + k);
        lemma_sgr_shift(b, head, rest, k);
    }
}

/// Parameters are carried out from left to right: a parameter, or a colour with
/// all that belongs to it, and then the others as if they had been sent after
/// it.
pub proof fn law_sgr_reads_left_to_right(s: TermState, head: Seq<u16>, rest: Seq<u16>)
    requires
        rest.len() > 0,
        ({
            ||| head.len() == 1 && head[0] != 38 && head[0] != 48
            ||| head.len() == 1 && (head[0] == 38 || head[0] == 48) && rest[0] != 2 && rest[0] != 5
            ||| head.len() == 3 && (head[0] == 38 || head[0] == 48) && head[1] == 5
            ||| head.len() == 5 && (head[0] == 38 || head[0] == 48) && head[1] == 2
        }),
    ensures
        styled(s, head + rest) == styled(styled(s, head), rest),
{
    let all = head + rest;
    let pen = s.grid.pen;
    lemma_styled(s, all);
    lemma_styled(s, head);
    lemma_styled(styled(s, head), rest);
    let next = lemma_first_group(pen, head, rest);
    lemma_sgr_shift(next, head, rest, 0);
}

/// What comes first in a list of parameters is read as it is on its own.
proof fn lemma_first_group(pen: Pen, head: Seq<u16>, rest: Seq<u16>) -> (next: Pen)
    requires
        rest.len() > 0,
        ({
            ||| head.len() == 1 && head[0] != 38 && head[0] != 48
            ||| head.len() == 1 && (head[0] == 38 || head[0] == 48) && rest[0] != 2 && rest[0] != 5
            ||| head.len() == 3 && (head[0] == 38 || head[0] == 48) && head[1] == 5
            ||| head.len() == 5 && (head[0] == 38 || head[0] == 48) && head[1] == 2
        }),
    ensures
        model::sgr_from(pen, head + rest, 0) == model::sgr_from(
            next,
            head + rest,
            head.len() as int,
        ),
        model::sgr_from(pen, head, 0) == next,
{
    let all = head + rest;
    let n = head.len() as int;
    assert(all[0] == head[0]);
    assert(n == 1 ==> all[1] == rest[0]);
    assert(n >= 3 ==> all[1] == head[1] && all[2] == head[2]);
    assert(n >= 5 ==> all[3] == head[3] && all[4] == head[4]);
    let (next, j) = model::sgr_step(pen, all, 0);
    assert(j == n);
    assert((next, n) == model::sgr_step(pen, head, 0));
    assert(model::sgr_from(next, head, n) == next);
    next
}

/// While ASCII is mapped in, every character stands for itself; while DEC
/// Special Graphics is, those outside `_` to `~` do.
pub proof fn law_other_characters_stand_for_themselves(c: char)
    ensures
        cell::charset_char(Charset::Ascii, c) == c,
        c < '_' || '~' < c ==> cell::charset_char(Charset::DecGraphics, c) == c,
{
}

/// The corners, crossings and lines that boxes are drawn with, and the other
/// glyphs of DEC Special Graphics, by the letter that is sent for each.
pub proof fn law_line_drawing()
    ensures
        ({
            let drawn = |c: char| cell::charset_char(Charset::DecGraphics, c);
            &&& drawn('q') == '─' && drawn('x') == '│'
            &&& drawn('l') == '┌' && drawn('k') == '┐' && drawn('m') == '└' && drawn('j') == '┘'
            &&& drawn('t') == '├' && drawn('u') == '┤' && drawn('v') == '┴' && drawn('w') == '┬'
            &&& drawn('n') == '┼'
            &&& drawn('o') == '⎺' && drawn('p') == '⎻' && drawn('r') == '⎼' && drawn('s') == '⎽'
            &&& drawn('`') == '◆' && drawn('a') == '▒' && drawn('f') == '°' && drawn('g') == '±'
            &&& drawn('y') == '≤' && drawn('z') == '≥' && drawn('{') == 'π' && drawn('|') == '≠'
            &&& drawn('}') == '£' && drawn('~') == '·' && drawn('_') == ' '
            &&& drawn('b') == '␉' && drawn('c') == '␌' && drawn('d') == '␍' && drawn('e') == '␊'
            &&& drawn('h') == '␤' && drawn('i') == '␋'
        }),
{
}

/// `ESC ( 0` and `ESC ) 0` make DEC Special Graphics the G0 or the G1 set, and
/// anything else in place of `0` makes it ASCII; SI maps G0 in and SO maps G1
/// in. None of them touches the screen.
pub proof fn law_designating_character_sets(s: TermState, byte: u8)
    ensures
        ({
            let set = if byte == 0x30 { Charset::DecGraphics } else { Charset::Ascii };
            let g = s.grid;
            let esc = |mark: char|
                s.perform(ActionState::Esc { intermediates: seq![mark as u8], byte });
            &&& esc('(') == TermState { grid: GridState { g0: set, ..g }, ..s }
            &&& esc(')') == TermState { grid: GridState { g1: set, ..g }, ..s }
            &&& s.perform(ActionState::Execute(0x0f)) == TermState {
                grid: GridState { gl: 0, ..g },
                ..s
            }
            &&& s.perform(ActionState::Execute(0x0e)) == TermState {
                grid: GridState { gl: 1, ..g },
                ..s
            }
        }),
{
}

/// The glyph that a character is shown as: by the G0 or the G1 set, whichever is
/// mapped in.
pub open spec fn shown_as(s: GridState, c: char) -> char {
    cell::charset_char(if s.gl == 0 { s.g0 } else { s.g1 }, c)
}

/// How many columns a glyph takes: two where Unicode says so, and one for
/// everything that it gives no more.
pub open spec fn takes(glyph: char, w: int) -> bool {
    match width::char_width(glyph) {
        Some(n) => n <= 1 && w == 1 || n > 1 && w == n,
        None => w == 1,
    }
}

/// A character that fits into the line is written at the cursor, in the pen's
/// colours and with its attributes. One that is two columns wide has a spacer in
/// its second. Nothing else on the screen changes, and the cursor moves on past
/// it, or waits in the last column to wrap.
pub proof fn law_printing(s: TermState, c: char, w: int, x: int, y: int)
    requires
        s.grid.wf(),
        !s.grid.wrap_pending,
        takes(shown_as(s.grid, c), w),
        s.grid.cx + w <= s.grid.cols,
        0 <= x < s.grid.cols,
        0 <= y < s.grid.rows,
    ensures
        ({
            let g = s.grid;
            let u = s.perform(ActionState::Print(c));
            let t = u.grid;
            let pen = g.pen;
            &&& u.reply == s.reply
            &&& t == GridState { screen: t.screen, cx: t.cx, wrap_pending: t.wrap_pending, ..g }
            &&& t.screen.len() == g.rows && t.screen[y].len() == g.cols
            &&& y == g.cy && x == g.cx ==> t.screen[y][x] == Cell {
                c: shown_as(g, c),
                fg: pen.fg,
                bg: pen.bg,
                flags: pen.flags,
            }
            &&& y == g.cy && x == g.cx + 1 && w == 2 ==> t.screen[y][x] == Cell {
                c: ' ',
                fg: pen.fg,
                bg: pen.bg,
                flags: pen.flags | 16,
            }
            &&& y != g.cy || x < g.cx || g.cx + w <= x ==> t.screen[y][x] == g.screen[y][x]
            &&& y == g.cy && x > g.cx && w != 2 ==> t.screen[y][x] == g.screen[y][x]
            &&& g.cx + w < g.cols ==> t.cx == g.cx + w && !t.wrap_pending
            &&& g.cx + w == g.cols ==> t.cx == g.cols - 1 && t.wrap_pending
        }),
{
    assert(s.grid.screen[y].len() == s.grid.cols);
    assert(s.grid.screen[s.grid.cy].len() == s.grid.cols);
}

/// A character after a full line, and one that does not fit into what is left of
/// the line, is printed as after a carriage return and a line feed.
pub proof fn law_wrapping(s: TermState, c: char, w: int)
    requires
        s.grid.wf(),
        takes(shown_as(s.grid, c), w),
        w <= s.grid.cols,
        s.grid.wrap_pending || s.grid.cx + w > s.grid.cols,
    ensures
        s.perform(ActionState::Print(c)) == s.perform(ActionState::Execute(0x0d)).perform(
            ActionState::Execute(0x0a),
        ).perform(ActionState::Print(c)),
{
    let g = s.grid;
    let glyph = shown_as(g, c);
    let fed = effects::settled(g).with_cx(0).newline();
    lemma_wrapped(g, w);
    lemma_return_and_feed(s);
    lemma_put(g, c, w);
    lemma_put(fed, c, w);
}

/// A character that no line has room for starts a new one all the same and fills
/// it: only its first column is written, and the next character wraps.
pub proof fn law_a_character_wider_than_the_screen(s: TermState, c: char, w: int, x: int, y: int)
    requires
        s.grid.wf(),
        takes(shown_as(s.grid, c), w),
        w > s.grid.cols,
        0 <= x < s.grid.cols,
        0 <= y < s.grid.rows,
    ensures
        ({
            let next = s.perform(ActionState::Execute(0x0d)).perform(ActionState::Execute(0x0a));
            let u = s.perform(ActionState::Print(c));
            let (g, t) = (next.grid, u.grid);
            &&& s.grid.wrap_pending ==> u == next.perform(ActionState::Print(c))
            &&& !s.grid.wrap_pending ==> {
                &&& u.reply == s.reply
                &&& t == GridState {
                    screen: t.screen,
                    cx: s.grid.cols - 1,
                    wrap_pending: true,
                    ..g
                }
                &&& y != g.cy || x != 0 ==> t.screen[y][x] == g.screen[y][x]
                &&& y == g.cy && x == 0 ==> t.screen[y][x] == Cell {
                    c: shown_as(s.grid, c),
                    fg: s.grid.pen.fg,
                    bg: s.grid.pen.bg,
                    flags: s.grid.pen.flags,
                }
            }
        }),
{
    let g = s.grid;
    let fed = effects::settled(g).with_cx(0).newline();
    lemma_return_and_feed(s);
    if g.wrap_pending {
        lemma_wrapped_again(g, c, w);
    } else {
        assert(effects::settled(g) == g);
        g.with_cx(0).lemma_newline_wf();
        lemma_newline_keeps(g.with_cx(0));
        lemma_put(g, c, w);
        assert(g.wrapped_for(w) == fed);
        lemma_stamped(fed, shown_as(g, c), w, x, y);
    }
}

proof fn lemma_wrapped_again(g: GridState, c: char, w: int)
    requires
        takes(shown_as(g, c), w),
        g.wrap_pending,
    ensures
        g.put(c) == effects::settled(g).with_cx(0).newline().put(c),
{
    let fed = effects::settled(g).with_cx(0).newline();
    lemma_newline_wrap(g.with_cx(0));
    lemma_newline_keeps(effects::settled(g).with_cx(0));
    assert(g.settle_wrap() == fed);
    assert(g.wrapped_for(w) == fed.wrapped_for(w));
    lemma_put(g, c, w);
    lemma_put(fed, c, w);
}

proof fn lemma_stamped(g: GridState, glyph: char, w: int, x: int, y: int)
    requires
        g.wf(),
        g.cx == 0,
        w > g.cols,
        0 <= x < g.cols,
        0 <= y < g.rows,
    ensures
        ({
            let t = g.stamp(glyph, w).advance_cursor(w);
            &&& t == GridState { screen: t.screen, cx: g.cols - 1, wrap_pending: true, ..g }
            &&& y != g.cy || x != 0 ==> t.screen[y][x] == g.screen[y][x]
            &&& y == g.cy && x == 0 ==> t.screen[y][x] == Cell {
                c: glyph,
                fg: g.pen.fg,
                bg: g.pen.bg,
                flags: g.pen.flags,
            }
        }),
{
    assert(g.screen[y].len() == g.cols);
    assert(g.screen[g.cy].len() == g.cols);
}

proof fn lemma_return_and_feed(s: TermState)
    ensures
        s.perform(ActionState::Execute(0x0d)).perform(ActionState::Execute(0x0a)) == (TermState {
            grid: effects::settled(s.grid).with_cx(0).newline(),
            ..s
        }),
{
    let home = s.perform(ActionState::Execute(0x0d));
    assert(home.grid == effects::settled(s.grid).with_cx(0));
    assert(home.grid.with_wrap_pending(false) == home.grid);
    assert(home.perform(ActionState::Execute(0x0a)).grid == home.grid.newline());
}

proof fn lemma_put(g: GridState, c: char, w: int)
    requires
        takes(shown_as(g, c), w),
    ensures
        g.put(c) == g.wrapped_for(w).stamp(shown_as(g, c), w).advance_cursor(w),
{
}

proof fn lemma_wrapped(g: GridState, w: int)
    requires
        g.wf(),
        1 <= w <= g.cols,
        g.wrap_pending || g.cx + w > g.cols,
    ensures
        ({
            let fed = effects::settled(g).with_cx(0).newline();
            &&& g.wrapped_for(w) == fed
            &&& fed.wrapped_for(w) == fed
            &&& fed.g0 == g.g0 && fed.g1 == g.g1 && fed.gl == g.gl
        }),
{
    let fed = effects::settled(g).with_cx(0).newline();
    lemma_newline_wrap(g.with_cx(0));
    lemma_newline_keeps(effects::settled(g).with_cx(0));
    if g.wrap_pending {
        assert(g.settle_wrap() == fed);
    } else {
        assert(effects::settled(g) == g);
    }
}

proof fn lemma_newline_keeps(g: GridState)
    ensures
        ({
            let t = g.newline();
            &&& t.cx == g.cx && t.cols == g.cols && t.wrap_pending == g.wrap_pending
            &&& t.rows == g.rows && t.pen == g.pen
            &&& t.g0 == g.g0 && t.g1 == g.g1 && t.gl == g.gl
        }),
{
}

/// A line feed goes by the text and the cursor, pending wrap or not.
proof fn lemma_newline_wrap(g: GridState)
    ensures
        g.newline().with_wrap_pending(false) == g.with_wrap_pending(false).newline(),
{
    if g.cy == g.bot {
        lemma_scroll_wrap(g);
    }
}

proof fn lemma_scroll_wrap(g: GridState)
    ensures
        g.scroll_up(1).with_wrap_pending(false) == g.with_wrap_pending(false).scroll_up(1),
{
    let n = model::min(1, g.bot - g.top + 1);
    lemma_feed_wrap(g, n);
    lemma_shift_wrap(g, n);
    lemma_shift_wrap(g.feed_history(n), n);
}

proof fn lemma_feed_wrap(g: GridState, n: int)
    ensures
        g.feed_history(n).with_wrap_pending(false) == g.with_wrap_pending(false).feed_history(n),
{
}

proof fn lemma_shift_wrap(g: GridState, n: int)
    ensures
        g.shift_up(n).with_wrap_pending(false) == g.with_wrap_pending(false).shift_up(n),
{
}

} // verus!
