//! The modes and settings of a terminal, its two screens, and what it answers.

use crate::cell::{Charset, Color, CursorShape, Pen};
use crate::effects::{self, sent};
use crate::model::GridState;
use crate::mouse::{Encoding, Tracking};
use crate::sequences::{self, ActionState, TermState};
use crate::text;
use vstd::prelude::*;

verus! {

/// A private mode that DECSET sets, or DECRST resets, changes just what it is
/// the mode of.
pub proof fn law_private_modes(s: TermState, mode: u16, on: bool)
    requires
        mode != 47,
        mode != 1047,
        mode != 1049,
    ensures
        ({
            let t = sent(s, seq![seq![mode]], seq![0x3fu8], if on { 'h' } else { 'l' });
            let g = s.grid;
            &&& t.reply == s.reply
            &&& t.grid == if mode == 1 {
                GridState { app_cursor_keys: on, ..g }
            } else if mode == 25 {
                GridState { cursor_visible: on, ..g }
            } else if mode == 1000 {
                GridState { mouse_tracking: if on { Tracking::Normal } else { Tracking::Off }, ..g }
            } else if mode == 1002 {
                GridState {
                    mouse_tracking: if on { Tracking::ButtonEvent } else { Tracking::Off },
                    ..g
                }
            } else if mode == 1003 {
                GridState {
                    mouse_tracking: if on { Tracking::AnyEvent } else { Tracking::Off },
                    ..g
                }
            } else if mode == 1006 {
                GridState { mouse_encoding: if on { Encoding::Sgr } else { Encoding::Legacy }, ..g }
            } else if mode == 1007 {
                GridState { alternate_scroll: on, ..g }
            } else if mode == 2004 {
                GridState { bracketed_paste: on, ..g }
            } else {
                g
            }
        }),
{
    lemma_mode(s, mode, on);
}

proof fn lemma_mode(s: TermState, mode: u16, on: bool)
    ensures
        ({
            let c = if on { 'h' } else { 'l' };
            let ready = s.grid.ready_for(seq![mode], seq![0x3fu8], c);
            sent(s, seq![seq![mode]], seq![0x3fu8], c) == TermState {
                grid: ready.set_private_mode(mode, on),
                ..s
            }
        }),
        mode != 47 && mode != 1047 && mode != 1049 ==> s.grid.ready_for(
            seq![mode],
            seq![0x3fu8],
            if on { 'h' } else { 'l' },
        ) == s.grid,
{
    seq![seq![mode]].lemma_flatten_one_element();
    let c = if on { 'h' } else { 'l' };
    let ready = s.grid.ready_for(seq![mode], seq![0x3fu8], c);
    reveal_with_fuel(GridState::set_modes, 3);
    assert(ready.set_modes(true, seq![mode], 1, on) == ready.set_private_mode(mode, on));
    assert(s.reply + Seq::<u8>::empty() =~= s.reply);
    assert(forall|i: int| 0 <= i < 1 ==> #[trigger] seq![mode][i] == mode);
}

/// Several modes are set or reset one after the other, as if each had been sent
/// on its own. Modes that are not private mean nothing.
pub proof fn law_modes_one_by_one(s: TermState, params: Seq<u16>, mode: u16, on: bool)
    ensures
        ({
            let c = if on { 'h' } else { 'l' };
            &&& sent(s, seq![params.push(mode)], seq![0x3fu8], c) == sent(
                sent(s, seq![params], seq![0x3fu8], c),
                seq![seq![mode]],
                seq![0x3fu8],
                c,
            )
            &&& sent(s, seq![params], Seq::empty(), c) == s
        }),
{
    let c = if on { 'h' } else { 'l' };
    let g = s.grid;
    let n = params.len() as int;
    let all = params.push(mode);
    let first = sent(s, seq![params], seq![0x3fu8], c);
    let before = g.set_modes(true, params, n, on);
    lemma_modes_sent(s, params, on);
    lemma_modes_sent(s, all, on);
    lemma_modes_sent(first, seq![mode], on);
    lemma_modes_prefix(g, params, mode, n, on);
    lemma_modes_screen(g, params, n, on);
    let wrap = first.grid.wrap_pending;
    assert(before.with_wrap_pending(wrap).set_modes(true, seq![mode], 1, on)
        == before.set_private_mode(mode, on).with_wrap_pending(wrap)) by {
        reveal_with_fuel(GridState::set_modes, 2);
        lemma_mode_wrap(before, mode, on, wrap);
    }
    assert(g.set_modes(true, all, n + 1, on) == before.set_private_mode(mode, on)) by {
        assert(all[n] == mode);
    }
    lemma_picks(params, mode);
    assert(sent(s, seq![params], Seq::empty(), c) == s) by {
        seq![params].lemma_flatten_one_element();
        assert(s.reply + Seq::<u8>::empty() =~= s.reply);
        lemma_public_modes(g, params, n, on);
    }
}

proof fn lemma_picks(params: Seq<u16>, mode: u16)
    ensures
        sequences::picks_screen(params.push(mode), seq![0x3fu8]) == (sequences::picks_screen(
            params,
            seq![0x3fu8],
        ) || sequences::is_screen_mode(mode)),
        sequences::picks_screen(seq![mode], seq![0x3fu8]) == sequences::is_screen_mode(mode),
{
    let all = params.push(mode);
    assert(seq![0x3fu8][0] == 0x3f);
    assert(seq![mode][0] == mode);
    assert(all[params.len() as int] == mode);
    assert forall|i: int| 0 <= i < params.len() implies #[trigger] all[i] == params[i] by {}
    if sequences::picks_screen(params, seq![0x3fu8]) {
        let i = choose|i: int|
            0 <= i < params.len() && sequences::is_screen_mode(#[trigger] params[i]);
        assert(sequences::is_screen_mode(all[i]));
    }
    if sequences::picks_screen(all, seq![0x3fu8]) && !sequences::is_screen_mode(mode) {
        let i = choose|i: int| 0 <= i < all.len() && sequences::is_screen_mode(#[trigger] all[i]);
        assert(sequences::is_screen_mode(params[i]));
    }
}

/// Setting a mode looks at no pending wrap and keeps it.
proof fn lemma_mode_wrap(g: GridState, mode: u16, on: bool, wrap: bool)
    ensures
        g.with_wrap_pending(wrap).set_private_mode(mode, on) == g.set_private_mode(
            mode,
            on,
        ).with_wrap_pending(wrap),
{
    if mode == 1049 || mode == 1047 || mode == 47 {
        lemma_screen_wrap(g, on, wrap);
    }
}

proof fn lemma_screen_wrap(g: GridState, on: bool, wrap: bool)
    ensures
        g.with_wrap_pending(wrap).set_alt_screen(on) == g.set_alt_screen(on).with_wrap_pending(
            wrap,
        ),
{
    if on && !g.alt_active() {
        let t = g.with_wrap_pending(wrap).set_alt_screen(on);
        let u = g.set_alt_screen(on).with_wrap_pending(wrap);
        assert(t.screen =~= u.screen);
        assert(t.parked == u.parked);
    }
}

proof fn lemma_modes_wrap(g: GridState, params: Seq<u16>, n: int, on: bool, wrap: bool)
    ensures
        g.with_wrap_pending(wrap).set_modes(true, params, n, on) == g.set_modes(
            true,
            params,
            n,
            on,
        ).with_wrap_pending(wrap),
    decreases n,
{
    if n > 0 {
        lemma_modes_wrap(g, params, n - 1, on, wrap);
        lemma_mode_wrap(g.set_modes(true, params, n - 1, on), params[n - 1], on, wrap);
    }
}

/// A change of private modes is that of the modes, and maybe the end of a
/// pending wrap.
proof fn lemma_modes_sent(s: TermState, params: Seq<u16>, on: bool)
    ensures
        ({
            let c = if on { 'h' } else { 'l' };
            let t = sent(s, seq![params], seq![0x3fu8], c);
            let quiet = !(sequences::picks_screen(params, seq![0x3fu8]) && on
                != s.grid.alt_active());
            t == TermState {
                grid: s.grid.set_modes(true, params, params.len() as int, on).with_wrap_pending(
                    quiet && s.grid.wrap_pending,
                ),
                ..s
            }
        }),
{
    let c = if on { 'h' } else { 'l' };
    let g = s.grid;
    let n = params.len() as int;
    seq![params].lemma_flatten_one_element();
    assert(s.reply + Seq::<u8>::empty() =~= s.reply);
    let quiet = g.keeps_wrap(params, seq![0x3fu8], c);
    let ready = g.ready_for(params, seq![0x3fu8], c);
    assert(ready == g.with_wrap_pending(quiet && g.wrap_pending));
    lemma_modes_wrap(g, params, n, on, quiet && g.wrap_pending);
}

/// Whether the alternate screen is up after modes were set.
proof fn lemma_modes_screen(g: GridState, params: Seq<u16>, n: int, on: bool)
    requires
        0 <= n <= params.len(),
    ensures
        g.set_modes(true, params, n, on).alt_active() == (if exists|i: int|
            0 <= i < n && sequences::is_screen_mode(#[trigger] params[i]) {
            on
        } else {
            g.alt_active()
        }),
    decreases n,
{
    if n > 0 {
        lemma_modes_screen(g, params, n - 1, on);
        if sequences::is_screen_mode(params[n - 1]) {
            assert(0 <= n - 1 < n);
        } else if exists|i: int| 0 <= i < n && sequences::is_screen_mode(#[trigger] params[i]) {
            let i = choose|i: int|
                0 <= i < n && sequences::is_screen_mode(#[trigger] params[i]);
            assert(0 <= i < n - 1 && sequences::is_screen_mode(params[i]));
        }
    }
}

proof fn lemma_modes_prefix(g: GridState, params: Seq<u16>, mode: u16, n: int, on: bool)
    requires
        n <= params.len(),
    ensures
        g.set_modes(true, params.push(mode), n, on) == g.set_modes(true, params, n, on),
    decreases n,
{
    if n > 0 {
        lemma_modes_prefix(g, params, mode, n - 1, on);
    }
}

proof fn lemma_public_modes(g: GridState, params: Seq<u16>, n: int, on: bool)
    ensures
        g.set_modes(false, params, n, on) == g,
    decreases n,
{
    if n > 0 {
        lemma_public_modes(g, params, n - 1, on);
    }
}

/// Each of the three modes of the alternate screen parks the main screen with
/// its cursor and shows an empty one from its top. Resetting one of them while
/// the main screen is shown does nothing.
pub proof fn law_entering_the_alternate_screen(s: TermState, mode: u16)
    requires
        s.grid.wf(),
        s.grid.parked is None,
        mode == 47 || mode == 1047 || mode == 1049,
    ensures
        ({
            let g = s.grid;
            let on = sent(s, seq![seq![mode]], seq![0x3fu8], 'h');
            let t = on.grid;
            &&& on.reply == s.reply
            &&& t == GridState {
                screen: t.screen,
                parked: t.parked,
                cx: 0,
                cy: 0,
                view_offset: 0,
                wrap_pending: false,
                orphaned: false,
                ..g
            }
            &&& t.parked matches Some(p)
            &&& p.screen == g.screen && p.cx == g.cx && p.cy == g.cy
            &&& t.screen.len() == g.rows
            &&& forall|y: int|
                0 <= y < g.rows ==> effects::is_blank_row(
                    #[trigger] t.screen[y],
                    g.cols,
                    Color::Default,
                )
        }),
        sent(s, seq![seq![mode]], seq![0x3fu8], 'l') == s,
{
    let g = s.grid;
    lemma_picks(Seq::empty(), mode);
    lemma_modes_sent(s, seq![mode], true);
    lemma_modes_sent(s, seq![mode], false);
    lemma_one_mode(g, mode, true);
    lemma_one_mode(g, mode, false);
    lemma_entered(g);
    assert(g.with_wrap_pending(g.wrap_pending) == g);
    assert(g.set_alt_screen(false) == g);
}

/// Resetting one of them while a program has the alternate screen brings the
/// main screen and its cursor back as they were parked. Setting one then does
/// nothing.
pub proof fn law_leaving_the_alternate_screen(s: TermState, mode: u16)
    requires
        s.grid.wf(),
        s.grid.parked is Some,
        mode == 47 || mode == 1047 || mode == 1049,
    ensures
        ({
            let p = s.grid.parked->0;
            sent(s, seq![seq![mode]], seq![0x3fu8], 'l') == TermState {
                grid: GridState {
                    screen: p.screen,
                    cx: p.cx,
                    cy: p.cy,
                    parked: None,
                    view_offset: 0,
                    wrap_pending: false,
                    ..s.grid
                },
                ..s
            }
        }),
        sent(s, seq![seq![mode]], seq![0x3fu8], 'h') == s,
{
    let g = s.grid;
    lemma_picks(Seq::empty(), mode);
    lemma_modes_sent(s, seq![mode], true);
    lemma_modes_sent(s, seq![mode], false);
    lemma_one_mode(g, mode, true);
    lemma_one_mode(g, mode, false);
    assert(g.with_wrap_pending(g.wrap_pending) == g);
    assert(g.set_alt_screen(true) == g);
}

proof fn lemma_one_mode(g: GridState, mode: u16, on: bool)
    requires
        mode == 47 || mode == 1047 || mode == 1049,
    ensures
        g.set_modes(true, seq![mode], 1, on) == g.set_alt_screen(on),
{
    reveal_with_fuel(GridState::set_modes, 2);
}

proof fn lemma_entered(g: GridState)
    requires
        g.wf(),
        g.parked is None,
    ensures
        ({
            let t = g.set_alt_screen(true).with_wrap_pending(false);
            &&& t == GridState {
                screen: t.screen,
                parked: t.parked,
                cx: 0,
                cy: 0,
                view_offset: 0,
                wrap_pending: false,
                orphaned: false,
                ..g
            }
            &&& t.parked matches Some(p)
            &&& p.screen == g.screen && p.cx == g.cx && p.cy == g.cy
            &&& t.screen.len() == g.rows
            &&& forall|y: int|
                0 <= y < g.rows ==> effects::is_blank_row(
                    #[trigger] t.screen[y],
                    g.cols,
                    Color::Default,
                )
        }),
{
}

/// DECSC saves the cursor with its pen and its character sets, and DECRC brings
/// all of it back, to a screen that may have shrunk; CSI s and CSI u do the
/// same. Without anything saved there is nothing to bring back.
pub proof fn law_saving_the_cursor(s: TermState, later: GridState, params: Seq<Seq<u16>>)
    requires
        s.grid.wf(),
        s.grid.cols <= usize::MAX,
        s.grid.rows <= usize::MAX,
        later.wf(),
        later.saved == s.perform(
            ActionState::Esc { intermediates: Seq::empty(), byte: 0x37 },
        ).grid.saved,
    ensures
        ({
            let g = s.grid;
            let saved = s.perform(ActionState::Esc { intermediates: Seq::empty(), byte: 0x37 });
            let then = TermState { grid: later, ..s };
            let back = then.perform(
                ActionState::Esc { intermediates: Seq::empty(), byte: 0x38 },
            ).grid;
            &&& saved == TermState { grid: GridState { saved: saved.grid.saved, ..g }, ..s }
            &&& back == GridState {
                cx: back.cx,
                cy: back.cy,
                pen: g.pen,
                g0: g.g0,
                g1: g.g1,
                gl: g.gl,
                ..later
            }
            &&& effects::reaches(0, g.cx, back.cx, later.cols - 1)
            &&& effects::reaches(0, g.cy, back.cy, later.rows - 1)
            &&& sent(s, params, Seq::empty(), 's').grid == saved.grid
            &&& sent(then, params, Seq::empty(), 'u').grid == effects::settled(back)
        }),
        s.grid.saved is None ==> s.perform(
            ActionState::Esc { intermediates: Seq::empty(), byte: 0x38 },
        ) == s,
{
    let g = s.grid;
    let then = TermState { grid: later, ..s };
    let back = later.restore_cursor();
    assert(sent(s, params, Seq::empty(), 's').grid == g.save_cursor());
    assert(sent(then, params, Seq::empty(), 'u').grid == effects::settled(later).restore_cursor());
    assert(effects::settled(later).restore_cursor() == effects::settled(back));
}

/// DECSCUSR chooses the shape of the cursor, blinking or not: a block by
/// default, an underline or a bar.
pub proof fn law_the_shape_of_the_cursor(s: TermState, params: Seq<Seq<u16>>)
    ensures
        ({
            let style = effects::choice_in(params);
            let shape = if style == 3 || style == 4 {
                CursorShape::Underline
            } else if style == 5 || style == 6 {
                CursorShape::Bar
            } else {
                CursorShape::Block
            };
            sent(s, params, seq![0x20u8], 'q').grid == GridState { cursor_shape: shape, ..s.grid }
        }),
{
}

/// A full reset leaves nothing of what was: an empty screen of the same size,
/// no history, and every setting as at the start.
pub proof fn law_full_reset(s: TermState)
    requires
        s.grid.wf(),
    ensures
        ({
            let u = s.perform(ActionState::Esc { intermediates: Seq::empty(), byte: 0x63 });
            let t = u.grid;
            &&& u.reply == s.reply
            &&& t.cols == s.grid.cols && t.rows == s.grid.rows
            &&& t.screen.len() == t.rows
            &&& forall|y: int|
                0 <= y < t.rows ==> effects::is_blank_row(
                    #[trigger] t.screen[y],
                    t.cols,
                    Color::Default,
                )
            &&& t.history.len() == 0 && t.trimmed == 0 && t.max_history == 10_000
            &&& t.view_offset == 0 && t.cx == 0 && t.cy == 0 && !t.wrap_pending
            &&& t.cursor_visible && t.cursor_shape == CursorShape::Block
            &&& t.pen == Pen { fg: Color::Default, bg: Color::Default, flags: 0 }
            &&& t.saved is None && t.parked is None && !t.orphaned
            &&& t.g0 == Charset::Ascii && t.g1 == Charset::Ascii && t.gl == 0
            &&& t.top == 0 && t.bot == t.rows - 1
            &&& t.title.len() == 0 && !t.bell && t.clipboard is None
            &&& !t.app_cursor_keys && !t.bracketed_paste && t.alternate_scroll
            &&& t.mouse_tracking == Tracking::Off && t.mouse_encoding == Encoding::Legacy
        }),
{
}

/// OSC 0, 1 and 2 set the title and nothing else; OSC 52 is the clipboard's, and
/// every other command does nothing.
pub proof fn law_operating_system_commands(s: TermState, parts: Seq<Seq<u8>>)
    requires
        parts.len() > 0,
    ensures
        ({
            let t = s.perform(ActionState::Osc { parts });
            let kind = parts[0];
            let titled = kind == seq![0x30u8] || kind == seq![0x31u8] || kind == seq![0x32u8];
            &&& t.reply == s.reply
            &&& titled && parts.len() > 1 ==> t.grid == GridState {
                title: text::lossy_text(parts[1]),
                ..s.grid
            }
            &&& titled && parts.len() == 1 ==> t.grid == s.grid
            &&& kind == seq![0x35u8, 0x32] ==> t.grid == GridState {
                clipboard: t.grid.clipboard,
                ..s.grid
            }
            &&& !titled && kind != seq![0x35u8, 0x32] ==> t.grid == s.grid
        }),
{
    assert(seq![0x35u8, 0x32].len() == 2);
}

/// The answers: what the terminal is, its version, and where the cursor is.
/// Nothing else is answered.
pub proof fn law_answers(s: TermState, params: Seq<Seq<u16>>, marks: Seq<u8>, c: char)
    ensures
        ({
            let answer = sent(s, params, marks, c).reply;
            let marked = |b: int| marks.len() > 0 && marks[0] == b;
            let first = effects::choice_in(params);
            if c == 'c' && marks.len() == 0 {
                answer == s.reply + seq![0x1bu8, 0x5b, 0x3f, 0x36, 0x63]
            } else if c == 'c' && marked(0x3e) {
                answer == s.reply + seq![0x1bu8, 0x5b, 0x3e, 0x30, 0x3b, 0x30, 0x3b, 0x30, 0x63]
            } else if c == 'q' && marked(0x3e) {
                answer == s.reply + seq![
                    0x1bu8, 0x50, 0x3e, 0x7c, 0x6b, 0x6f, 0x6d, 0x61, 0x28, 0x30, 0x2e, 0x31,
                    0x2e, 0x30, 0x29, 0x1b, 0x5c,
                ]
            } else if c == 'n' && !marked(0x3f) && first == 6 {
                answer == s.reply + seq![0x1bu8, 0x5b] + text::decimal((s.grid.cy + 1) as nat)
                    + seq![0x3bu8] + text::decimal((s.grid.cx + 1) as nat) + seq![0x52u8]
            } else {
                answer == s.reply
            }
        }),
{
    let answer = sent(s, params, marks, c).reply;
    let (row, column) = (
        text::decimal((s.grid.cy + 1) as nat),
        text::decimal((s.grid.cx + 1) as nat),
    );
    assert(s.reply + Seq::<u8>::empty() =~= s.reply);
    assert(s.reply + sequences::position_report(s.grid.cx, s.grid.cy) =~= s.reply
        + seq![0x1bu8, 0x5b] + row + seq![0x3bu8] + column + seq![0x52u8]);
    assert(sequences::primary_attributes() =~= seq![0x1bu8, 0x5b, 0x3f, 0x36, 0x63]);
    assert(sequences::secondary_attributes() =~= seq![
        0x1bu8, 0x5b, 0x3e, 0x30, 0x3b, 0x30, 0x3b, 0x30, 0x63,
    ]);
    assert(sequences::version_report() =~= seq![
        0x1bu8, 0x50, 0x3e, 0x7c, 0x6b, 0x6f, 0x6d, 0x61, 0x28, 0x30, 0x2e, 0x31, 0x2e, 0x30,
        0x29, 0x1b, 0x5c,
    ]);
}

/// Nothing that is printed, executed or escaped is answered.
pub proof fn law_only_control_sequences_are_answered(s: TermState, action: ActionState)
    requires
        !(action is Csi),
    ensures
        s.perform(action).reply == s.reply,
{
}

/// Whether `c` ends a control sequence that means something here.
pub open spec fn is_known(c: char) -> bool {
    ||| 'A' <= c <= 'H'
    ||| 'J' <= c <= 'M'
    ||| c == 'P' || c == 'S' || c == 'T' || c == 'X'
    ||| c == 'a' || 'c' <= c <= 'f'
    ||| c == 'h' || 'l' <= c <= 'n'
    ||| 'q' <= c <= 's' || c == 'u'
    ||| c == '@' || c == '`'
}

/// A control sequence that is not known does nothing. Those that ask something
/// only answer, and `q` chooses the cursor's shape after a space alone.
pub proof fn law_other_sequences_do_nothing(
    s: TermState,
    params: Seq<Seq<u16>>,
    marks: Seq<u8>,
    c: char,
)
    ensures
        !is_known(c) ==> sent(s, params, marks, c) == s,
        c == 'c' || c == 'n' ==> sent(s, params, marks, c).grid == s.grid,
        c == 'q' && (marks.len() == 0 || marks[0] != 0x20) ==> sent(s, params, marks, c).grid
            == s.grid,
{
    assert(s.reply + Seq::<u8>::empty() =~= s.reply);
}

/// It makes no difference which numbers of a control sequence were written as
/// sub-parameters: they are read in the order they came in.
pub proof fn law_sub_parameters_are_parameters(
    s: TermState,
    params: Seq<Seq<u16>>,
    marks: Seq<u8>,
    c: char,
)
    ensures
        sent(s, params, marks, c) == sent(s, seq![params.flatten()], marks, c),
{
    seq![params.flatten()].lemma_flatten_one_element();
}

/// Of the marks of a control sequence the first one counts. A mode is a private
/// one after a question mark, and means nothing otherwise; what moves, draws or
/// colours does so whatever the marks.
pub proof fn law_marks(
    s: TermState,
    params: Seq<Seq<u16>>,
    marks: Seq<u8>,
    others: Seq<u8>,
    c: char,
)
    ensures
        marks.len() > 0 && others.len() > 0 && marks[0] == others[0] ==> sent(s, params, marks, c)
            == sent(s, params, others, c),
        (c == 'h' || c == 'l') && (marks.len() == 0 || marks[0] != 0x3f) ==> sent(
            s,
            params,
            marks,
            c,
        ) == s,
        c != 'h' && c != 'l' && c != 'c' && c != 'n' && c != 'q' ==> sent(s, params, marks, c)
            == sent(s, params, others, c),
{
    assert(s.reply + Seq::<u8>::empty() =~= s.reply);
    if (c == 'h' || c == 'l') && (marks.len() == 0 || marks[0] != 0x3f) {
        let flat = params.flatten();
        lemma_public_modes(s.grid, flat, flat.len() as int, c == 'h');
    }
}

/// An escape sequence that is not known does nothing, nor does one with marks
/// other than those that designate a character set.
pub proof fn law_other_escapes_do_nothing(s: TermState, marks: Seq<u8>, byte: u8)
    requires
        marks.len() > 0 && marks[0] != 0x28 && marks[0] != 0x29 || marks.len() == 0 && byte != 0x37
            && byte != 0x38 && byte != 0x44 && byte != 0x45 && byte != 0x4d && byte != 0x63,
    ensures
        s.perform(ActionState::Esc { intermediates: marks, byte }) == s,
{
}

/// An operating system command without a part to say which it is does nothing.
pub proof fn law_an_empty_command_does_nothing(s: TermState)
    ensures
        s.perform(ActionState::Osc { parts: Seq::empty() }) == s,
{
}

} // verus!
