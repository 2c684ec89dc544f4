//! What each control function does to a terminal, and what it answers.

use crate::base64;
use crate::cell::{Charset, CursorShape};
use crate::model::{self, GridState};
use crate::text;
use vstd::prelude::*;

verus! {

/// One thing the parser found in the byte stream.
pub enum Action {
    Print(char),
    Execute(u8),
    /// A control sequence: its parameters, each with its sub-parameters, the
    /// bytes that mark it private or otherwise special, and its final
    /// character.
    Csi { params: Vec<Vec<u16>>, intermediates: Vec<u8>, c: char },
    Esc { intermediates: Vec<u8>, byte: u8 },
    Osc { parts: Vec<Vec<u8>> },
}

/// An [`Action`] by its contents.
pub enum ActionState {
    Print(char),
    Execute(u8),
    Csi { params: Seq<Seq<u16>>, intermediates: Seq<u8>, c: char },
    Esc { intermediates: Seq<u8>, byte: u8 },
    Osc { parts: Seq<Seq<u8>> },
}

impl View for Action {
    type V = ActionState;

    open spec fn view(&self) -> ActionState {
        match self {
            Action::Print(c) => ActionState::Print(*c),
            Action::Execute(byte) => ActionState::Execute(*byte),
            Action::Csi { params, intermediates, c } => ActionState::Csi {
                params: crate::rows::lines_of(params@),
                intermediates: intermediates@,
                c: *c,
            },
            Action::Esc { intermediates, byte } => ActionState::Esc {
                intermediates: intermediates@,
                byte: *byte,
            },
            Action::Osc { parts } => ActionState::Osc { parts: crate::rows::lines_of(parts@) },
        }
    }
}

/// The contents of each of `actions`.
pub open spec fn states(actions: Seq<Action>) -> Seq<ActionState> {
    Seq::new(actions.len(), |i: int| actions[i]@)
}

/// The largest OSC 52 payload we will decode. Three bytes of clipboard per four
/// of base64, so this is a 6 MiB copy, far past any real one, and short of
/// letting a runaway program have the heap.
pub const MAX_CLIPBOARD_BASE64: usize = 8_388_608;

/// The first intermediate byte, if there is one.
pub open spec fn marker(intermediates: Seq<u8>) -> Option<u8> {
    if intermediates.len() > 0 { Some(intermediates[0]) } else { None }
}

/// Parameter `i`, with `default` for one that is missing or zero.
pub open spec fn arg(params: Seq<u16>, i: int, default: int) -> int {
    if i < params.len() && params[i] != 0 { params[i] as int } else { default }
}

/// The first parameter, with zero for none.
pub open spec fn first(params: Seq<u16>) -> u16 {
    if params.len() > 0 { params[0] } else { 0 }
}

/// Whether `c` ends the control sequences that move the cursor or touch the
/// screen.
pub open spec fn moves_or_draws(c: char) -> bool {
    ||| c == 'A'
    ||| c == 'B'
    ||| c == 'e'
    ||| c == 'C'
    ||| c == 'a'
    ||| c == 'D'
    ||| c == 'E'
    ||| c == 'F'
    ||| c == 'G'
    ||| c == '`'
    ||| c == 'd'
    ||| c == 'H'
    ||| c == 'f'
    ||| c == 'J'
    ||| c == 'K'
    ||| c == 'L'
    ||| c == 'M'
    ||| c == 'P'
    ||| c == '@'
    ||| c == 'X'
    ||| c == 'S'
    ||| c == 'T'
    ||| c == 'r'
    ||| c == 'u'
}

/// Whether a private mode is one of those that choose between the main and
/// the alternate screen.
pub open spec fn is_screen_mode(mode: u16) -> bool {
    mode == 47 || mode == 1047 || mode == 1049
}

/// Whether the parameters of a mode change choose between the screens.
pub open spec fn picks_screen(params: Seq<u16>, intermediates: Seq<u8>) -> bool {
    marker(intermediates) == Some('?' as u8) && exists|i: int|
        0 <= i < params.len() && is_screen_mode(#[trigger] params[i])
}

/// Whether an operating system command of this kind sets the window title.
pub open spec fn is_title(kind: Seq<u8>) -> bool {
    kind == seq!['0' as u8] || kind == seq!['1' as u8] || kind == seq!['2' as u8]
}

/// Whether an operating system command of this kind sets the clipboard.
pub open spec fn is_clipboard(kind: Seq<u8>) -> bool {
    kind == seq!['5' as u8, '2' as u8]
}

/// The bytes that an OSC 52's payload puts on the clipboard. `?` asks for the
/// clipboard to be sent back and is never answered; an empty payload would
/// clear the clipboard and is ignored, as is one too long or not base64.
pub open spec fn copied(payload: Seq<u8>) -> Option<Seq<u8>> {
    if payload == seq!['?' as u8] || payload.len() == 0 || payload.len() > MAX_CLIPBOARD_BASE64 {
        None
    } else {
        base64::decoded(payload)
    }
}

/// Whether `c` ends a control sequence that scrolls lines off the region.
pub open spec fn scrolls(c: char) -> bool {
    c == 'M' || c == 'S'
}

/// XTVERSION's answer: `ESC P > | koma(0.1.0) ESC \`.
pub open spec fn version_report() -> Seq<u8> {
    seq![
        0x1bu8,
        'P' as u8,
        '>' as u8,
        '|' as u8,
        'k' as u8,
        'o' as u8,
        'm' as u8,
        'a' as u8,
        '(' as u8,
        '0' as u8,
        '.' as u8,
        '1' as u8,
        '.' as u8,
        '0' as u8,
        ')' as u8,
        0x1bu8,
        '\\' as u8,
    ]
}

/// Primary device attributes: `ESC [ ? 6 c`, a VT102.
pub open spec fn primary_attributes() -> Seq<u8> {
    seq![0x1bu8, '[' as u8, '?' as u8, '6' as u8, 'c' as u8]
}

/// Secondary device attributes: `ESC [ > 0 ; 0 ; 0 c`.
pub open spec fn secondary_attributes() -> Seq<u8> {
    seq![
        0x1bu8,
        '[' as u8,
        '>' as u8,
        '0' as u8,
        ';' as u8,
        '0' as u8,
        ';' as u8,
        '0' as u8,
        'c' as u8,
    ]
}

/// Cursor position report: `ESC [ row ; column R`, counting from one.
pub open spec fn position_report(cx: int, cy: int) -> Seq<u8> {
    ((seq![0x1bu8, '[' as u8] + text::decimal((cy + 1) as nat)).push(';' as u8) + text::decimal(
        (cx + 1) as nat,
    )).push('R' as u8)
}

/// What a control sequence is answered. A private status report wants its own
/// kind of reply and gets none: an answer in the wrong form would be taken for
/// keystrokes.
pub open spec fn csi_answer(
    grid: GridState,
    params: Seq<u16>,
    intermediates: Seq<u8>,
    c: char,
) -> Seq<u8> {
    let mark = marker(intermediates);
    if c == 'q' && mark == Some('>' as u8) {
        version_report()
    } else if c == 'n' && mark != Some('?' as u8) && params.len() > 0 && params[0] == 6 {
        position_report(grid.cx, grid.cy)
    } else if c == 'c' && mark is None {
        primary_attributes()
    } else if c == 'c' && mark == Some('>' as u8) {
        secondary_attributes()
    } else {
        Seq::empty()
    }
}

/// The shape that DECSCUSR selects.
pub open spec fn shape_for(style: u16) -> CursorShape {
    if style == 3 || style == 4 {
        CursorShape::Underline
    } else if style == 5 || style == 6 {
        CursorShape::Bar
    } else {
        CursorShape::Block
    }
}

impl GridState {
    pub open spec fn cursor_up(self, n: int) -> GridState {
        self.with_cy(model::monus(self.cy, n))
    }

    pub open spec fn cursor_down(self, n: int) -> GridState {
        self.with_cy(model::min(self.cy + n, self.rows - 1))
    }

    pub open spec fn cursor_right(self, n: int) -> GridState {
        self.with_cx(model::min(self.cx + n, self.cols - 1))
    }

    pub open spec fn cursor_left(self, n: int) -> GridState {
        self.with_cx(model::monus(self.cx, n))
    }

    /// The cursor in column `n`, counting from one.
    pub open spec fn cursor_column(self, n: int) -> GridState {
        self.with_cx(model::min(n - 1, self.cols - 1))
    }

    /// The cursor on row `n`, counting from one.
    pub open spec fn cursor_row(self, n: int) -> GridState {
        self.with_cy(model::min(n - 1, self.rows - 1))
    }

    /// DECSTBM: the scroll region set to rows `first` to `last`, counting
    /// from one, and the cursor sent home. Ignored where that is no region of
    /// at least two rows on the screen.
    pub open spec fn set_region(self, first: int, last: int) -> GridState {
        if first < last <= self.rows {
            GridState { top: first - 1, bot: last - 1, cx: 0, cy: first - 1, ..self }
        } else {
            self
        }
    }

    /// The last row that DECSTBM names; a missing one stands for the bottom
    /// of the screen, in the sixteen bits that a parameter has.
    pub open spec fn region_end(self, params: Seq<u16>) -> int {
        if params.len() > 1 && params[1] != 0 { params[1] as int } else { self.rows % 0x1_0000 }
    }

    pub open spec fn with_cursor_shape(self, cursor_shape: CursorShape) -> GridState {
        GridState { cursor_shape, ..self }
    }

    /// What a control sequence does to the screen, a pending wrap aside.
    pub open spec fn csi_effect(
        self,
        params: Seq<u16>,
        intermediates: Seq<u8>,
        c: char,
    ) -> GridState {
        let n = arg(params, 0, 1);
        let private = marker(intermediates) == Some('?' as u8);
        if c == 'A' {
            self.cursor_up(n)
        } else if c == 'B' || c == 'e' {
            self.cursor_down(n)
        } else if c == 'C' || c == 'a' {
            self.cursor_right(n)
        } else if c == 'D' {
            self.cursor_left(n)
        } else if c == 'E' {
            self.with_cx(0).cursor_down(n)
        } else if c == 'F' {
            self.with_cx(0).cursor_up(n)
        } else if c == 'G' || c == '`' {
            self.cursor_column(n)
        } else if c == 'd' {
            self.cursor_row(n)
        } else if c == 'H' || c == 'f' {
            self.cursor_row(n).cursor_column(arg(params, 1, 1))
        } else if c == 'J' {
            self.erase_in_display(first(params))
        } else if c == 'K' {
            self.erase_in_line(first(params))
        } else if c == 'L' {
            self.insert_lines(n)
        } else if c == 'M' {
            self.delete_lines(n)
        } else if c == 'P' {
            self.delete_chars(n)
        } else if c == '@' {
            self.insert_blanks(n)
        } else if c == 'X' {
            self.erase_chars(n)
        } else if c == 'S' {
            self.scroll_up(n)
        } else if c == 'T' {
            self.scroll_down(n)
        } else if c == 'm' {
            self.sgr(params)
        } else if c == 'h' {
            self.set_modes(private, params, params.len() as int, true)
        } else if c == 'l' {
            self.set_modes(private, params, params.len() as int, false)
        } else if c == 'r' {
            self.set_region(n, self.region_end(params))
        } else if c == 's' {
            self.save_cursor()
        } else if c == 'u' {
            self.restore_cursor()
        } else if c == 'q' && marker(intermediates) == Some(' ' as u8) {
            self.with_cursor_shape(shape_for(first(params)))
        } else {
            self
        }
    }

    /// A control sequence. One that moves the cursor or touches the screen
    /// drops a pending wrap; the others leave it, or a colour change in the
    /// last column, or the cursor being hidden there, would make the next
    /// character overwrite that cell.
    pub open spec fn csi(self, params: Seq<u16>, intermediates: Seq<u8>, c: char) -> GridState {
        self.ready_for(params, intermediates, c).csi_effect(params, intermediates, c)
    }

    /// Whether a mode change switches to the other screen.
    pub open spec fn switches_screen(
        self,
        params: Seq<u16>,
        intermediates: Seq<u8>,
        c: char,
    ) -> bool {
        (c == 'h' || c == 'l') && picks_screen(params, intermediates) && (c == 'h')
            != self.alt_active()
    }

    /// Whether a control sequence leaves the cursor and the screens alone, and
    /// so a pending wrap too. Modes do, short of one that switches the screen;
    /// so do colours, reports, a saved cursor, and whatever isn't known.
    pub open spec fn keeps_wrap(
        self,
        params: Seq<u16>,
        intermediates: Seq<u8>,
        c: char,
    ) -> bool {
        !moves_or_draws(c) && !self.switches_screen(params, intermediates, c)
    }

    /// A pending wrap kept or dropped, as a control sequence is about to be
    /// carried out.
    pub open spec fn ready_for(
        self,
        params: Seq<u16>,
        intermediates: Seq<u8>,
        c: char,
    ) -> GridState {
        if self.keeps_wrap(params, intermediates, c) {
            self
        } else {
            self.with_wrap_pending(false)
        }
    }

    pub open spec fn with_g0(self, g0: Charset) -> GridState {
        GridState { g0, ..self }
    }

    pub open spec fn with_g1(self, g1: Charset) -> GridState {
        GridState { g1, ..self }
    }

    pub open spec fn with_gl(self, gl: int) -> GridState {
        GridState { gl, ..self }
    }

    /// RI: the cursor one row up, scrolling at the top of the region.
    pub open spec fn reverse_index(self) -> GridState {
        if self.cy == self.top { self.scroll_down(1) } else { self.cursor_up(1) }
    }

    /// A plain escape sequence. `ESC ( x` designates a character set as G0
    /// and `ESC ) x` as G1; `0` is DEC Special Graphics and anything else is
    /// close enough to ASCII to treat as such.
    pub open spec fn esc(self, intermediates: Seq<u8>, byte: u8) -> GridState {
        let set = if byte == '0' as u8 { Charset::DecGraphics } else { Charset::Ascii };
        if marker(intermediates) == Some('(' as u8) {
            self.with_g0(set)
        } else if marker(intermediates) == Some(')' as u8) {
            self.with_g1(set)
        } else if intermediates.len() > 0 {
            self
        } else if byte == 'D' as u8 {
            self.newline()
        } else if byte == 'E' as u8 {
            self.next_line()
        } else if byte == 'M' as u8 {
            self.reverse_index()
        } else if byte == '7' as u8 {
            self.save_cursor()
        } else if byte == '8' as u8 {
            self.restore_cursor()
        } else if byte == 'c' as u8 {
            GridState::fresh(self.cols, self.rows)
        } else {
            self
        }
    }

    /// HT: the cursor at the next multiple of eight columns.
    pub open spec fn tab(self) -> GridState {
        self.with_cx(model::min((self.cx / 8 + 1) * 8, self.cols - 1))
    }

    pub open spec fn with_bell(self, bell: bool) -> GridState {
        GridState { bell, ..self }
    }

    /// A single control byte.
    pub open spec fn execute(self, byte: u8) -> GridState {
        let settled = self.with_wrap_pending(false);
        if byte == 0x0a || byte == 0x0b || byte == 0x0c {
            settled.newline()
        } else if byte == 0x0d {
            settled.with_cx(0)
        } else if byte == 0x08 {
            settled.cursor_left(1)
        } else if byte == 0x09 {
            settled.tab()
        } else if byte == 0x07 {
            self.with_bell(true)
        } else if byte == 0x0e {
            self.with_gl(1)
        } else if byte == 0x0f {
            self.with_gl(0)
        } else {
            self
        }
    }

    pub open spec fn with_title(self, title: Seq<char>) -> GridState {
        GridState { title, ..self }
    }

    pub open spec fn with_clipboard(self, text: Seq<char>) -> GridState {
        GridState { clipboard: Some(text), ..self }
    }

    /// OSC 52's payload put on the clipboard.
    pub open spec fn set_clipboard(self, payload: Seq<u8>) -> GridState {
        match copied(payload) {
            Some(bytes) => self.with_clipboard(text::lossy_text(bytes)),
            None => self,
        }
    }

    /// An operating system command: OSC 0, 1 and 2 set the window title, and
    /// OSC 52 the clipboard.
    pub open spec fn osc(self, params: Seq<Seq<u8>>) -> GridState {
        if params.len() == 0 {
            self
        } else if is_title(params[0]) {
            if params.len() > 1 { self.with_title(text::lossy_text(params[1])) } else { self }
        } else if is_clipboard(params[0]) {
            self.set_clipboard(if params.len() > 2 { params[2] } else { Seq::empty() })
        } else {
            self
        }
    }
}

impl GridState {
    /// Whether every line that `action` can scroll off can still be counted in
    /// a machine word.
    pub open spec fn has_room_for(self, action: ActionState) -> bool {
        match action {
            ActionState::Print(c) => self.has_room(2),
            ActionState::Execute(byte) => 0x0a <= byte <= 0x0c ==> self.has_room(1),
            ActionState::Csi { params, intermediates, c } => scrolls(c) ==> self.has_room(
                self.rows,
            ),
            ActionState::Esc { intermediates, byte } => (byte == 'D' as u8 || byte == 'E' as u8)
                ==> self.has_room(1),
            ActionState::Osc { parts } => true,
        }
    }

    proof fn lemma_modes_total(self, private: bool, params: Seq<u16>, count: int, enable: bool)
        ensures
            self.set_modes(private, params, count, enable).total() == self.total(),
            self.set_modes(private, params, count, enable).rows == self.rows,
        decreases count,
    {
        if count > 0 {
            self.lemma_modes_total(private, params, count - 1, enable);
        }
    }

    proof fn lemma_csi_total(self, params: Seq<u16>, intermediates: Seq<u8>, c: char)
        requires
            self.wf(),
        ensures
            self.csi(params, intermediates, c).total() <= self.total() + self.rows,
            self.csi(params, intermediates, c).rows == self.rows,
    {
        let n = arg(params, 0, 1);
        let settled = self.with_wrap_pending(false);
        if c == 'M' && self.top <= self.cy <= self.bot {
            settled.with_top(self.cy).lemma_scroll_up_total(n);
        } else if c == 'S' {
            settled.lemma_scroll_up_total(n);
        } else if c == 'h' || c == 'l' {
            let private = marker(intermediates) == Some('?' as u8);
            self.ready_for(params, intermediates, c).lemma_modes_total(
                private,
                params,
                params.len() as int,
                c == 'h',
            );
        }
    }

    proof fn lemma_execute_total(self, byte: u8)
        requires
            self.wf(),
        ensures
            self.execute(byte).total() <= self.total() + 1,
            self.execute(byte).rows == self.rows,
    {
        self.with_wrap_pending(false).lemma_newline_total();
    }

    proof fn lemma_esc_total(self, intermediates: Seq<u8>, byte: u8)
        requires
            self.wf(),
        ensures
            self.esc(intermediates, byte).total() <= self.total() + 1,
            self.esc(intermediates, byte).rows == self.rows,
    {
        self.lemma_newline_total();
        self.with_cx(0).lemma_newline_total();
    }

    proof fn lemma_put_total(self, c: char)
        requires
            self.wf(),
        ensures
            self.put(c).total() <= self.total() + 2,
            self.put(c).rows == self.rows,
    {
        let glyph = crate::cell::charset_char(self.charset(), c);
        let w = crate::width::columns(glyph);
        self.with_cx(0).lemma_newline_total();
        self.with_cx(0).lemma_newline_wf();
        let ready = self.settle_wrap();
        assert(ready.wf());
        ready.with_cx(0).lemma_newline_total();
    }
}

/// A terminal and the bytes it wants to send back to the program.
pub struct TermState {
    pub grid: GridState,
    pub reply: Seq<u8>,
}

impl TermState {
    /// One action carried out.
    pub open spec fn perform(self, action: ActionState) -> TermState {
        match action {
            ActionState::Print(c) => TermState { grid: self.grid.put(c), ..self },
            ActionState::Execute(byte) => TermState { grid: self.grid.execute(byte), ..self },
            ActionState::Csi { params, intermediates, c } => TermState {
                grid: self.grid.csi(params.flatten(), intermediates, c),
                reply: self.reply + csi_answer(self.grid, params.flatten(), intermediates, c),
            },
            ActionState::Esc { intermediates, byte } => TermState {
                grid: self.grid.esc(intermediates, byte),
                ..self
            },
            ActionState::Osc { parts } => TermState { grid: self.grid.osc(parts), ..self },
        }
    }

    /// One action adds at most one line more than the screen has to the
    /// lines counted, and keeps the number of rows.
    pub proof fn lemma_perform_total(self, action: ActionState)
        requires
            self.grid.wf(),
        ensures
            self.perform(action).grid.total() <= self.grid.total() + self.grid.rows + 1,
            self.perform(action).grid.rows == self.grid.rows,
    {
        match action {
            ActionState::Print(c) => self.grid.lemma_put_total(c),
            ActionState::Execute(byte) => self.grid.lemma_execute_total(byte),
            ActionState::Csi { params, intermediates, c } => self.grid.lemma_csi_total(
                params.flatten(),
                intermediates,
                c,
            ),
            ActionState::Esc { intermediates, byte } => self.grid.lemma_esc_total(
                intermediates,
                byte,
            ),
            ActionState::Osc { parts } => {},
        }
    }

    /// The first `count` of `actions` carried out in order.
    pub open spec fn perform_all(self, actions: Seq<ActionState>, count: int) -> TermState
        decreases count,
    {
        if count <= 0 {
            self
        } else {
            self.perform_all(actions, count - 1).perform(actions[count - 1])
        }
    }

    /// The first `count` of `actions` carried out in order, save those for
    /// which there is no room when their turn comes.
    pub open spec fn perform_fitting(self, actions: Seq<ActionState>, count: int) -> TermState
        decreases count,
    {
        if count <= 0 {
            self
        } else {
            self.perform_fitting(actions, count - 1).attempt(actions[count - 1])
        }
    }

    /// One action carried out if there is room for it.
    #[verifier::opaque]
    pub open spec fn attempt(self, action: ActionState) -> TermState {
        if self.grid.has_room_for(action) { self.perform(action) } else { self }
    }

    /// Where there is room for `count` more of the longest actions, there is
    /// room for the next one, and after it for the others.
    pub proof fn lemma_ample_room(self, action: ActionState, count: int)
        requires
            self.grid.wf(),
            1 <= count,
            self.grid.has_room(count * (self.grid.rows + 1)),
        ensures
            self.grid.has_room_for(action),
            self.attempt(action).grid.has_room((count - 1) * (self.grid.rows + 1)),
    {
        reveal(TermState::attempt);
        let each = self.grid.rows + 1;
        assert(count * each == (count - 1) * each + each && 0 <= (count - 1) * each)
            by (nonlinear_arith)
            requires
                1 <= count,
                2 <= each,
        ;
        self.lemma_perform_total(action);
    }

    /// An attempt keeps the number of rows.
    pub proof fn lemma_attempt_rows(self, action: ActionState)
        requires
            self.grid.wf(),
        ensures
            self.attempt(action).grid.rows == self.grid.rows,
    {
        reveal(TermState::attempt);
        self.lemma_perform_total(action);
    }

    /// Whether the character that `action` prints, if any, is known to take one
    /// column where it comes out as printable ASCII.
    pub open spec fn prints_narrow(self, action: ActionState) -> bool {
        action matches ActionState::Print(c) ==> self.grid.ascii_is_narrow(c)
    }

    /// Whether that holds of each of the first `count` of `actions` that is
    /// carried out, when its turn comes.
    pub open spec fn all_print_narrow(self, actions: Seq<ActionState>, count: int) -> bool {
        forall|i: int|
            0 <= i < count && (#[trigger] self.perform_fitting(actions, i)).grid.has_room_for(
                actions[i],
            ) ==> self.perform_fitting(actions, i).prints_narrow(actions[i])
    }

    /// Whether there is room for each of the first `count` of `actions`.
    pub open spec fn all_fit(self, actions: Seq<ActionState>, count: int) -> bool
        decreases count,
    {
        count <= 0 || (self.all_fit(actions, count - 1) && self.perform_fitting(
            actions,
            count - 1,
        ).grid.has_room_for(actions[count - 1]))
    }

    /// Where there is room for all of them, all of them are carried out.
    pub proof fn law_what_fits_is_carried_out(self, actions: Seq<ActionState>, count: int)
        requires
            self.all_fit(actions, count),
        ensures
            self.perform_fitting(actions, count) == self.perform_all(actions, count),
        decreases count,
    {
        if count > 0 {
            reveal(TermState::attempt);
            self.law_what_fits_is_carried_out(actions, count - 1);
        }
    }
}

} // verus!
