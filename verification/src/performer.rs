//! Carrying out what the parser finds: control functions on the grid, and the
//! answers that go back to the program.

use crate::base64::decode_base64;
use crate::cell::{Charset, CursorShape};
use crate::grid::Grid;
use crate::model::{self, GridState};
use crate::rows;
use crate::sequences::{self, Action, ActionState, TermState, MAX_CLIPBOARD_BASE64};
use crate::text::{from_utf8_lossy, push_bytes, push_decimal};
use vstd::prelude::*;
use vstd::utf8::{decode_utf8, valid_utf8};

verus! {

/// The first intermediate byte, if there is one.
fn marker(intermediates: &[u8]) -> (mark: Option<u8>)
    ensures
        mark == sequences::marker(intermediates@),
{
    if intermediates.len() > 0 { Some(intermediates[0]) } else { None }
}

fn is_marked(intermediates: &[u8], mark: u8) -> (yes: bool)
    ensures
        yes == (sequences::marker(intermediates@) == Some(mark)),
{
    intermediates.len() > 0 && intermediates[0] == mark
}

/// Whether the parameters of a mode change choose between the screens.
fn picks_screen(params: &[u16], intermediates: &[u8]) -> (yes: bool)
    ensures
        yes == sequences::picks_screen(params@, intermediates@),
{
    if !is_marked(intermediates, '?' as u8) {
        return false;
    }
    let mut i: usize = 0;
    while i < params.len()
        invariant
            i <= params@.len(),
            sequences::marker(intermediates@) == Some('?' as u8),
            forall|j: int| 0 <= j < i ==> !sequences::is_screen_mode(#[trigger] params@[j]),
        decreases params.len() - i,
    {
        if params[i] == 47 || params[i] == 1047 || params[i] == 1049 {
            assert(sequences::is_screen_mode(params@[i as int]));
            return true;
        }
        i = i + 1;
    }
    false
}

fn arg(params: &[u16], i: usize, default: usize) -> (value: usize)
    ensures
        value == sequences::arg(params@, i as int, default as int),
{
    if i < params.len() && params[i] != 0 { params[i] as usize } else { default }
}

fn first(params: &[u16]) -> (value: u16)
    ensures
        value == sequences::first(params@),
{
    if params.len() > 0 { params[0] } else { 0 }
}

/// Whether two byte strings are the same.
fn same_bytes(a: &[u8], b: &[u8]) -> (same: bool)
    ensures
        same == (a@ == b@),
{
    if a.len() != b.len() {
        return false;
    }
    let mut i: usize = 0;
    while i < a.len()
        invariant
            a@.len() == b@.len(),
            i <= a@.len(),
            forall|j: int| 0 <= j < i ==> a@[j] == b@[j],
        decreases a.len() - i,
    {
        if a[i] != b[i] {
            return false;
        }
        i = i + 1;
    }
    assert(a@ =~= b@);
    true
}

/// Whether `bytes` is the single byte `b`.
fn is_byte(bytes: &[u8], b: u8) -> (yes: bool)
    ensures
        yes == (bytes@ == seq![b]),
{
    if bytes.len() == 1 && bytes[0] == b {
        assert(bytes@ =~= seq![b]);
        true
    } else {
        false
    }
}

/// Flattens parameters to plain numbers; sub-parameters (`38:2:...`) are rare
/// enough that treating them as separate parameters is good enough here.
fn flatten(params: &[Vec<u16>]) -> (flat: Vec<u16>)
    ensures
        flat@ == rows::lines_of(params@).flatten(),
{
    let ghost groups = rows::lines_of(params@);
    let mut flat: Vec<u16> = Vec::new();
    let mut i: usize = 0;
    assert(groups.take(0).flatten() =~= Seq::<u16>::empty());
    while i < params.len()
        invariant
            i <= params.len(),
            groups == rows::lines_of(params@),
            flat@ == groups.take(i as int).flatten(),
        decreases params.len() - i,
    {
        let group = &params[i];
        let ghost before = flat@;
        flat.extend_from_slice(group.as_slice());
        assert(flat@ =~= before + group@);
        proof {
            let head = groups.take(i as int);
            assert(groups.take(i + 1) =~= head.push(group@));
            head.lemma_flatten_push(group@);
        }
        i = i + 1;
    }
    assert(groups.take(params@.len() as int) =~= groups);
    flat
}

/// The shape that DECSCUSR selects.
fn shape_for(style: u16) -> (shape: CursorShape)
    ensures
        shape == sequences::shape_for(style),
{
    match style {
        3 | 4 => CursorShape::Underline,
        5 | 6 => CursorShape::Bar,
        _ => CursorShape::Block,
    }
}

impl Grid {
    pub fn cursor_up(&mut self, n: usize)
        requires
            old(self).wf(),
        ensures
            final(self).wf(),
            final(self)@ == old(self)@.cursor_up(n as int),
    {
        self.set_cy(if n < self.cy { self.cy - n } else { 0 });
    }

    pub fn cursor_down(&mut self, n: usize)
        requires
            old(self).wf(),
        ensures
            final(self).wf(),
            final(self)@ == old(self)@.cursor_down(n as int),
    {
        let room: usize = self.rows - 1 - self.cy;
        self.set_cy(self.cy + if n < room { n } else { room });
    }

    pub fn cursor_right(&mut self, n: usize)
        requires
            old(self).wf(),
        ensures
            final(self).wf(),
            final(self)@ == old(self)@.cursor_right(n as int),
    {
        let room: usize = self.cols - 1 - self.cx;
        self.set_cx(self.cx + if n < room { n } else { room });
    }

    pub fn cursor_left(&mut self, n: usize)
        requires
            old(self).wf(),
        ensures
            final(self).wf(),
            final(self)@ == old(self)@.cursor_left(n as int),
    {
        self.set_cx(if n < self.cx { self.cx - n } else { 0 });
    }

    /// Moves the cursor to column `n`, counting from one.
    pub fn cursor_column(&mut self, n: usize)
        requires
            old(self).wf(),
            1 <= n,
        ensures
            final(self).wf(),
            final(self)@ == old(self)@.cursor_column(n as int),
    {
        self.set_cx(if n < self.cols { n - 1 } else { self.cols - 1 });
    }

    /// Moves the cursor to row `n`, counting from one.
    pub fn cursor_row(&mut self, n: usize)
        requires
            old(self).wf(),
            1 <= n,
        ensures
            final(self).wf(),
            final(self)@ == old(self)@.cursor_row(n as int),
    {
        self.set_cy(if n < self.rows { n - 1 } else { self.rows - 1 });
    }

    /// Sets the scroll region to rows `first` to `last`, counting from one.
    pub fn set_region(&mut self, first: usize, last: usize)
        requires
            old(self).wf(),
            1 <= first,
        ensures
            final(self).wf(),
            final(self)@ == old(self)@.set_region(first as int, last as int),
    {
        if first >= last || last > self.rows {
            return;
        }
        self.top = first - 1;
        self.bot = last - 1;
        self.cx = 0;
        self.cy = first - 1;
    }

    fn region_end(&self, params: &[u16]) -> (last: usize)
        ensures
            last == self@.region_end(params@),
    {
        if params.len() > 1 && params[1] != 0 { params[1] as usize } else { self.rows % 0x1_0000 }
    }

    fn set_cursor_shape(&mut self, shape: CursorShape)
        requires
            old(self).wf(),
        ensures
            final(self).wf(),
            final(self)@ == old(self)@.with_cursor_shape(shape),
    {
        self.cursor_shape = shape;
    }

    fn set_g0(&mut self, set: Charset)
        requires
            old(self).wf(),
        ensures
            final(self).wf(),
            final(self)@ == old(self)@.with_g0(set),
    {
        self.g0 = set;
    }

    fn set_g1(&mut self, set: Charset)
        requires
            old(self).wf(),
        ensures
            final(self).wf(),
            final(self)@ == old(self)@.with_g1(set),
    {
        self.g1 = set;
    }

    fn set_gl(&mut self, gl: usize)
        requires
            old(self).wf(),
            gl < 2,
        ensures
            final(self).wf(),
            final(self)@ == old(self)@.with_gl(gl as int),
    {
        self.gl = gl;
    }

    pub fn set_bell(&mut self, bell: bool)
        requires
            old(self).wf(),
        ensures
            final(self).wf(),
            final(self)@ == old(self)@.with_bell(bell),
    {
        self.bell = bell;
    }

    pub fn set_title(&mut self, title: String)
        requires
            old(self).wf(),
        ensures
            final(self).wf(),
            final(self)@ == old(self)@.with_title(title@),
    {
        self.title = title;
    }

    pub fn set_pending_clipboard(&mut self, text: String)
        requires
            old(self).wf(),
        ensures
            final(self).wf(),
            final(self)@ == old(self)@.with_clipboard(text@),
    {
        self.pending_clipboard = Some(text);
    }

    /// Everything back to how it was at the start.
    fn full_reset(&mut self)
        requires
            old(self).wf(),
        ensures
            final(self).wf(),
            final(self)@ == GridState::fresh(old(self)@.cols, old(self)@.rows),
    {
        proof {
            rows::lemma_rect_fits(self.cells@, self.cols as int, self.rows as int);
        }
        *self = Grid::new(self.cols, self.rows);
    }

    pub fn reverse_index(&mut self)
        requires
            old(self).wf(),
        ensures
            final(self).wf(),
            final(self)@ == old(self)@.reverse_index(),
    {
        if self.cy == self.top {
            self.scroll_down(1);
        } else {
            self.cursor_up(1);
        }
    }

    pub fn tab(&mut self)
        requires
            old(self).wf(),
        ensures
            final(self).wf(),
            final(self)@ == old(self)@.tab(),
    {
        let step: usize = 8 - self.cx % 8;
        let room: usize = self.cols - 1 - self.cx;
        self.set_cx(self.cx + if step < room { step } else { room });
    }

    /// Carries out a single control byte.
    pub fn execute(&mut self, byte: u8)
        requires
            old(self).wf(),
            old(self)@.has_room_for(ActionState::Execute(byte)),
        ensures
            final(self).wf(),
            final(self)@ == old(self)@.execute(byte),
    {
        match byte {
            0x0a | 0x0b | 0x0c => {
                self.set_wrap_pending(false);
                self.newline();
            },
            0x0d => {
                self.set_wrap_pending(false);
                self.set_cx(0);
            },
            0x08 => {
                self.set_wrap_pending(false);
                self.cursor_left(1);
            },
            0x09 => {
                self.set_wrap_pending(false);
                self.tab();
            },
            0x07 => self.set_bell(true),
            // Shift Out / Shift In: swap which designated set is printable.
            0x0e => self.set_gl(1),
            0x0f => self.set_gl(0),
            _ => {},
        }
    }

    /// Carries out a plain escape sequence.
    pub fn esc(&mut self, intermediates: &[u8], byte: u8)
        requires
            old(self).wf(),
            old(self)@.has_room_for((ActionState::Esc { intermediates: intermediates@, byte })),
        ensures
            final(self).wf(),
            final(self)@ == old(self)@.esc(intermediates@, byte),
    {
        let set = if byte == '0' as u8 { Charset::DecGraphics } else { Charset::Ascii };
        if is_marked(intermediates, '(' as u8) {
            self.set_g0(set);
        } else if is_marked(intermediates, ')' as u8) {
            self.set_g1(set);
        } else if intermediates.len() == 0 {
            if byte == 'D' as u8 {
                self.newline();
            } else if byte == 'E' as u8 {
                self.next_line();
            } else if byte == 'M' as u8 {
                self.reverse_index();
            } else if byte == '7' as u8 {
                self.save_cursor();
            } else if byte == '8' as u8 {
                self.restore_cursor();
            } else if byte == 'c' as u8 {
                self.full_reset();
            }
        }
    }

    /// Carries out a control sequence, a pending wrap aside.
    fn csi_effect(&mut self, params: &[u16], intermediates: &[u8], c: char)
        requires
            old(self).wf(),
            sequences::scrolls(c) ==> old(self)@.has_room(old(self).rows as int),
        ensures
            final(self).wf(),
            final(self)@ == old(self)@.csi_effect(params@, intermediates@, c),
    {
        let n: usize = arg(params, 0, 1);
        match c {
            'A' => self.cursor_up(n),
            'B' | 'e' => self.cursor_down(n),
            'C' | 'a' => self.cursor_right(n),
            'D' => self.cursor_left(n),
            'E' => {
                self.set_cx(0);
                self.cursor_down(n);
            },
            'F' => {
                self.set_cx(0);
                self.cursor_up(n);
            },
            'G' | '`' => self.cursor_column(n),
            'd' => self.cursor_row(n),
            'H' | 'f' => {
                self.cursor_row(n);
                self.cursor_column(arg(params, 1, 1));
            },
            'J' => self.erase_in_display(first(params)),
            'K' => self.erase_in_line(first(params)),
            'L' => self.insert_lines(n),
            'M' => self.delete_lines(n),
            'P' => self.delete_chars(n),
            '@' => self.insert_blanks(n),
            'X' => self.erase_chars(n),
            'S' => self.scroll_up(n),
            'T' => self.scroll_down(n),
            'm' => self.sgr(params),
            'h' => self.set_mode(is_marked(intermediates, '?' as u8), params, true),
            'l' => self.set_mode(is_marked(intermediates, '?' as u8), params, false),
            'r' => {
                let last: usize = self.region_end(params);
                self.set_region(n, last);
            },
            's' => self.save_cursor(),
            'u' => self.restore_cursor(),
            'q' => if is_marked(intermediates, ' ' as u8) {
                self.set_cursor_shape(shape_for(first(params)));
            },
            _ => {},
        }
    }

    /// Whether a control sequence leaves the cursor and the screens alone.
    fn keeps_wrap(&self, params: &[u16], intermediates: &[u8], c: char) -> (yes: bool)
        requires
            self.wf(),
        ensures
            yes == self@.keeps_wrap(params@, intermediates@, c),
    {
        match c {
            'A' | 'B' | 'e' | 'C' | 'a' | 'D' | 'E' | 'F' | 'G' | '`' | 'd' | 'H' | 'f' | 'J'
            | 'K' | 'L' | 'M' | 'P' | '@' | 'X' | 'S' | 'T' | 'r' | 'u' => false,
            'h' => self.alt_active || !picks_screen(params, intermediates),
            'l' => !self.alt_active || !picks_screen(params, intermediates),
            _ => true,
        }
    }

    /// Carries out a control sequence.
    pub fn csi(&mut self, params: &[u16], intermediates: &[u8], c: char)
        requires
            old(self).wf(),
            sequences::scrolls(c) ==> old(self)@.has_room(old(self).rows as int),
        ensures
            final(self).wf(),
            final(self)@ == old(self)@.csi(params@, intermediates@, c),
    {
        // Sequences that neither move the cursor nor touch the screen must
        // leave a pending wrap intact, otherwise "last column" followed by an
        // SGR change would overwrite the final cell instead of wrapping.
        if !self.keeps_wrap(params, intermediates, c) {
            self.set_wrap_pending(false);
        }
        self.csi_effect(params, intermediates, c);
    }

    /// The payload of an OSC 52.
    ///
    /// `?` asks us to send the clipboard *back*, and we never answer it: that
    /// would hand whatever the user last copied, a password most likely, to
    /// whatever is running on the far end of an ssh session, for the asking.
    /// Writes are honoured, reads are not. Valid UTF-8 arrives as the text it
    /// is.
    pub fn set_clipboard(&mut self, payload: &[u8])
        requires
            old(self).wf(),
        ensures
            final(self).wf(),
            final(self)@ == old(self)@.set_clipboard(payload@),
            sequences::copied(payload@) matches Some(bytes) ==> (valid_utf8(bytes)
                ==> final(self)@.clipboard == Some(decode_utf8(bytes))),
    {
        // An empty payload is xterm's "clear the selection". Wiping the local
        // clipboard on a remote program's say-so is the sort of thing you only
        // notice by pasting the wrong thing, so it is a no-op here.
        if is_byte(payload, '?' as u8) || payload.len() == 0 {
            return;
        }
        if payload.len() > MAX_CLIPBOARD_BASE64 {
            return;
        }
        if let Some(bytes) = decode_base64(payload) {
            self.set_pending_clipboard(from_utf8_lossy(bytes.as_slice()));
        }
    }

    /// Carries out an operating system command. A title or a copied text that
    /// is valid UTF-8 arrives as it is.
    pub fn osc(&mut self, params: &[Vec<u8>])
        requires
            old(self).wf(),
        ensures
            final(self).wf(),
            final(self)@ == old(self)@.osc(rows::lines_of(params@)),
            params@.len() > 1 && sequences::is_title(params@[0]@) && valid_utf8(params@[1]@)
                ==> final(self)@.title == decode_utf8(params@[1]@),
            params@.len() > 2 && sequences::is_clipboard(params@[0]@) ==> (sequences::copied(
                params@[2]@,
            ) matches Some(bytes) ==> (valid_utf8(bytes) ==> final(self)@.clipboard == Some(
                decode_utf8(bytes),
            ))),
    {
        if params.len() == 0 {
            return;
        }
        let ghost views = rows::lines_of(params@);
        let kind = params[0].as_slice();
        assert(kind@ == views[0]);
        // OSC 0/1/2 all set (some flavour of) the window title.
        if is_byte(kind, '0' as u8) || is_byte(kind, '1' as u8) || is_byte(kind, '2' as u8) {
            if params.len() > 1 {
                let title = params[1].as_slice();
                assert(title@ == views[1]);
                self.set_title(from_utf8_lossy(title));
            }
            return;
        }
        // OSC 52: put this on the clipboard. The selection it names (`c`, `p`,
        // a cut buffer, or nothing at all, which is what tmux sends) is
        // ignored, because there is only one clipboard here to write to.
        let clipboard: Vec<u8> = vec!['5' as u8, '2' as u8];
        assert(clipboard@ =~= seq!['5' as u8, '2' as u8]);
        if same_bytes(kind, clipboard.as_slice()) {
            let none: Vec<u8> = Vec::new();
            if params.len() > 2 {
                let payload = params[2].as_slice();
                assert(payload@ == views[2]);
                self.set_clipboard(payload);
            } else {
                self.set_clipboard(none.as_slice());
            }
        }
    }
}

/// Appends what a control sequence is answered.
fn push_answer(reply: &mut Vec<u8>, grid: &Grid, params: &[u16], intermediates: &[u8], c: char)
    requires
        grid.wf(),
    ensures
        final(reply)@ == old(reply)@ + sequences::csi_answer(
            grid@,
            params@,
            intermediates@,
            c,
        ),
{
    let ghost before = reply@;
    match c {
        // XTVERSION: name ourselves. tmux asks alongside the two device
        // attributes queries, and takes silence for an answer, but naming
        // ourselves is both cheap and what it is actually asking for.
        'q' => if is_marked(intermediates, '>' as u8) {
            let version = version_report();
            push_bytes(reply, version.as_slice());
            return;
        },
        // Device Status Report: report cursor position. Gated on the plain
        // form: `CSI ? 6 n` is DECXCPR and wants its own reply, so answering
        // it with a CPR would be a reply the asker cannot parse.
        'n' => if !is_marked(intermediates, '?' as u8) && params.len() > 0 && params[0] == 6 {
            let position = position_report(grid);
            push_bytes(reply, position.as_slice());
            return;
        },
        'c' => match marker(intermediates) {
            // Primary DA: identify as a VT102.
            None => {
                let attributes = primary_attributes();
                push_bytes(reply, attributes.as_slice());
                return;
            },
            // Secondary DA (`CSI > c`) asks what model and version we are, and
            // the answer has to be in its own `CSI > ... c` form: tmux passes
            // an answer it cannot parse on to the pane as keystrokes.
            Some(mark) => if mark == '>' as u8 {
                let attributes = secondary_attributes();
                push_bytes(reply, attributes.as_slice());
                return;
            },
        },
        _ => {},
    }
    assert(reply@ =~= before + Seq::<u8>::empty());
}

fn version_report() -> (bytes: Vec<u8>)
    ensures
        bytes@ == sequences::version_report(),
{
    let mut bytes: Vec<u8> = Vec::new();
    bytes.push(0x1b);
    bytes.push('P' as u8);
    bytes.push('>' as u8);
    bytes.push('|' as u8);
    bytes.push('k' as u8);
    bytes.push('o' as u8);
    bytes.push('m' as u8);
    bytes.push('a' as u8);
    bytes.push('(' as u8);
    bytes.push('0' as u8);
    bytes.push('.' as u8);
    bytes.push('1' as u8);
    bytes.push('.' as u8);
    bytes.push('0' as u8);
    bytes.push(')' as u8);
    bytes.push(0x1b);
    bytes.push('\\' as u8);
    bytes
}

fn position_report(grid: &Grid) -> (bytes: Vec<u8>)
    requires
        grid.wf(),
    ensures
        bytes@ == sequences::position_report(grid@.cx, grid@.cy),
{
    let mut bytes: Vec<u8> = Vec::new();
    bytes.push(0x1b);
    bytes.push('[' as u8);
    push_decimal(&mut bytes, grid.cy + 1);
    bytes.push(';' as u8);
    push_decimal(&mut bytes, grid.cx + 1);
    bytes.push('R' as u8);
    bytes
}

fn primary_attributes() -> (bytes: Vec<u8>)
    ensures
        bytes@ == sequences::primary_attributes(),
{
    let mut bytes: Vec<u8> = Vec::new();
    bytes.push(0x1b);
    bytes.push('[' as u8);
    bytes.push('?' as u8);
    bytes.push('6' as u8);
    bytes.push('c' as u8);
    bytes
}

fn secondary_attributes() -> (bytes: Vec<u8>)
    ensures
        bytes@ == sequences::secondary_attributes(),
{
    let mut bytes: Vec<u8> = Vec::new();
    bytes.push(0x1b);
    bytes.push('[' as u8);
    bytes.push('>' as u8);
    bytes.push('0' as u8);
    bytes.push(';' as u8);
    bytes.push('0' as u8);
    bytes.push(';' as u8);
    bytes.push('0' as u8);
    bytes.push('c' as u8);
    bytes
}

/// Whether `n` more lines can be counted.
fn has_room(grid: &Grid, n: usize) -> (room: bool)
    ensures
        room == grid@.has_room(n as int),
{
    match grid.trimmed.checked_add(grid.scrollback.len()) {
        Some(total) => total.checked_add(n).is_some(),
        None => false,
    }
}

/// Whether every line that `action` can scroll off can still be counted.
fn has_room_for(grid: &Grid, action: &Action) -> (room: bool)
    ensures
        room == grid@.has_room_for(action@),
{
    match action {
        Action::Print(_) => has_room(grid, 2),
        Action::Execute(byte) => match *byte {
            0x0a | 0x0b | 0x0c => has_room(grid, 1),
            _ => true,
        },
        Action::Csi { params: _, intermediates: _, c } => match *c {
            'M' | 'S' => has_room(grid, grid.rows),
            _ => true,
        },
        Action::Esc { intermediates: _, byte } => if *byte == 'D' as u8 || *byte == 'E' as u8 {
            has_room(grid, 1)
        } else {
            true
        },
        Action::Osc { parts: _ } => true,
    }
}

/// Carries out the parser's findings on a grid.
pub struct Performer<'a> {
    pub grid: &'a mut Grid,
    /// Bytes the terminal wants to send back to the pty (e.g. DA, CPR replies).
    pub reply: Vec<u8>,
}

impl<'a> Performer<'a> {
    pub open spec fn state(&self) -> TermState {
        TermState { grid: self.grid@, reply: self.reply@ }
    }

    pub open spec fn wf(&self) -> bool {
        self.grid.wf()
    }

    pub fn print(&mut self, c: char)
        requires
            old(self).wf(),
            old(self).state().grid.has_room(2),
        ensures
            final(self).wf(),
            final(self).state() == old(self).state().perform(ActionState::Print(c)),
            old(self).state().grid.ascii_is_narrow(c),
            *final(final(self).grid) == *final(old(self).grid),
    {
        self.grid.put(c);
    }

    pub fn execute(&mut self, byte: u8)
        requires
            old(self).wf(),
            old(self).state().grid.has_room_for(ActionState::Execute(byte)),
        ensures
            final(self).wf(),
            final(self).state() == old(self).state().perform(ActionState::Execute(byte)),
            *final(final(self).grid) == *final(old(self).grid),
    {
        self.grid.execute(byte);
    }

    pub fn csi_dispatch(&mut self, params: &[Vec<u16>], intermediates: &[u8], c: char)
        requires
            old(self).wf(),
            sequences::scrolls(c) ==> old(self).state().grid.has_room(old(self).grid.rows as int),
        ensures
            final(self).wf(),
            final(self).state() == old(self).state().perform(
                (ActionState::Csi {
                    params: rows::lines_of(params@),
                    intermediates: intermediates@,
                    c,
                }),
            ),
            *final(final(self).grid) == *final(old(self).grid),
    {
        let flat = flatten(params);
        push_answer(&mut self.reply, self.grid, flat.as_slice(), intermediates, c);
        self.grid.csi(flat.as_slice(), intermediates, c);
    }

    pub fn esc_dispatch(&mut self, intermediates: &[u8], byte: u8)
        requires
            old(self).wf(),
            old(self).state().grid.has_room_for(
                (ActionState::Esc { intermediates: intermediates@, byte }),
            ),
        ensures
            final(self).wf(),
            final(self).state() == old(self).state().perform(
                (ActionState::Esc { intermediates: intermediates@, byte }),
            ),
            *final(final(self).grid) == *final(old(self).grid),
    {
        self.grid.esc(intermediates, byte);
    }

    pub fn osc_dispatch(&mut self, params: &[Vec<u8>])
        requires
            old(self).wf(),
        ensures
            final(self).wf(),
            final(self).state() == old(self).state().perform(
                (ActionState::Osc { parts: rows::lines_of(params@) }),
            ),
            *final(final(self).grid) == *final(old(self).grid),
    {
        self.grid.osc(params);
    }

    /// Carries out one action.
    pub fn perform(&mut self, action: &Action)
        requires
            old(self).wf(),
            old(self).state().grid.has_room_for(action@),
        ensures
            final(self).wf(),
            final(self).state() == old(self).state().perform(action@),
            old(self).state().prints_narrow(action@),
            *final(final(self).grid) == *final(old(self).grid),
    {
        match action {
            Action::Print(c) => self.print(*c),
            Action::Execute(byte) => self.execute(*byte),
            Action::Csi { params, intermediates, c } => self.csi_dispatch(
                params.as_slice(),
                intermediates.as_slice(),
                *c,
            ),
            Action::Esc { intermediates, byte } => self.esc_dispatch(
                intermediates.as_slice(),
                *byte,
            ),
            Action::Osc { parts } => self.osc_dispatch(parts.as_slice()),
        }
    }

    /// Carries out one action if there is room for it, and says whether there
    /// was.
    fn attempt(&mut self, action: &Action) -> (done: bool)
        requires
            old(self).wf(),
        ensures
            final(self).wf(),
            final(self).state() == old(self).state().attempt(action@),
            done == old(self).state().grid.has_room_for(action@),
            done ==> old(self).state().prints_narrow(action@),
            *final(final(self).grid) == *final(old(self).grid),
    {
        proof {
            reveal(TermState::attempt);
        }
        let room = has_room_for(self.grid, action);
        if room {
            self.perform(action);
        }
        room
    }

    /// Carries out every action for which there is room, in order, and says
    /// whether that was all of them.
    pub fn perform_all(&mut self, actions: &[Action]) -> (all: bool)
        requires
            old(self).wf(),
        ensures
            final(self).wf(),
            final(self).state() == old(self).state().perform_fitting(
                sequences::states(actions@),
                actions@.len() as int,
            ),
            all == old(self).state().all_fit(
                sequences::states(actions@),
                actions@.len() as int,
            ),
            old(self).state().grid.has_room(actions@.len() * (old(self).grid.rows + 1)) ==> all,
            old(self).state().all_print_narrow(
                sequences::states(actions@),
                actions@.len() as int,
            ),
            *final(final(self).grid) == *final(old(self).grid),
    {
        let ghost start = self.state();
        let ghost states = sequences::states(actions@);
        let ghost each = self.grid.rows + 1;
        let ghost ample = self.state().grid.has_room(actions@.len() * each);
        let mut all: bool = true;
        let mut i: usize = 0;
        while i < actions.len()
            invariant
                i <= actions@.len(),
                self.wf(),
                states == sequences::states(actions@),
                each == self.grid.rows + 1,
                self.state() == start.perform_fitting(states, i as int),
                all == start.all_fit(states, i as int),
                start.all_print_narrow(states, i as int),
                ample ==> all && self.state().grid.has_room((actions@.len() - i) * each),
                *final(self.grid) == *final(old(self).grid),
            decreases actions.len() - i,
        {
            proof {
                self.grid.lemma_wf();
                self.state().lemma_attempt_rows(states[i as int]);
                if ample {
                    self.state().lemma_ample_room(states[i as int], actions@.len() - i);
                }
            }
            if !self.attempt(&actions[i]) {
                all = false;
            }
            i = i + 1;
        }
        all
    }
}

} // verus!
