//! Scrolling: moving the viewport through the history, and deciding who gets
//! the wheel.

use crate::grid::Grid;
use crate::model::{self, GridState};
use crate::mouse::Tracking;
use crate::pane::PaneId;
use crate::text::push_bytes;
use vstd::prelude::*;

verus! {

/// One gesture must not be able to inject an unbounded burst of wheel reports.
pub const WHEEL_REPORT_CAP: usize = 32;

/// Nor an unbounded burst of keystrokes. A single wheel event never
/// legitimately exceeds this.
pub const MAX_KEYS: usize = 32;

/// Where a wheel event should go.
#[derive(Clone, Copy, PartialEq, Eq, Debug, Structural)]
pub enum WheelAction {
    /// Move our own viewport through the scrollback.
    Viewport,
    /// Hand it to the program as arrow keys (xterm's alternate scroll).
    Application,
    /// Drop the tick. Nothing is sent and nothing moves.
    Ignore,
}

/// `n` brought into `low..=high`.
pub open spec fn clamp(n: int, low: int, high: int) -> int {
    model::max(low, model::min(n, high))
}

/// Where the viewport lands after scrolling `lines`, positive being back
/// through history.
pub open spec fn target(current: int, lines: int, scrollback: int, program_owns_screen: bool) -> int {
    if program_owns_screen && lines > 0 { current } else { clamp(current + lines, 0, scrollback) }
}

/// How far `lines` goes, whichever way.
pub open spec fn distance(lines: int) -> int {
    if lines < 0 { -lines } else { lines }
}

/// `bytes` `n` times over.
pub open spec fn repeated(bytes: Seq<u8>, n: int) -> Seq<u8>
    decreases n,
{
    if n <= 0 { Seq::empty() } else { repeated(bytes, n - 1) + bytes }
}

/// The arrow key for one line of scrolling.
pub open spec fn arrow_key(up: bool, app_cursor_keys: bool) -> Seq<u8> {
    seq![
        0x1bu8,
        if app_cursor_keys { 'O' as u8 } else { '[' as u8 },
        if up { 'A' as u8 } else { 'B' as u8 },
    ]
}

fn magnitude(lines: isize) -> (n: usize)
    ensures
        n == distance(lines as int),
{
    if lines >= 0 { lines as usize } else { (-(lines + 1)) as usize + 1 }
}

/// Where the viewport lands after scrolling `lines` (positive moves back
/// through history) from `current`, for a pane holding `scrollback` lines.
///
/// **A program that owns the screen only allows movement back towards the
/// live screen.** Scrollback survives the switch to the alternate screen, so
/// walking up leads into whatever the shell printed before the program started,
/// and draws it over the program's own screen. Nothing there is worth showing:
/// inside tmux or vim it is the screen from before they started.
///
/// An alternate screen whose program was killed has nothing left to protect,
/// and refusing there would stick the pane with no scrollback for as long as it
/// lives.
///
/// Movement towards 0 stays open on purpose, so an offset that got set some
/// other way can always be undone rather than stranding the viewport.
pub fn viewport_target(
    current: usize,
    lines: isize,
    scrollback: usize,
    program_owns_screen: bool,
) -> (offset: usize)
    ensures
        offset == target(current as int, lines as int, scrollback as int, program_owns_screen),
{
    if program_owns_screen && lines > 0 {
        return current;
    }
    let n: usize = magnitude(lines);
    if lines < 0 {
        let nearer: usize = if n < current { current - n } else { 0 };
        if nearer < scrollback { nearer } else { scrollback }
    } else if current >= scrollback || n > scrollback - current {
        scrollback
    } else {
        current + n
    }
}

/// The lines that a page of scrolling is: a screen, less one line of overlap.
pub fn page_lines(rows: usize) -> (lines: usize)
    ensures
        lines == page_of(rows as int),
{
    if rows > 2 { rows - 1 } else { 1 }
}

/// Decides who handles a wheel tick that was not reported to the program.
///
/// Shift is the standard escape hatch: it always drives our viewport and never
/// the program. Without it, scrolling inside tmux, or at any shell prompt on
/// the alternate screen, replays arrow keys into the command line instead of
/// scrolling, which is what the arrows mean to a line editor.
///
/// `Viewport` is a decision about *who* handles the tick, not a promise that
/// something moves: where a program owns the screen `viewport_target` holds the
/// offset where it is, so Shift+wheel there is deliberately inert.
///
/// Reached only once a mouse report has already failed to go out, and
/// `tracking` is what tells the two reasons for that apart. Off means the
/// program never asked for the mouse, so the wheel is ours. Anything else means
/// it did ask and we could not answer: the pointer resolved to no cell at all,
/// or legacy encoding ran out of room past column 223. Those ticks are dropped:
/// synthesising arrows would type into a program that never wanted keys.
///
/// `arrows_allowed` is the alternate screen *and* DECSET 1007 still set: a
/// program that handles the mouse itself turns 1007 off to decline them.
pub fn wheel_action(shift: bool, tracking: Tracking, arrows_allowed: bool) -> (action: WheelAction)
    ensures
        action == (if shift {
            WheelAction::Viewport
        } else if tracking != Tracking::Off {
            WheelAction::Ignore
        } else if arrows_allowed {
            WheelAction::Application
        } else {
            WheelAction::Viewport
        }),
{
    if shift {
        return WheelAction::Viewport;
    }
    if tracking != Tracking::Off {
        return WheelAction::Ignore;
    }
    if arrows_allowed { WheelAction::Application } else { WheelAction::Viewport }
}

/// `bytes` `n` times over.
fn repeat_bytes(bytes: &[u8], n: usize) -> (out: Vec<u8>)
    ensures
        out@ == repeated(bytes@, n as int),
{
    let mut out: Vec<u8> = Vec::new();
    let mut i: usize = 0;
    while i < n
        invariant
            i <= n,
            out@ == repeated(bytes@, i as int),
        decreases n - i,
    {
        push_bytes(&mut out, bytes);
        i = i + 1;
    }
    out
}

/// Arrow keys an application should see for `lines` of wheel scrolling on the
/// alternate screen. Positive scrolls back through the application's own view,
/// which means Up.
///
/// Capped, because one gesture must not be able to inject an unbounded burst of
/// keystrokes.
pub fn alternate_scroll_bytes(lines: isize, app_cursor_keys: bool) -> (out: Vec<u8>)
    ensures
        out@ == repeated(
            arrow_key(lines > 0, app_cursor_keys),
            model::min(distance(lines as int), MAX_KEYS as int),
        ),
{
    let mut key: Vec<u8> = Vec::new();
    key.push(0x1b);
    key.push(if app_cursor_keys { 'O' as u8 } else { '[' as u8 });
    key.push(if lines > 0 { 'A' as u8 } else { 'B' as u8 });
    assert(key@ =~= arrow_key(lines > 0, app_cursor_keys));
    let n: usize = magnitude(lines);
    repeat_bytes(key.as_slice(), if n < MAX_KEYS { n } else { MAX_KEYS })
}

/// Where wheel movement comes from: the pane it is for, and whether it was read
/// off the horizontal axis.
#[derive(Clone, Copy, PartialEq, Eq, Debug, Structural)]
pub struct WheelSource {
    pub pane: PaneId,
    pub across: bool,
}

impl WheelSource {
    /// Takes note of where the next movement comes from, and says whether it is
    /// another place than before. A fraction of a line that is left over belongs
    /// to the pane and the axis it came from; carrying it across either would
    /// apply the remainder of one gesture to a different one.
    pub fn turn_to(&mut self, pane: PaneId, across: bool) -> (changed: bool)
        ensures
            *final(self) == (WheelSource { pane, across }),
            changed == (*final(self) != *old(self)),
    {
        let changed = pane != self.pane || across != self.across;
        self.pane = pane;
        self.across = across;
        changed
    }
}

/// What a wheel movement comes to.
pub enum WheelPlan {
    /// Send these bytes to the program.
    Send(Vec<u8>),
    /// Show the viewport this many lines up from the live screen.
    Show(usize),
    /// Nothing is sent and nothing moves.
    Nothing,
}

/// A [`WheelPlan`] by its contents.
pub enum WheelOutcome {
    Send(Seq<u8>),
    Show(int),
    Nothing,
}

impl View for WheelPlan {
    type V = WheelOutcome;

    open spec fn view(&self) -> WheelOutcome {
        match self {
            WheelPlan::Send(bytes) => WheelOutcome::Send(bytes@),
            WheelPlan::Show(offset) => WheelOutcome::Show(*offset as int),
            WheelPlan::Nothing => WheelOutcome::Nothing,
        }
    }
}

impl GridState {
    /// Where a wheel movement of `lines` goes that was not reported.
    pub open spec fn unreported_wheel(self, lines: int, shift: bool) -> WheelOutcome {
        if !shift && self.mouse_tracking != Tracking::Off {
            WheelOutcome::Nothing
        } else if !shift && self.program_owns_screen() && self.alternate_scroll {
            WheelOutcome::Send(
                repeated(
                    arrow_key(lines > 0, self.app_cursor_keys),
                    model::min(distance(lines), MAX_KEYS as int),
                ),
            )
        } else {
            WheelOutcome::Show(
                target(
                    self.view_offset,
                    lines,
                    self.history.len() as int,
                    self.program_owns_screen(),
                ),
            )
        }
    }

    /// Where a wheel movement of `lines` goes. A program that took the mouse
    /// gets it as reports, one for each line up to a limit, `report` being
    /// what one of them is spelled as; once a report goes out, no arrow keys
    /// are made up as well.
    pub open spec fn wheel(self, lines: int, shift: bool, report: Option<Seq<u8>>) -> WheelOutcome {
        if lines == 0 {
            WheelOutcome::Nothing
        } else {
            match report {
                Some(bytes) => WheelOutcome::Send(
                    repeated(bytes, model::min(distance(lines), WHEEL_REPORT_CAP as int)),
                ),
                None => self.unreported_wheel(lines, shift),
            }
        }
    }

    /// The viewport moved by `lines`.
    pub open spec fn scroll_view(self, lines: int) -> GridState {
        if lines == 0 {
            self
        } else {
            self.with_view_offset(
                target(
                    self.view_offset,
                    lines,
                    self.history.len() as int,
                    self.program_owns_screen(),
                ),
            )
        }
    }

    /// The viewport at the oldest line, or back at the live screen. The oldest
    /// line predates a program that owns the screen, so it is refused there;
    /// coming back never is.
    pub open spec fn scroll_to_edge(self, top: bool) -> GridState {
        if top && self.program_owns_screen() {
            self
        } else {
            self.with_view_offset(if top { self.history.len() as int } else { 0 })
        }
    }
}

impl Grid {
    /// Scrolls the viewport through the scrollback. Positive `lines` moves back
    /// through history.
    ///
    /// Refuses to move away from the live screen while a program owns the
    /// screen; see `viewport_target` for why.
    pub fn scroll_view(&mut self, lines: isize)
        requires
            old(self).wf(),
        ensures
            final(self).wf(),
            final(self)@ == old(self)@.scroll_view(lines as int),
    {
        if lines == 0 {
            return;
        }
        let offset: usize = viewport_target(
            self.view_offset,
            lines,
            self.scrollback.len(),
            self.program_owns_screen(),
        );
        self.set_view_offset(offset);
    }

    /// Jumps to the oldest retained line, or back to the live screen.
    pub fn scroll_to_edge(&mut self, top: bool)
        requires
            old(self).wf(),
        ensures
            final(self).wf(),
            final(self)@ == old(self)@.scroll_to_edge(top),
    {
        if top && self.program_owns_screen() {
            return;
        }
        let offset: usize = if top { self.scrollback.len() } else { 0 };
        self.set_view_offset(offset);
    }

    /// Decides what a wheel movement of `lines` comes to. `report` is the mouse
    /// report of one tick where one can be sent.
    pub fn wheel(&self, lines: isize, shift: bool, report: Option<Vec<u8>>) -> (plan: WheelPlan)
        requires
            self.wf(),
        ensures
            plan@ == self@.wheel(
                lines as int,
                shift,
                match report {
                    Some(bytes) => Some(bytes@),
                    None => None,
                },
            ),
    {
        if lines == 0 {
            return WheelPlan::Nothing;
        }
        if let Some(bytes) = report {
            let n: usize = magnitude(lines);
            return WheelPlan::Send(
                repeat_bytes(
                    bytes.as_slice(),
                    if n < WHEEL_REPORT_CAP { n } else { WHEEL_REPORT_CAP },
                ),
            );
        }
        let owns = self.program_owns_screen();
        match wheel_action(shift, self.mouse_tracking, owns && self.alternate_scroll) {
            WheelAction::Viewport => WheelPlan::Show(
                viewport_target(self.view_offset, lines, self.scrollback.len(), owns),
            ),
            WheelAction::Application => WheelPlan::Send(
                alternate_scroll_bytes(lines, self.app_cursor_keys),
            ),
            WheelAction::Ignore => WheelPlan::Nothing,
        }
    }
}

/// The viewport never leaves what is kept, whatever is asked of it.
pub proof fn law_viewport_stays_in_bounds(s: GridState, lines: int)
    requires
        s.wf(),
    ensures
        0 <= s.scroll_view(lines).view_offset <= s.history.len(),
        s.scroll_view(lines).wf(),
{
}

/// A program that owns the screen is never covered: the viewport does not move
/// away from the live screen while it does.
pub proof fn law_a_program_is_never_covered(s: GridState, lines: int)
    requires
        s.wf(),
        s.program_owns_screen(),
    ensures
        s.scroll_view(lines).view_offset <= s.view_offset,
        s.scroll_to_edge(true) == s,
{
}

/// The way back to the live screen is always open: scrolling forward far
/// enough, or jumping there, always arrives.
pub proof fn law_the_way_back_is_open(s: GridState, lines: int)
    requires
        s.wf(),
        lines <= -s.view_offset,
        lines != 0,
    ensures
        s.scroll_view(lines).view_offset == 0,
        s.scroll_to_edge(false).view_offset == 0,
{
}

/// Away from both ends, scrolling back and forth returns to the same line.
pub proof fn law_scrolling_back_and_forth_returns(s: GridState, lines: int)
    requires
        s.wf(),
        !s.program_owns_screen(),
        0 <= s.view_offset + lines <= s.history.len(),
    ensures
        s.scroll_view(lines).scroll_view(-lines) == s,
{
}

/// Shift keeps the wheel away from the program: nothing is sent to it unless a
/// report was already made, and a report is never made while Shift is held.
pub proof fn law_shift_keeps_the_wheel(s: GridState, lines: int)
    ensures
        !(s.wheel(lines, true, None) is Send),
{
}

/// A program that asked for the mouse is never typed into and never scrolled
/// over when a report could not be made.
pub proof fn law_a_tracking_program_gets_reports_or_nothing(s: GridState, lines: int)
    requires
        s.mouse_tracking != Tracking::Off,
    ensures
        s.wheel(lines, false, None) == WheelOutcome::Nothing,
{
}

proof fn lemma_repeated_len(bytes: Seq<u8>, n: int)
    ensures
        repeated(bytes, n).len() == (if n <= 0 {
            0
        } else {
            n * bytes.len()
        }),
    decreases n,
{
    if n > 0 {
        lemma_repeated_len(bytes, n - 1);
        assert(n * bytes.len() == (n - 1) * bytes.len() + bytes.len()) by (nonlinear_arith);
    }
}

/// However far the wheel turned, no more than 32 keys are sent for it.
pub proof fn law_alternate_scroll_is_capped(lines: int, app_cursor_keys: bool)
    ensures
        repeated(
            arrow_key(lines > 0, app_cursor_keys),
            model::min(distance(lines), MAX_KEYS as int),
        ).len() <= MAX_KEYS * 3,
{
    lemma_repeated_len(
        arrow_key(lines > 0, app_cursor_keys),
        model::min(distance(lines), MAX_KEYS as int),
    );
}

/// Whether a program that is still there has the screen: the alternate screen is
/// up, and whoever brought it up is not gone.
pub open spec fn program_is_there(s: GridState) -> bool {
    s.parked is Some && !s.orphaned
}

/// Scrolling moves the viewport by as many lines as it is asked for, back
/// through the history where that is positive, and no further than its oldest
/// line or the live screen. Away from the screen of a program that is there it
/// does not move. Nothing else changes.
pub proof fn law_scrolling_the_viewport(s: GridState, lines: int)
    requires
        s.wf(),
    ensures
        ({
            let t = s.scroll_view(lines);
            &&& t == GridState { view_offset: t.view_offset, ..s }
            &&& 0 <= t.view_offset <= s.history.len()
            &&& if program_is_there(s) && lines > 0 {
                t.view_offset == s.view_offset
            } else {
                ||| t.view_offset == s.view_offset + lines
                ||| t.view_offset == 0 && s.view_offset + lines < 0
                ||| t.view_offset == s.history.len() && s.view_offset + lines > s.history.len()
            }
        }),
{
}

/// Jumping goes to the oldest line, save where a program that is there has the
/// screen, or back to the live screen.
pub proof fn law_jumping_to_either_end(s: GridState)
    ensures
        s.scroll_to_edge(false) == (GridState { view_offset: 0, ..s }),
        !program_is_there(s) ==> s.scroll_to_edge(true) == (GridState {
            view_offset: s.history.len() as int,
            ..s
        }),
        program_is_there(s) ==> s.scroll_to_edge(true) == s,
{
}

/// How many lines a page is.
pub open spec fn page_of(rows: int) -> int {
    model::max(rows - 1, 1)
}

/// A page back shows, at its bottom, the line that was at the top: one line of
/// overlap, and on a screen of a single row a line at a time.
pub proof fn law_a_page_overlaps_by_a_line(rows: int)
    requires
        1 <= rows,
    ensures
        rows >= 2 ==> page_of(rows) + 1 == rows,
        rows == 1 ==> page_of(rows) == 1,
{
}

/// Whether `bytes` is `one` over and over, `n` times.
pub open spec fn is_repeated(bytes: Seq<u8>, one: Seq<u8>, n: int) -> bool {
    &&& bytes.len() == n * one.len()
    &&& forall|i: int, j: int|
        0 <= i < n && 0 <= j < one.len() ==> #[trigger] bytes[i * one.len() + j] == one[j]
}

proof fn lemma_is_repeated(one: Seq<u8>, n: int)
    requires
        0 <= n,
    ensures
        is_repeated(repeated(one, n), one, n),
    decreases n,
{
    lemma_repeated_len(one, n);
    if n > 0 {
        lemma_is_repeated(one, n - 1);
        lemma_repeated_len(one, n - 1);
        let len = one.len() as int;
        let all = repeated(one, n);
        let before = repeated(one, n - 1);
        assert forall|i: int, j: int| 0 <= i < n && 0 <= j < len implies #[trigger] all[i * len + j]
            == one[j] by {
            if i < n - 1 {
                assert(i * len + j < (n - 1) * len && 0 <= i * len) by (nonlinear_arith)
                    requires
                        0 <= i < n - 1,
                        0 <= j < len,
                ;
                assert(before[i * len + j] == one[j]);
            }
        }
    } else {
        assert(0 * one.len() == 0);
    }
}

/// How many times the wheel is passed on for a movement: once a line, and no
/// more than 32 times.
pub open spec fn passed_on(n: int, lines: int) -> bool {
    &&& 0 <= n <= 32
    &&& n == lines || n == -lines || (n == 32 && (lines > 32 || lines < -32))
}

/// A wheel movement that can be reported is reported, once for each line; Shift
/// or not, and whatever is on screen.
pub proof fn law_the_wheel_is_reported(
    s: GridState,
    lines: int,
    shift: bool,
    report: Seq<u8>,
)
    requires
        lines != 0,
    ensures
        s.wheel(lines, shift, Some(report)) matches WheelOutcome::Send(bytes) && exists|n: int|
            #[trigger] passed_on(n, lines) && is_repeated(bytes, report, n),
{
    let n = model::min(distance(lines), 32);
    lemma_is_repeated(report, n);
    assert(passed_on(n, lines));
}

/// A wheel movement that is not reported: Shift scrolls the viewport. Without
/// it, a program that took the mouse gets nothing; one that is there and left
/// alternate scroll on gets arrow keys, up for back, once for each line; and
/// otherwise the viewport scrolls.
pub proof fn law_the_wheel_is_not_reported(s: GridState, lines: int, shift: bool)
    requires
        lines != 0,
    ensures
        ({
            let out = s.wheel(lines, shift, None);
            let key = seq![
                0x1bu8,
                if s.app_cursor_keys { 0x4fu8 } else { 0x5bu8 },
                if lines > 0 { 0x41u8 } else { 0x42u8 },
            ];
            if shift || (s.mouse_tracking == Tracking::Off && !(program_is_there(s)
                && s.alternate_scroll)) {
                out == WheelOutcome::Show(s.scroll_view(lines).view_offset)
            } else if s.mouse_tracking != Tracking::Off {
                out == WheelOutcome::Nothing
            } else {
                out matches WheelOutcome::Send(bytes) && exists|n: int| #[trigger]
                    passed_on(n, lines) && is_repeated(bytes, key, n)
            }
        }),
        s.wheel(0, shift, None) == WheelOutcome::Nothing,
{
    let n = model::min(distance(lines), 32);
    let key = arrow_key(lines > 0, s.app_cursor_keys);
    lemma_is_repeated(key, n);
    assert(passed_on(n, lines));
}

} // verus!
