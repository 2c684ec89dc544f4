//! Mouse reporting: telling the program what the pointer is doing.
//!
//! Without this a full-screen program can't see the mouse at all, which is why
//! `set -g mouse on` would do nothing in tmux and scrolling would have to fall
//! back to synthesising arrow keys. With it, tmux receives the wheel itself and
//! enters copy mode, the only way to scroll *its* history.

use crate::text::{self, push_decimal};
use vstd::prelude::*;

verus! {

/// Which events the program asked for, via DECSET.
#[derive(Clone, Copy, PartialEq, Eq, Debug, Default, Structural)]
pub enum Tracking {
    #[default]
    Off,
    /// DECSET 1000: presses and releases.
    Normal,
    /// DECSET 1002: and motion while a button is held.
    ButtonEvent,
    /// DECSET 1003: and motion at all times.
    AnyEvent,
}

/// How the report is spelled.
#[derive(Clone, Copy, PartialEq, Eq, Debug, Default, Structural)]
pub enum Encoding {
    /// The oldest form, `ESC [ M`. Each coordinate is one byte biased by 32,
    /// so it cannot address past column 223.
    #[default]
    Legacy,
    /// DECSET 1006: `ESC [ <` with decimal parameters, and no column limit.
    Sgr,
}

#[derive(Clone, Copy, PartialEq, Eq, Debug, Structural)]
pub enum Button {
    Left,
    Middle,
    Right,
}

#[derive(Clone, Copy, PartialEq, Eq, Debug)]
pub enum Event {
    Press(Button),
    Release(Button),
    /// Motion, carrying whichever button is held.
    Motion(Option<Button>),
    Wheel { up: bool },
}

#[derive(Clone, Copy, PartialEq, Eq, Debug, Default, Structural)]
pub struct Mods {
    pub shift: bool,
    pub alt: bool,
    pub ctrl: bool,
}

/// The largest coordinate the legacy encoding can express. One byte biased by
/// 32 tops out at 223 *on the wire*, and the wire counts from one, so the
/// largest we can accept, counting from zero, is 222.
pub const LEGACY_MAX: usize = 222;

/// The button's own part of the report code.
pub open spec fn button_code(b: Button) -> int {
    match b {
        Button::Left => 0,
        Button::Middle => 1,
        Button::Right => 2,
    }
}

/// What the held modifiers add to the report code.
pub open spec fn mods_code(m: Mods) -> int {
    (if m.shift { 4int } else { 0 }) + (if m.alt { 8int } else { 0 }) + (if m.ctrl {
        16int
    } else {
        0
    })
}

/// The report code of an event, before modifiers. Motion adds 32, and names
/// button 3 when none is held; the wheel has codes of its own.
pub open spec fn event_code(event: Event) -> int {
    match event {
        Event::Press(b) => button_code(b),
        Event::Release(b) => button_code(b),
        Event::Motion(Some(b)) => button_code(b) + 32,
        Event::Motion(None) => 35,
        Event::Wheel { up } => if up { 64 } else { 65 },
    }
}

/// Whether `tracking` covers `event`: nothing while off, motion only as far
/// as the mode says, everything else always.
pub open spec fn is_wanted(tracking: Tracking, event: Event) -> bool {
    match tracking {
        Tracking::Off => false,
        Tracking::Normal => !(event is Motion),
        Tracking::ButtonEvent => event != Event::Motion(None),
        Tracking::AnyEvent => true,
    }
}

/// The SGR spelling: `ESC [ < code ; col ; row` and `m` for a release, `M`
/// for everything else. Coordinates count from one.
pub open spec fn sgr_report(event: Event, col: int, row: int, mods: Mods) -> Seq<u8> {
    let code = seq![0x1bu8, '[' as u8, '<' as u8] + text::decimal(
        (event_code(event) + mods_code(mods)) as nat,
    );
    let place = (code.push(';' as u8) + text::decimal((col + 1) as nat)).push(';' as u8)
        + text::decimal((row + 1) as nat);
    place.push(if event is Release { 'm' as u8 } else { 'M' as u8 })
}

/// The code of a legacy report: a release never says which button came up.
pub open spec fn legacy_code(event: Event, mods: Mods) -> int {
    (if event is Release { 3 } else { event_code(event) }) + mods_code(mods)
}

/// The legacy spelling: `ESC [ M` and three bytes biased by 32.
pub open spec fn legacy_report(event: Event, col: int, row: int, mods: Mods) -> Seq<u8> {
    seq![
        0x1bu8,
        '[' as u8,
        'M' as u8,
        (legacy_code(event, mods) + 32) as u8,
        (col + 33) as u8,
        (row + 33) as u8,
    ]
}

/// What is sent for `event` at 0-based position `(col, row)`, if anything.
pub open spec fn report(
    tracking: Tracking,
    encoding: Encoding,
    event: Event,
    col: int,
    row: int,
    mods: Mods,
) -> Option<Seq<u8>> {
    if !is_wanted(tracking, event) {
        None
    } else if encoding is Sgr {
        Some(sgr_report(event, col, row, mods))
    } else if col <= LEGACY_MAX && row <= LEGACY_MAX {
        Some(legacy_report(event, col, row, mods))
    } else {
        None
    }
}

pub fn button_bits(b: Button) -> (bits: u16)
    ensures
        bits == button_code(b),
{
    match b {
        Button::Left => 0,
        Button::Middle => 1,
        Button::Right => 2,
    }
}

pub fn mod_bits(m: Mods) -> (bits: u16)
    ensures
        bits == mods_code(m),
{
    let shift: u16 = if m.shift { 4 } else { 0 };
    let alt: u16 = if m.alt { 8 } else { 0 };
    let ctrl: u16 = if m.ctrl { 16 } else { 0 };
    shift + alt + ctrl
}

/// Whether this event is one the program asked to hear about.
pub fn wanted(tracking: Tracking, event: Event) -> (yes: bool)
    ensures
        yes == is_wanted(tracking, event),
{
    match (tracking, event) {
        (Tracking::Off, _) => false,
        (_, Event::Motion(held)) => match tracking {
            Tracking::AnyEvent => true,
            // 1002 reports dragging only, so motion with nothing held is not
            // a drag and stays local.
            Tracking::ButtonEvent => held.is_some(),
            _ => false,
        },
        _ => true,
    }
}

/// The report code of an event, before modifiers.
fn event_bits(event: Event) -> (bits: u16)
    ensures
        bits == event_code(event),
        bits <= 65,
{
    match event {
        Event::Press(b) => button_bits(b),
        Event::Release(b) => button_bits(b),
        Event::Motion(Some(b)) => button_bits(b) + 32,
        Event::Motion(None) => 35,
        Event::Wheel { up } => if up { 64 } else { 65 },
    }
}

fn sgr_bytes(event: Event, col: usize, row: usize, mods: Mods) -> (bytes: Vec<u8>)
    requires
        col < usize::MAX,
        row < usize::MAX,
    ensures
        bytes@ == sgr_report(event, col as int, row as int, mods),
{
    let code: u16 = event_bits(event) + mod_bits(mods);
    let last: u8 = match event {
        Event::Release(_) => 'm' as u8,
        _ => 'M' as u8,
    };
    let mut bytes: Vec<u8> = Vec::new();
    bytes.push(0x1b);
    bytes.push('[' as u8);
    bytes.push('<' as u8);
    push_decimal(&mut bytes, code as usize);
    bytes.push(';' as u8);
    push_decimal(&mut bytes, col + 1);
    bytes.push(';' as u8);
    push_decimal(&mut bytes, row + 1);
    bytes.push(last);
    bytes
}

fn legacy_bytes(event: Event, col: usize, row: usize, mods: Mods) -> (bytes: Vec<u8>)
    requires
        col <= LEGACY_MAX,
        row <= LEGACY_MAX,
    ensures
        bytes@ == legacy_report(event, col as int, row as int, mods),
{
    // Legacy has no way to say which button came up, so every release is
    // reported as the same "something was released" code.
    let button: u16 = match event {
        Event::Release(_) => 3,
        _ => event_bits(event),
    };
    let code: u16 = button + mod_bits(mods);
    let mut bytes: Vec<u8> = Vec::new();
    bytes.push(0x1b);
    bytes.push('[' as u8);
    bytes.push('M' as u8);
    bytes.push((code + 32) as u8);
    bytes.push((col + 33) as u8);
    bytes.push((row + 33) as u8);
    bytes
}

/// Encodes one event at 0-based grid position `(col, row)`.
///
/// `None` when the program isn't listening for it, or when the position is past
/// what the legacy encoding can express, in which case xterm sends nothing
/// rather than a wrong coordinate, and so do we.
pub fn encode(
    tracking: Tracking,
    encoding: Encoding,
    event: Event,
    col: usize,
    row: usize,
    mods: Mods,
) -> (out: Option<Vec<u8>>)
    requires
        is_wanted(tracking, event) && encoding is Sgr ==> col < usize::MAX && row < usize::MAX,
    ensures
        match report(tracking, encoding, event, col as int, row as int, mods) {
            Some(bytes) => out matches Some(sent) && sent@ == bytes,
            None => out is None,
        },
{
    if !wanted(tracking, event) {
        return None;
    }
    match encoding {
        Encoding::Sgr => Some(sgr_bytes(event, col, row, mods)),
        Encoding::Legacy => if col > LEGACY_MAX || row > LEGACY_MAX {
            None
        } else {
            Some(legacy_bytes(event, col, row, mods))
        },
    }
}

/// No byte of a legacy report is NUL: a NUL could end the sequence at the far
/// end. Column and row come back by taking the bias off again.
pub proof fn law_legacy_reports_are_faithful(
    tracking: Tracking,
    event: Event,
    col: nat,
    row: nat,
    mods: Mods,
)
    ensures
        report(tracking, Encoding::Legacy, event, col as int, row as int, mods) matches Some(bytes)
            ==> {
            &&& forall|i: int| 0 <= i < bytes.len() ==> bytes[i] != 0
            &&& bytes[4] == col + 33
            &&& bytes[5] == row + 33
            &&& bytes[3] == legacy_code(event, mods) + 32
        },
{
}

/// Legacy releases cannot be told apart: the button is not in the report.
pub proof fn law_legacy_release_hides_the_button(
    tracking: Tracking,
    a: Button,
    b: Button,
    col: int,
    row: int,
    mods: Mods,
)
    ensures
        report(tracking, Encoding::Legacy, Event::Release(a), col, row, mods) == report(
            tracking,
            Encoding::Legacy,
            Event::Release(b),
            col,
            row,
            mods,
        ),
{
}

/// In SGR a press and the release of the same button differ in the final byte
/// and nowhere else.
pub proof fn law_sgr_release_differs_in_its_final_byte(
    tracking: Tracking,
    button: Button,
    col: int,
    row: int,
    mods: Mods,
)
    requires
        !(tracking is Off),
    ensures
        ({
            let press = report(tracking, Encoding::Sgr, Event::Press(button), col, row, mods)->0;
            let release = report(
                tracking,
                Encoding::Sgr,
                Event::Release(button),
                col,
                row,
                mods,
            )->0;
            &&& press.drop_last() == release.drop_last()
            &&& press.last() == 'M' as u8
            &&& release.last() == 'm' as u8
        }),
{
    let press = sgr_report(Event::Press(button), col, row, mods);
    let release = sgr_report(Event::Release(button), col, row, mods);
    assert(press.drop_last() =~= release.drop_last());
}

/// Nothing is ever reported while tracking is off, and each mode reports all
/// that the mode below it does.
pub proof fn law_tracking_modes_are_nested(event: Event)
    ensures
        !is_wanted(Tracking::Off, event),
        is_wanted(Tracking::Normal, event) ==> is_wanted(Tracking::ButtonEvent, event),
        is_wanted(Tracking::ButtonEvent, event) ==> is_wanted(Tracking::AnyEvent, event),
        is_wanted(Tracking::AnyEvent, event),
{
}

/// A program that asked for the mouse hears of every press, every release and
/// every tick of the wheel. It hears of movements with a button held if it asked
/// for drags or for everything, and of the others only if it asked for
/// everything.
pub proof fn law_what_a_program_hears_of(tracking: Tracking, button: Button, up: bool)
    ensures
        is_wanted(tracking, Event::Press(button)) == (tracking != Tracking::Off),
        is_wanted(tracking, Event::Release(button)) == (tracking != Tracking::Off),
        is_wanted(tracking, Event::Wheel { up }) == (tracking != Tracking::Off),
        is_wanted(tracking, Event::Motion(Some(button))) == (tracking == Tracking::ButtonEvent
            || tracking == Tracking::AnyEvent),
        is_wanted(tracking, Event::Motion(None)) == (tracking == Tracking::AnyEvent),
{
}

/// Whether a program that asked for `tracking` hears of `event`.
pub open spec fn hears_of(tracking: Tracking, event: Event) -> bool {
    match event {
        Event::Motion(None) => tracking == Tracking::AnyEvent,
        Event::Motion(Some(_)) => tracking == Tracking::ButtonEvent || tracking
            == Tracking::AnyEvent,
        _ => tracking != Tracking::Off,
    }
}

/// What a program hears of is reported in SGR wherever it happens, and in the
/// legacy encoding as far as column and row 223; anything else is not reported.
pub proof fn law_what_is_reported(
    tracking: Tracking,
    encoding: Encoding,
    event: Event,
    col: int,
    row: int,
    mods: Mods,
)
    ensures
        report(tracking, encoding, event, col, row, mods) is Some == (hears_of(tracking, event) && (
        encoding == Encoding::Sgr || (col < 223 && row < 223))),
{
}

/// Whether `code` says what happened with which modifiers held: the button in
/// its lowest two bits, then a bit each for Shift, Alt, Ctrl, a movement and the
/// wheel.
pub open spec fn says(code: int, event: Event, mods: Mods, low: int) -> bool {
    &&& 0 <= code < 128
    &&& code % 4 == low
    &&& (code / 4 % 2 == 1) == mods.shift
    &&& (code / 8 % 2 == 1) == mods.alt
    &&& (code / 16 % 2 == 1) == mods.ctrl
    &&& (code / 32 % 2 == 1) == (event is Motion)
    &&& (code / 64 % 2 == 1) == (event is Wheel)
}

/// The button in a report: left, middle, right, and three for none of them; the
/// wheel counts up and down.
pub open spec fn button_in(event: Event) -> int {
    match event {
        Event::Press(Button::Left) | Event::Release(Button::Left) => 0,
        Event::Press(Button::Middle) | Event::Release(Button::Middle) => 1,
        Event::Press(Button::Right) | Event::Release(Button::Right) => 2,
        Event::Motion(Some(Button::Left)) => 0,
        Event::Motion(Some(Button::Middle)) => 1,
        Event::Motion(Some(Button::Right)) => 2,
        Event::Motion(None) => 3,
        Event::Wheel { up } => if up { 0 } else { 1 },
    }
}

/// An SGR report is `ESC [ <`, the code of the event, the column and the row,
/// counting from one, in decimal, and `m` for a release or `M` for anything
/// else.
pub proof fn law_sgr_reports_say_what_happened(
    tracking: Tracking,
    event: Event,
    col: nat,
    row: nat,
    mods: Mods,
)
    requires
        hears_of(tracking, event),
    ensures
        exists|code: int|
            says(code, event, mods, button_in(event)) && report(
                tracking,
                Encoding::Sgr,
                event,
                col as int,
                row as int,
                mods,
            ) == Some(
                seq![0x1bu8, 0x5b, 0x3c] + #[trigger] text::decimal(code as nat) + seq![0x3bu8]
                    + text::decimal((col + 1) as nat) + seq![0x3bu8] + text::decimal(
                    (row + 1) as nat,
                ) + seq![if event is Release { 0x6du8 } else { 0x4du8 }],
            ),
{
    let code = event_code(event) + mods_code(mods);
    assert(says(code, event, mods, button_in(event)));
    let spelled = seq![0x1bu8, 0x5b, 0x3c] + text::decimal(code as nat) + seq![0x3bu8]
        + text::decimal((col + 1) as nat) + seq![0x3bu8] + text::decimal((row + 1) as nat) + seq![
        if event is Release { 0x6du8 } else { 0x4du8 },
    ];
    assert(sgr_report(event, col as int, row as int, mods) =~= spelled);
}

/// A legacy report is `ESC [ M` and three bytes: the code of the event, the
/// column and the row, counting from one, each with 32 added. A release names no
/// button.
pub proof fn law_legacy_reports_say_what_happened(
    tracking: Tracking,
    event: Event,
    col: nat,
    row: nat,
    mods: Mods,
)
    requires
        hears_of(tracking, event),
        col < 223,
        row < 223,
    ensures
        ({
            let low = if event is Release { 3 } else { button_in(event) };
            let out = report(tracking, Encoding::Legacy, event, col as int, row as int, mods);
            &&& out matches Some(bytes)
            &&& bytes.len() == 6
            &&& bytes[0] == 0x1b && bytes[1] == 0x5b && bytes[2] == 0x4d
            &&& says(bytes[3] - 32, event, mods, low)
            &&& bytes[4] == col + 1 + 32
            &&& bytes[5] == row + 1 + 32
        }),
{
}

} // verus!
