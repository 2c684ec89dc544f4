//! The application's own key bindings.

use crate::input::{Key, ModifiersState, NamedKey};
use crate::pane::Axis;
use crate::text::{self, to_lowercase};
use vstd::prelude::*;
use vstd::string::StrSliceExecFns;

verus! {

#[derive(Clone, Copy, PartialEq, Eq, Debug, Structural)]
pub enum Direction {
    Left,
    Right,
    Up,
    Down,
}

/// How far to scroll the focused pane, and which way.
#[derive(Clone, Copy, PartialEq, Eq, Debug, Structural)]
pub enum ScrollStep {
    PageBack,
    PageForward,
    LineBack,
    LineForward,
    /// To the oldest line that is kept.
    Oldest,
    /// Back to the live screen.
    Live,
}

#[derive(Clone, Copy, PartialEq, Eq, Debug, Structural)]
pub enum FontStep {
    Larger,
    Smaller,
    Reset,
}

/// What a shortcut asks the application to do.
#[derive(Clone, Copy, PartialEq, Eq, Debug, Structural)]
pub enum Command {
    Scroll(ScrollStep),
    Focus(Direction),
    /// Move focus to the next pane in reading order, or the previous one.
    CycleFocus { forward: bool },
    /// Nudge the focused pane's boundary along an axis.
    Resize { axis: Axis, grow: bool },
    Split(Axis),
    Copy,
    Paste,
    ClosePane,
    Font(FontStep),
}

/// Whether a shortcut leader is held, and whether Shift is an *extra* modifier
/// on top of it.
///
/// The leader is Cmd on macOS and Ctrl+Shift elsewhere, and both are accepted
/// on both platforms. That makes Shift ambiguous: under Ctrl+Shift it is part
/// of the leader, so treating it as a modifier would make every Ctrl+Shift
/// binding behave like its shifted variant.
pub open spec fn leader(m: ModifiersState) -> Option<bool> {
    if m.logo || (m.control && m.shift) { Some(m.logo && m.shift) } else { None }
}

/// The scrollback keys that need no leader but Shift.
pub open spec fn unled_command(key: Key, m: ModifiersState) -> Option<Command> {
    if m.shift && key == Key::Named(NamedKey::PageUp) {
        Some(Command::Scroll(ScrollStep::PageBack))
    } else if m.shift && key == Key::Named(NamedKey::PageDown) {
        Some(Command::Scroll(ScrollStep::PageForward))
    } else {
        None
    }
}

/// What a named key does under the leader.
pub open spec fn named_command(key: NamedKey, shift: bool, alt: bool) -> Option<Command> {
    let line = shift && !alt;
    match key {
        NamedKey::PageUp => Some(Command::Scroll(ScrollStep::PageBack)),
        NamedKey::PageDown => Some(Command::Scroll(ScrollStep::PageForward)),
        NamedKey::Home => Some(Command::Scroll(ScrollStep::Oldest)),
        NamedKey::End => Some(Command::Scroll(ScrollStep::Live)),
        NamedKey::ArrowUp => Some(
            if line {
                Command::Scroll(ScrollStep::LineBack)
            } else if alt {
                Command::Focus(Direction::Up)
            } else {
                Command::Resize { axis: Axis::Vertical, grow: false }
            },
        ),
        NamedKey::ArrowDown => Some(
            if line {
                Command::Scroll(ScrollStep::LineForward)
            } else if alt {
                Command::Focus(Direction::Down)
            } else {
                Command::Resize { axis: Axis::Vertical, grow: true }
            },
        ),
        NamedKey::ArrowLeft => Some(
            if alt {
                Command::Focus(Direction::Left)
            } else {
                Command::Resize { axis: Axis::Horizontal, grow: false }
            },
        ),
        NamedKey::ArrowRight => Some(
            if alt {
                Command::Focus(Direction::Right)
            } else {
                Command::Resize { axis: Axis::Horizontal, grow: true }
            },
        ),
        _ => None,
    }
}

/// What a character does under the leader, by its lower case.
pub open spec fn letter_command(lower: Seq<char>, shift: bool) -> Option<Command> {
    if lower.len() != 1 {
        None
    } else {
        let c = lower[0];
        if c == 'd' {
            Some(Command::Split(if shift { Axis::Vertical } else { Axis::Horizontal }))
        } else if c == 'e' {
            Some(Command::Split(Axis::Vertical))
        } else if c == 'c' {
            Some(Command::Copy)
        } else if c == 'v' {
            Some(Command::Paste)
        } else if c == 'w' {
            Some(Command::ClosePane)
        } else if c == '[' {
            Some(Command::CycleFocus { forward: false })
        } else if c == ']' {
            Some(Command::CycleFocus { forward: true })
        } else if c == '+' || c == '=' {
            Some(Command::Font(FontStep::Larger))
        } else if c == '-' {
            Some(Command::Font(FontStep::Smaller))
        } else if c == '0' {
            Some(Command::Font(FontStep::Reset))
        } else {
            None
        }
    }
}

/// What a key press asks the application to do; `None` where it is not the
/// application's.
pub open spec fn command_of(key: Key, m: ModifiersState) -> Option<Command> {
    match leader(m) {
        None => unled_command(key, m),
        Some(shift) => match key {
            Key::Named(named) => named_command(named, shift, m.alt),
            Key::Character(s) => letter_command(text::lowercase(s@), shift),
            Key::Other => None,
        },
    }
}

/// Resolves modifiers into "is a shortcut leader held, and is Shift an *extra*
/// modifier on top of it". Returns `None` when no leader is held.
pub fn leader_shift(m: ModifiersState) -> (shift: Option<bool>)
    ensures
        shift == leader(m),
{
    let ctrl_shift = m.control && m.shift;
    if !m.logo && !ctrl_shift {
        return None;
    }
    Some(m.logo && m.shift)
}

/// The command that a named key is under the leader.
pub fn command_for_named(key: NamedKey, shift: bool, alt: bool) -> (command: Option<Command>)
    ensures
        command == named_command(key, shift, alt),
{
    // Scrollback. Mac keyboards have no PageUp, so Cmd+Shift+Arrow is the
    // binding that actually gets used there. Linux keeps Ctrl+Shift+Arrow for
    // resizing and scrolls with Shift+PageUp.
    if shift && !alt {
        match key {
            NamedKey::ArrowUp => return Some(Command::Scroll(ScrollStep::LineBack)),
            NamedKey::ArrowDown => return Some(Command::Scroll(ScrollStep::LineForward)),
            _ => {},
        }
    }
    match key {
        NamedKey::PageUp => Some(Command::Scroll(ScrollStep::PageBack)),
        NamedKey::PageDown => Some(Command::Scroll(ScrollStep::PageForward)),
        NamedKey::Home => Some(Command::Scroll(ScrollStep::Oldest)),
        NamedKey::End => Some(Command::Scroll(ScrollStep::Live)),
        NamedKey::ArrowLeft => Some(
            if alt {
                Command::Focus(Direction::Left)
            } else {
                Command::Resize { axis: Axis::Horizontal, grow: false }
            },
        ),
        NamedKey::ArrowRight => Some(
            if alt {
                Command::Focus(Direction::Right)
            } else {
                Command::Resize { axis: Axis::Horizontal, grow: true }
            },
        ),
        NamedKey::ArrowUp => Some(
            if alt {
                Command::Focus(Direction::Up)
            } else {
                Command::Resize { axis: Axis::Vertical, grow: false }
            },
        ),
        NamedKey::ArrowDown => Some(
            if alt {
                Command::Focus(Direction::Down)
            } else {
                Command::Resize { axis: Axis::Vertical, grow: true }
            },
        ),
        _ => None,
    }
}

/// The command that a character is under the leader, by its lower case.
pub fn command_for_letter(lower: &str, shift: bool) -> (command: Option<Command>)
    ensures
        command == letter_command(lower@, shift),
{
    if lower.unicode_len() != 1 {
        return None;
    }
    match lower.get_char(0) {
        // Cmd+D / Cmd+Shift+D on macOS. Under the Ctrl+Shift leader the
        // shifted variant is unreachable, so E is the second split key; it
        // works under either leader.
        'd' => Some(Command::Split(if shift { Axis::Vertical } else { Axis::Horizontal })),
        'e' => Some(Command::Split(Axis::Vertical)),
        // Always consumed. Falling through would reach the key encoder, and
        // under the Ctrl+Shift leader that means Ctrl+C: pressing the copy key
        // with nothing selected would kill the running job.
        'c' => Some(Command::Copy),
        'v' => Some(Command::Paste),
        'w' => Some(Command::ClosePane),
        '[' => Some(Command::CycleFocus { forward: false }),
        ']' => Some(Command::CycleFocus { forward: true }),
        '+' | '=' => Some(Command::Font(FontStep::Larger)),
        '-' => Some(Command::Font(FontStep::Smaller)),
        '0' => Some(Command::Font(FontStep::Reset)),
        _ => None,
    }
}

/// App-level shortcuts: what a key press asks for, or `None` if it belongs to
/// the shell.
///
/// Of a key that types one ASCII character under the leader, the lower case is
/// that of ASCII.
pub fn shortcut(key: &Key, m: ModifiersState) -> (command: Option<Command>)
    ensures
        command == command_of(*key, m),
        *key matches Key::Character(s) ==> (leader(m) is Some && s@.len() == 1 && s@[0] as int
            <= 127 ==> text::lowercase(s@) == seq![text::ascii_lower(s@[0])]),
{
    let shift: bool = match leader_shift(m) {
        Some(shift) => shift,
        // Scrollback needs no leader beyond Shift.
        None => {
            if m.shift {
                if let Key::Named(named) = key {
                    match *named {
                        NamedKey::PageUp => return Some(Command::Scroll(ScrollStep::PageBack)),
                        NamedKey::PageDown => return Some(
                            Command::Scroll(ScrollStep::PageForward),
                        ),
                        _ => {},
                    }
                }
            }
            return None;
        },
    };
    match key {
        Key::Named(named) => command_for_named(*named, shift, m.alt),
        Key::Character(s) => {
            // Lowercase so Cmd+Shift+D and Cmd+D land in the same arm.
            let lower = to_lowercase(s.as_str());
            command_for_letter(lower.as_str(), shift)
        },
        Key::Other => None,
    }
}

/// A key press without a leader stays with the shell, unless it is
/// Shift+PageUp or Shift+PageDown.
pub proof fn law_the_shell_keeps_its_keys(key: Key, m: ModifiersState)
    requires
        leader(m) is None,
        !(m.shift && (key == Key::Named(NamedKey::PageUp) || key == Key::Named(
            NamedKey::PageDown,
        ))),
    ensures
        command_of(key, m) is None,
{
}

/// Ctrl alone, Shift alone and Alt alone are no leaders, so control characters
/// and capitals reach the shell.
pub proof fn law_single_modifiers_do_not_lead(m: ModifiersState)
    requires
        !m.logo,
        !(m.control && m.shift),
    ensures
        leader(m) is None,
{
}

/// Under Ctrl+Shift the leader's own Shift selects no variant: the same
/// binding is reached as under Cmd without Shift.
pub proof fn law_both_leaders_reach_the_same_bindings(key: Key, alt: bool)
    ensures
        command_of(
            key,
            ModifiersState { shift: true, alt, control: true, logo: false },
        ) == command_of(key, ModifiersState { shift: false, alt, control: false, logo: true }),
{
}

/// Whether the keys that lead a shortcut are held: Cmd, or Ctrl with Shift.
pub open spec fn leads(m: ModifiersState) -> bool {
    m.logo || (m.control && m.shift)
}

/// Whether Shift is held on top of the leader.
pub open spec fn shifted(m: ModifiersState) -> bool {
    m.logo && m.shift
}

/// Whether the key types `c`, or its capital.
pub open spec fn types(key: Key, c: char) -> bool {
    key matches Key::Character(s) && text::lowercase(s@) == seq![c]
}

/// Splitting: `D` left and right, `Shift+D` or `E` top and bottom.
pub proof fn law_keys_that_split(key: Key, m: ModifiersState)
    ensures
        command_of(key, m) == Some(Command::Split(Axis::Horizontal)) <==> leads(m) && types(key, 'd')
            && !shifted(m),
        command_of(key, m) == Some(Command::Split(Axis::Vertical)) <==> leads(m) && ((types(key, 'd')
            && shifted(m)) || types(key, 'e')),
{
    lemma_types(key);
}

/// Closing, copying and pasting: `W`, `C` and `V`.
pub proof fn law_keys_that_close_copy_and_paste(key: Key, m: ModifiersState)
    ensures
        command_of(key, m) == Some(Command::ClosePane) <==> leads(m) && types(key, 'w'),
        command_of(key, m) == Some(Command::Copy) <==> leads(m) && types(key, 'c'),
        command_of(key, m) == Some(Command::Paste) <==> leads(m) && types(key, 'v'),
{
    lemma_types(key);
}

/// The font: `+` or `=` larger, `-` smaller, `0` as it was.
pub proof fn law_keys_of_the_font(key: Key, m: ModifiersState)
    ensures
        command_of(key, m) == Some(Command::Font(FontStep::Larger)) <==> leads(m) && (types(key, '+')
            || types(key, '=')),
        command_of(key, m) == Some(Command::Font(FontStep::Smaller)) <==> leads(m) && types(key, '-'),
        command_of(key, m) == Some(Command::Font(FontStep::Reset)) <==> leads(m) && types(key, '0'),
{
    lemma_types(key);
}

/// The focus: `[` back and `]` on through the panes, and `Alt` with an arrow in
/// its direction.
pub proof fn law_keys_of_the_focus(key: Key, m: ModifiersState)
    ensures
        command_of(key, m) == Some(Command::CycleFocus { forward: false }) <==> leads(m) && types(
            key,
            '[',
        ),
        command_of(key, m) == Some(Command::CycleFocus { forward: true }) <==> leads(m) && types(
            key,
            ']',
        ),
        command_of(key, m) == Some(Command::Focus(Direction::Up)) <==> leads(m) && m.alt && key
            == Key::Named(NamedKey::ArrowUp),
        command_of(key, m) == Some(Command::Focus(Direction::Down)) <==> leads(m) && m.alt && key
            == Key::Named(NamedKey::ArrowDown),
        command_of(key, m) == Some(Command::Focus(Direction::Left)) <==> leads(m) && m.alt && key
            == Key::Named(NamedKey::ArrowLeft),
        command_of(key, m) == Some(Command::Focus(Direction::Right)) <==> leads(m) && m.alt && key
            == Key::Named(NamedKey::ArrowRight),
{
    lemma_types(key);
}

/// The boundary of the focused pane: an arrow without `Alt` moves it, right and
/// down to make the pane larger, save that `Shift` with up or down scrolls.
pub proof fn law_keys_that_resize(key: Key, m: ModifiersState)
    ensures
        ({
            let moves = |axis: Axis, grow: bool|
                command_of(key, m) == Some(Command::Resize { axis, grow });
            &&& moves(Axis::Horizontal, true) <==> leads(m) && !m.alt && key == Key::Named(
                NamedKey::ArrowRight,
            )
            &&& moves(Axis::Horizontal, false) <==> leads(m) && !m.alt && key == Key::Named(
                NamedKey::ArrowLeft,
            )
            &&& moves(Axis::Vertical, true) <==> leads(m) && !m.alt && !shifted(m) && key
                == Key::Named(NamedKey::ArrowDown)
            &&& moves(Axis::Vertical, false) <==> leads(m) && !m.alt && !shifted(m) && key
                == Key::Named(NamedKey::ArrowUp)
        }),
{
    lemma_types(key);
}

/// Scrolling: a page at a time with PageUp and PageDown, under the leader or
/// Shift alone; a line at a time with `Shift` and up or down under the leader;
/// to the oldest line with Home and back with End.
pub proof fn law_keys_that_scroll(key: Key, m: ModifiersState)
    ensures
        ({
            let scrolls = |step: ScrollStep| command_of(key, m) == Some(Command::Scroll(step));
            let paging = leads(m) || m.shift;
            &&& scrolls(ScrollStep::PageBack) <==> paging && key == Key::Named(NamedKey::PageUp)
            &&& scrolls(ScrollStep::PageForward) <==> paging && key == Key::Named(NamedKey::PageDown)
            &&& scrolls(ScrollStep::LineBack) <==> leads(m) && shifted(m) && !m.alt && key
                == Key::Named(NamedKey::ArrowUp)
            &&& scrolls(ScrollStep::LineForward) <==> leads(m) && shifted(m) && !m.alt && key
                == Key::Named(NamedKey::ArrowDown)
            &&& scrolls(ScrollStep::Oldest) <==> leads(m) && key == Key::Named(NamedKey::Home)
            &&& scrolls(ScrollStep::Live) <==> leads(m) && key == Key::Named(NamedKey::End)
        }),
{
    lemma_types(key);
}

/// A key types one character or none that is bound.
proof fn lemma_types(key: Key)
    ensures
        key matches Key::Character(s) ==> forall|c: char|
            (text::lowercase(s@) == #[trigger] seq![c]) == (text::lowercase(s@).len() == 1
                && text::lowercase(s@)[0] == c),
{
    if let Key::Character(s) = key {
        assert forall|c: char|
            (text::lowercase(s@) == #[trigger] seq![c]) == (text::lowercase(s@).len() == 1
                && text::lowercase(s@)[0] == c) by {
            if text::lowercase(s@).len() == 1 && text::lowercase(s@)[0] == c {
                assert(text::lowercase(s@) =~= seq![c]);
            }
        }
    }
}

} // verus!
