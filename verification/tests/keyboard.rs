//! Keys as bytes, and as shortcuts.

use koma::input::{encode, Key, KeyEvent, ModifiersState, NamedKey};
use koma::pane::Axis;
use koma::shortcut::{shortcut, Command, Direction, FontStep, ScrollStep};

fn held(names: &str) -> ModifiersState {
    ModifiersState {
        shift: names.contains("shift"),
        alt: names.contains("alt"),
        control: names.contains("ctrl"),
        logo: names.contains("cmd"),
    }
}

fn named(key: NamedKey, mods: &str, app_cursor: bool) -> Option<Vec<u8>> {
    encode(&KeyEvent { logical_key: Key::Named(key), text: None }, held(mods), app_cursor)
}

fn typed(key: &str, text: &str, mods: &str) -> Option<Vec<u8>> {
    let event = KeyEvent {
        logical_key: Key::Character(key.to_string()),
        text: if text.is_empty() { None } else { Some(text.to_string()) },
    };
    encode(&event, held(mods), false)
}

fn bytes(s: &str) -> Option<Vec<u8>> {
    Some(s.as_bytes().to_vec())
}

#[test]
fn editing_keys_send_their_control_codes() {
    assert_eq!(named(NamedKey::Enter, "", false), bytes("\r"));
    assert_eq!(named(NamedKey::Escape, "", false), bytes("\x1b"));
    assert_eq!(named(NamedKey::Backspace, "", false), bytes("\x7f"));
    assert_eq!(named(NamedKey::Backspace, "alt", false), bytes("\x1b\x7f"));
    assert_eq!(named(NamedKey::Backspace, "ctrl", false), bytes("\x08"));
    assert_eq!(named(NamedKey::Tab, "", false), bytes("\t"));
    assert_eq!(named(NamedKey::Tab, "shift", false), bytes("\x1b[Z"));
    assert_eq!(named(NamedKey::Space, "", false), bytes(" "));
    assert_eq!(named(NamedKey::Space, "ctrl", false), bytes("\0"));
}

#[test]
fn arrows_follow_the_cursor_key_mode_until_a_modifier_is_held() {
    assert_eq!(named(NamedKey::ArrowUp, "", false), bytes("\x1b[A"));
    assert_eq!(named(NamedKey::ArrowDown, "", true), bytes("\x1bOB"));
    assert_eq!(named(NamedKey::ArrowRight, "ctrl", true), bytes("\x1b[1;5C"));
    assert_eq!(named(NamedKey::ArrowLeft, "shift alt ctrl", false), bytes("\x1b[1;8D"));
    assert_eq!(named(NamedKey::Home, "", false), bytes("\x1b[H"));
    assert_eq!(named(NamedKey::End, "", true), bytes("\x1bOF"));
}

#[test]
fn tilde_keys_carry_their_number() {
    assert_eq!(named(NamedKey::Insert, "", false), bytes("\x1b[2~"));
    assert_eq!(named(NamedKey::Delete, "shift", false), bytes("\x1b[3;2~"));
    assert_eq!(named(NamedKey::PageUp, "", false), bytes("\x1b[5~"));
    assert_eq!(named(NamedKey::PageDown, "", false), bytes("\x1b[6~"));
    assert_eq!(named(NamedKey::F1, "", false), bytes("\x1bOP"));
    assert_eq!(named(NamedKey::F4, "ctrl", false), bytes("\x1bOS"));
    assert_eq!(named(NamedKey::F5, "", false), bytes("\x1b[15~"));
    assert_eq!(named(NamedKey::F12, "", false), bytes("\x1b[24~"));
    assert_eq!(named(NamedKey::Other, "", false), None);
}

#[test]
fn printable_text_goes_as_it_is() {
    assert_eq!(typed("a", "a", ""), bytes("a"));
    assert_eq!(typed("あ", "あ", ""), bytes("あ"));
    assert_eq!(typed("a", "", ""), None);
    assert_eq!(typed("a", "a", "alt"), bytes("\x1ba"));
    assert_eq!(typed("a", "a", "cmd"), None, "the logo key is for shortcuts");
}

#[test]
fn control_takes_the_unmodified_key() {
    assert_eq!(typed("c", "", "ctrl"), bytes("\x03"));
    assert_eq!(typed("C", "\x03", "ctrl"), bytes("\x03"));
    assert_eq!(typed("[", "", "ctrl"), bytes("\x1b"));
    assert_eq!(typed("?", "", "ctrl"), bytes("\x7f"));
    assert_eq!(typed("@", "", "ctrl"), bytes("\0"));
    assert_eq!(typed("a", "", "ctrl alt"), bytes("\x1b\x01"));
    // No control code: the text is all there is.
    assert_eq!(typed("5", "5", "ctrl"), bytes("5"));
    // A dead key has no character of its own.
    let dead = KeyEvent { logical_key: Key::Other, text: Some("a".to_string()) };
    assert_eq!(encode(&dead, held("ctrl"), false), bytes("\x01"));
}

fn bound(key: &str, mods: &str) -> Option<Command> {
    shortcut(&Key::Character(key.to_string()), held(mods))
}

fn bound_named(key: NamedKey, mods: &str) -> Option<Command> {
    shortcut(&Key::Named(key), held(mods))
}

#[test]
fn letters_are_bound_whatever_their_case() {
    assert_eq!(bound("d", "cmd"), Some(Command::Split(Axis::Horizontal)));
    assert_eq!(bound("D", "cmd shift"), Some(Command::Split(Axis::Vertical)));
    assert_eq!(bound("D", "ctrl shift"), Some(Command::Split(Axis::Horizontal)));
    assert_eq!(bound("E", "ctrl shift"), Some(Command::Split(Axis::Vertical)));
    assert_eq!(bound("C", "ctrl shift"), Some(Command::Copy));
    assert_eq!(bound("v", "cmd"), Some(Command::Paste));
    assert_eq!(bound("w", "cmd"), Some(Command::ClosePane));
    assert_eq!(bound("[", "cmd"), Some(Command::CycleFocus { forward: false }));
    assert_eq!(bound("]", "cmd"), Some(Command::CycleFocus { forward: true }));
    assert_eq!(bound("=", "cmd"), Some(Command::Font(FontStep::Larger)));
    assert_eq!(bound("+", "cmd"), Some(Command::Font(FontStep::Larger)));
    assert_eq!(bound("-", "cmd"), Some(Command::Font(FontStep::Smaller)));
    assert_eq!(bound("0", "cmd"), Some(Command::Font(FontStep::Reset)));
    assert_eq!(bound("x", "cmd"), None);
    assert_eq!(bound("d", "ctrl"), None, "no leader");
    assert_eq!(shortcut(&Key::Other, held("cmd")), None);
}

#[test]
fn arrows_are_bound_under_a_leader() {
    assert_eq!(
        bound_named(NamedKey::ArrowUp, "cmd shift"),
        Some(Command::Scroll(ScrollStep::LineBack))
    );
    assert_eq!(
        bound_named(NamedKey::ArrowDown, "cmd shift"),
        Some(Command::Scroll(ScrollStep::LineForward))
    );
    assert_eq!(
        bound_named(NamedKey::ArrowUp, "ctrl shift"),
        Some(Command::Resize { axis: Axis::Vertical, grow: false })
    );
    assert_eq!(
        bound_named(NamedKey::ArrowRight, "cmd"),
        Some(Command::Resize { axis: Axis::Horizontal, grow: true })
    );
    assert_eq!(bound_named(NamedKey::ArrowLeft, "cmd alt"), Some(Command::Focus(Direction::Left)));
    assert_eq!(
        bound_named(NamedKey::ArrowDown, "cmd shift alt"),
        Some(Command::Focus(Direction::Down))
    );
    assert_eq!(bound_named(NamedKey::Enter, "cmd"), None);
}

#[test]
fn pages_need_no_leader_beyond_shift() {
    let back = Some(Command::Scroll(ScrollStep::PageBack));
    let forward = Some(Command::Scroll(ScrollStep::PageForward));
    assert_eq!(bound_named(NamedKey::PageUp, "shift"), back);
    assert_eq!(bound_named(NamedKey::PageDown, "shift"), forward);
    assert_eq!(bound_named(NamedKey::PageUp, "cmd"), back);
    assert_eq!(bound_named(NamedKey::PageDown, "ctrl shift"), forward);
    assert_eq!(bound_named(NamedKey::PageUp, ""), None);
    assert_eq!(bound_named(NamedKey::Home, "shift"), None);
    assert_eq!(bound_named(NamedKey::Home, "cmd"), Some(Command::Scroll(ScrollStep::Oldest)));
    assert_eq!(bound_named(NamedKey::End, "cmd"), Some(Command::Scroll(ScrollStep::Live)));
}
