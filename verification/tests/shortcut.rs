//! Shortcuts.

use koma::input::ModifiersState;
use koma::shortcut::leader_shift;

fn mods(held: &str) -> ModifiersState {
    ModifiersState {
        shift: held.contains("shift"),
        alt: held.contains("alt"),
        control: held.contains("ctrl"),
        logo: held.contains("cmd"),
    }
}

#[test]
fn cmd_alone_is_a_leader_without_extra_shift() {
    assert_eq!(leader_shift(mods("cmd")), Some(false));
}

#[test]
fn cmd_plus_shift_reports_shift_as_extra() {
    assert_eq!(leader_shift(mods("cmd shift")), Some(true));
}

#[test]
fn ctrl_shift_is_a_leader_and_its_shift_is_not_extra() {
    // Counting the leader's own Shift as a modifier would make Ctrl+Shift+Up
    // scroll instead of resize, and every split Vertical.
    assert_eq!(leader_shift(mods("ctrl shift")), Some(false));
    assert_eq!(leader_shift(mods("ctrl shift alt")), Some(false));
}

#[test]
fn partial_modifiers_are_not_leaders() {
    assert_eq!(leader_shift(mods("")), None);
    assert_eq!(leader_shift(mods("shift")), None, "Shift alone belongs to the shell");
    assert_eq!(leader_shift(mods("ctrl")), None, "bare Ctrl must reach the shell as ^C etc.");
    assert_eq!(leader_shift(mods("alt")), None);
}

#[test]
fn cmd_wins_when_both_leaders_are_held() {
    // Cmd+Shift+Ctrl should still count Shift as extra, since Cmd leads.
    assert_eq!(leader_shift(mods("cmd ctrl shift")), Some(true));
}
