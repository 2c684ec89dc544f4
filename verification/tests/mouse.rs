//! Mouse reports.

use koma::mouse::{encode, Button, Encoding, Event, Mods, Tracking};

fn sgr(event: Event, col: usize, row: usize) -> String {
    String::from_utf8(
        encode(Tracking::AnyEvent, Encoding::Sgr, event, col, row, Mods::default()).unwrap(),
    )
    .unwrap()
}

#[test]
fn nothing_is_reported_while_tracking_is_off() {
    for e in [
        Event::Press(Button::Left),
        Event::Release(Button::Left),
        Event::Motion(None),
        Event::Wheel { up: true },
    ] {
        assert!(
            encode(Tracking::Off, Encoding::Sgr, e, 0, 0, Mods::default()).is_none(),
            "{e:?} leaked while off"
        );
    }
}

#[test]
fn sgr_reports_are_one_based() {
    // The wire protocol counts from 1; our grid counts from 0.
    assert_eq!(sgr(Event::Press(Button::Left), 0, 0), "\x1b[<0;1;1M");
    assert_eq!(sgr(Event::Press(Button::Left), 9, 4), "\x1b[<0;10;5M");
}

#[test]
fn sgr_distinguishes_release_by_its_final_byte() {
    // This is the whole point of 1006: legacy can't say which button.
    assert_eq!(sgr(Event::Press(Button::Right), 2, 3), "\x1b[<2;3;4M");
    assert_eq!(sgr(Event::Release(Button::Right), 2, 3), "\x1b[<2;3;4m");
}

#[test]
fn the_wheel_uses_its_own_button_codes() {
    assert_eq!(sgr(Event::Wheel { up: true }, 0, 0), "\x1b[<64;1;1M");
    assert_eq!(sgr(Event::Wheel { up: false }, 0, 0), "\x1b[<65;1;1M");
}

#[test]
fn motion_sets_the_drag_bit_and_carries_the_button() {
    assert_eq!(sgr(Event::Motion(Some(Button::Left)), 0, 0), "\x1b[<32;1;1M");
    assert_eq!(sgr(Event::Motion(Some(Button::Middle)), 0, 0), "\x1b[<33;1;1M");
    // Nothing held is reported as button 3 plus the motion bit.
    assert_eq!(sgr(Event::Motion(None), 0, 0), "\x1b[<35;1;1M");
}

#[test]
fn modifiers_add_their_bits() {
    // Ctrl and Alt are the ones a program can actually see: koma keeps
    // Shift for itself, so a report never carries that bit in practice.
    let m = Mods { shift: false, alt: true, ctrl: true };
    let out = encode(Tracking::Normal, Encoding::Sgr, Event::Press(Button::Left), 0, 0, m);
    // 0 (left) + 8 (alt) + 16 (ctrl)
    assert_eq!(String::from_utf8(out.unwrap()).unwrap(), "\x1b[<24;1;1M");

    // The encoder is general even so, since the bit is part of the format.
    let shifted = Mods { shift: true, alt: false, ctrl: false };
    let out =
        encode(Tracking::Normal, Encoding::Sgr, Event::Press(Button::Left), 0, 0, shifted);
    assert_eq!(String::from_utf8(out.unwrap()).unwrap(), "\x1b[<4;1;1M");
}

#[test]
fn plain_tracking_ignores_motion_but_not_buttons() {
    let m = Mods::default();
    assert!(
        encode(Tracking::Normal, Encoding::Sgr, Event::Motion(Some(Button::Left)), 0, 0, m)
            .is_none()
    );
    assert!(
        encode(Tracking::Normal, Encoding::Sgr, Event::Press(Button::Left), 0, 0, m).is_some()
    );
}

#[test]
fn button_event_tracking_reports_drags_only() {
    let m = Mods::default();
    let held = Event::Motion(Some(Button::Left));
    let hover = Event::Motion(None);
    assert!(encode(Tracking::ButtonEvent, Encoding::Sgr, held, 0, 0, m).is_some());
    assert!(
        encode(Tracking::ButtonEvent, Encoding::Sgr, hover, 0, 0, m).is_none(),
        "a bare hover is not a drag"
    );
    assert!(encode(Tracking::AnyEvent, Encoding::Sgr, hover, 0, 0, m).is_some());
}

#[test]
fn legacy_biases_every_field_by_32() {
    let out = encode(
        Tracking::Normal,
        Encoding::Legacy,
        Event::Press(Button::Left),
        0,
        0,
        Mods::default(),
    )
    .unwrap();
    assert_eq!(out, vec![0x1b, b'[', b'M', 32, 33, 33]);
}

#[test]
fn legacy_cannot_name_the_released_button() {
    let m = Mods::default();
    let left =
        encode(Tracking::Normal, Encoding::Legacy, Event::Release(Button::Left), 1, 1, m)
            .unwrap();
    let right =
        encode(Tracking::Normal, Encoding::Legacy, Event::Release(Button::Right), 1, 1, m)
            .unwrap();
    assert_eq!(left, right, "legacy releases are indistinguishable by design");
    assert_eq!(left[3], 3 + 32);
}

#[test]
fn legacy_stays_silent_rather_than_reporting_a_wrong_column() {
    let m = Mods::default();
    let press = Event::Press(Button::Left);
    let at = |col, row| encode(Tracking::Normal, Encoding::Legacy, press, col, row, m);

    // 222 counting from zero is 223 on the wire: the last byte that fits.
    assert_eq!(at(222, 0).unwrap()[4], 255);
    // 256 would truncate to NUL, which is worse than a wrong number: a NUL can
    // terminate the sequence at the far end.
    assert!(at(223, 0).is_none(), "the column past the ceiling must send nothing");
    assert!(at(224, 0).is_none());
    // Rows have the same ceiling and the same failure.
    assert_eq!(at(0, 222).unwrap()[5], 255);
    assert!(at(0, 223).is_none());

    // No byte of any accepted report may be NUL.
    for col in 0..=222 {
        for row in [0usize, 100, 222] {
            let out = at(col, row).unwrap();
            assert!(!out.contains(&0), "col={col} row={row} produced {out:?}");
        }
    }

    // SGR has no such limit, which is why programs ask for it.
    assert!(encode(Tracking::Normal, Encoding::Sgr, press, 5000, 0, m).is_some());
}
