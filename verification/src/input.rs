//! Translates key presses into the bytes a pty expects (xterm encoding).

use crate::text::{self, push_bytes, push_decimal};
use vstd::prelude::*;
use vstd::string::StrSliceExecFns;

verus! {

/// The modifiers held during a key press.
#[derive(Clone, Copy, PartialEq, Eq, Debug, Default, Structural)]
pub struct ModifiersState {
    pub shift: bool,
    pub alt: bool,
    pub control: bool,
    /// Cmd on macOS, the logo key elsewhere.
    pub logo: bool,
}

/// The keys that have a name rather than a character. `Other` stands for all
/// that mean nothing here.
#[derive(Clone, Copy, PartialEq, Eq, Debug, Structural)]
pub enum NamedKey {
    Enter,
    Backspace,
    Tab,
    Escape,
    Space,
    ArrowUp,
    ArrowDown,
    ArrowRight,
    ArrowLeft,
    Home,
    End,
    Insert,
    Delete,
    PageUp,
    PageDown,
    F1,
    F2,
    F3,
    F4,
    F5,
    F6,
    F7,
    F8,
    F9,
    F10,
    F11,
    F12,
    Other,
}

/// What a key means in the current layout.
pub enum Key {
    Named(NamedKey),
    Character(String),
    /// A dead key, or one that could not be identified.
    Other,
}

/// One key press: the key, and the text it produces with the layout and dead
/// keys applied.
pub struct KeyEvent {
    pub logical_key: Key,
    pub text: Option<String>,
}

impl ModifiersState {
    pub fn empty() -> (m: ModifiersState)
        ensures
            m == (ModifiersState { shift: false, alt: false, control: false, logo: false }),
    {
        ModifiersState { shift: false, alt: false, control: false, logo: false }
    }
}

/// xterm's modifier parameter: 1 + bitfield(shift=1, alt=2, ctrl=4, super=8).
pub open spec fn modifier_number(m: ModifiersState) -> int {
    1 + (if m.shift { 1int } else { 0 }) + (if m.alt { 2int } else { 0 }) + (if m.control {
        4int
    } else {
        0
    }) + (if m.logo { 8int } else { 0 })
}

/// `ESC [ A` normally, `ESC O A` in application-cursor mode, and
/// `ESC [ 1 ; mod A` when any modifier is held.
pub open spec fn cursor_bytes(final_byte: u8, m: ModifiersState, app_cursor: bool) -> Seq<u8> {
    let p = modifier_number(m);
    if p > 1 {
        (seq![0x1bu8, '[' as u8, '1' as u8, ';' as u8] + text::decimal(p as nat)).push(final_byte)
    } else if app_cursor {
        seq![0x1bu8, 'O' as u8, final_byte]
    } else {
        seq![0x1bu8, '[' as u8, final_byte]
    }
}

/// `ESC [ n ~`, or `ESC [ n ; mod ~` when any modifier is held.
pub open spec fn tilde_bytes(n: int, m: ModifiersState) -> Seq<u8> {
    let p = modifier_number(m);
    let head = seq![0x1bu8, '[' as u8] + text::decimal(n as nat);
    if p > 1 {
        (head.push(';' as u8) + text::decimal(p as nat)).push('~' as u8)
    } else {
        head.push('~' as u8)
    }
}

/// The final byte of the cursor keys, and of Home and End.
pub open spec fn cursor_final(key: NamedKey) -> Option<u8> {
    match key {
        NamedKey::ArrowUp => Some('A' as u8),
        NamedKey::ArrowDown => Some('B' as u8),
        NamedKey::ArrowRight => Some('C' as u8),
        NamedKey::ArrowLeft => Some('D' as u8),
        NamedKey::Home => Some('H' as u8),
        NamedKey::End => Some('F' as u8),
        _ => None,
    }
}

/// The number of the keys that send `ESC [ n ~`.
pub open spec fn tilde_number(key: NamedKey) -> Option<int> {
    match key {
        NamedKey::Insert => Some(2),
        NamedKey::Delete => Some(3),
        NamedKey::PageUp => Some(5),
        NamedKey::PageDown => Some(6),
        NamedKey::F5 => Some(15),
        NamedKey::F6 => Some(17),
        NamedKey::F7 => Some(18),
        NamedKey::F8 => Some(19),
        NamedKey::F9 => Some(20),
        NamedKey::F10 => Some(21),
        NamedKey::F11 => Some(23),
        NamedKey::F12 => Some(24),
        _ => None,
    }
}

/// The final byte of the keys that send `ESC O x` whatever is held.
pub open spec fn function_final(key: NamedKey) -> Option<u8> {
    match key {
        NamedKey::F1 => Some('P' as u8),
        NamedKey::F2 => Some('Q' as u8),
        NamedKey::F3 => Some('R' as u8),
        NamedKey::F4 => Some('S' as u8),
        _ => None,
    }
}

/// What a named key sends.
pub open spec fn named_bytes(key: NamedKey, m: ModifiersState, app_cursor: bool) -> Option<
    Seq<u8>,
> {
    if let Some(final_byte) = cursor_final(key) {
        Some(cursor_bytes(final_byte, m, app_cursor))
    } else if let Some(n) = tilde_number(key) {
        Some(tilde_bytes(n, m))
    } else if let Some(final_byte) = function_final(key) {
        Some(seq![0x1bu8, 'O' as u8, final_byte])
    } else {
        match key {
            NamedKey::Enter => Some(seq![0x0du8]),
            NamedKey::Backspace => if m.alt {
                Some(seq![0x1bu8, 0x7fu8])
            } else if m.control {
                Some(seq![0x08u8])
            } else {
                Some(seq![0x7fu8])
            },
            NamedKey::Tab => if m.shift {
                Some(seq![0x1bu8, '[' as u8, 'Z' as u8])
            } else {
                Some(seq![0x09u8])
            },
            NamedKey::Escape => Some(seq![0x1bu8]),
            NamedKey::Space => Some(seq![if m.control { 0u8 } else { 0x20u8 }]),
            _ => None,
        }
    }
}

/// The control code of a character, e.g. 0x03 for `c`.
pub open spec fn control_code(c: char) -> Option<u8> {
    if c == ' ' || c == '@' {
        Some(0x00u8)
    } else if 'a' <= c <= 'z' {
        Some((c as int - 'a' as int + 1) as u8)
    } else if 'A' <= c <= 'Z' {
        Some((c as int - 'A' as int + 1) as u8)
    } else if c == '[' {
        Some(0x1bu8)
    } else if c == '\\' {
        Some(0x1cu8)
    } else if c == ']' {
        Some(0x1du8)
    } else if c == '^' {
        Some(0x1eu8)
    } else if c == '_' {
        Some(0x1fu8)
    } else if c == '?' {
        Some(0x7fu8)
    } else {
        None
    }
}

/// The text of a key press, empty where it has none.
pub open spec fn text_of(ev: KeyEvent) -> Seq<char> {
    match ev.text {
        Some(t) => t@,
        None => Seq::empty(),
    }
}

/// The character a control code is made from: the key's own, since the text of
/// Ctrl+A is often already 0x01, or empty, depending on the platform.
pub open spec fn control_base(ev: KeyEvent) -> Option<char> {
    let from = match ev.logical_key {
        Key::Character(s) => s@,
        _ => text_of(ev),
    };
    if from.len() > 0 { Some(from[0]) } else { None }
}

/// Whether a key press is a control code, and which.
pub open spec fn control_of(ev: KeyEvent, m: ModifiersState) -> Option<u8> {
    if m.control && control_base(ev) is Some { control_code(control_base(ev)->0) } else { None }
}

/// What a key press sends. Cmd is reserved for the application, so nothing is
/// sent while it is held; Alt puts ESC before what is typed.
pub open spec fn key_bytes(ev: KeyEvent, m: ModifiersState, app_cursor: bool) -> Option<Seq<u8>> {
    if m.logo {
        None
    } else if let Key::Named(key) = ev.logical_key {
        named_bytes(key, m, app_cursor)
    } else if let Some(b) = control_of(ev, m) {
        Some(if m.alt { seq![0x1bu8, b] } else { seq![b] })
    } else if text_of(ev).len() == 0 {
        None
    } else {
        let typed = vstd::utf8::encode_utf8(text_of(ev));
        Some(if m.alt { seq![0x1bu8] + typed } else { typed })
    }
}

fn modifier_param(m: ModifiersState) -> (p: u8)
    ensures
        p == modifier_number(m),
{
    let shift: u8 = if m.shift { 1 } else { 0 };
    let alt: u8 = if m.alt { 2 } else { 0 };
    let control: u8 = if m.control { 4 } else { 0 };
    let logo: u8 = if m.logo { 8 } else { 0 };
    1 + shift + alt + control + logo
}

fn three(a: u8, b: u8, c: u8) -> (bytes: Vec<u8>)
    ensures
        bytes@ == seq![a, b, c],
{
    let mut bytes: Vec<u8> = Vec::new();
    bytes.push(a);
    bytes.push(b);
    bytes.push(c);
    bytes
}

fn two(a: u8, b: u8) -> (bytes: Vec<u8>)
    ensures
        bytes@ == seq![a, b],
{
    let mut bytes: Vec<u8> = Vec::new();
    bytes.push(a);
    bytes.push(b);
    bytes
}

fn one(a: u8) -> (bytes: Vec<u8>)
    ensures
        bytes@ == seq![a],
{
    let mut bytes: Vec<u8> = Vec::new();
    bytes.push(a);
    bytes
}

fn cursor_seq(final_byte: u8, m: ModifiersState, app_cursor: bool) -> (bytes: Vec<u8>)
    ensures
        bytes@ == cursor_bytes(final_byte, m, app_cursor),
{
    let p: u8 = modifier_param(m);
    if p > 1 {
        let mut bytes = three(0x1b, '[' as u8, '1' as u8);
        bytes.push(';' as u8);
        push_decimal(&mut bytes, p as usize);
        bytes.push(final_byte);
        bytes
    } else if app_cursor {
        three(0x1b, 'O' as u8, final_byte)
    } else {
        three(0x1b, '[' as u8, final_byte)
    }
}

fn tilde_seq(n: u8, m: ModifiersState) -> (bytes: Vec<u8>)
    ensures
        bytes@ == tilde_bytes(n as int, m),
{
    let p: u8 = modifier_param(m);
    let mut bytes = two(0x1b, '[' as u8);
    push_decimal(&mut bytes, n as usize);
    if p > 1 {
        bytes.push(';' as u8);
        push_decimal(&mut bytes, p as usize);
    }
    bytes.push('~' as u8);
    bytes
}

/// Maps a character to its control code, e.g. `c` -> 0x03.
fn control_byte(c: char) -> (b: Option<u8>)
    ensures
        b == control_code(c),
{
    match c {
        ' ' | '@' => Some(0x00),
        'a'..='z' => Some((c as u32 - 'a' as u32 + 1) as u8),
        'A'..='Z' => Some((c as u32 - 'A' as u32 + 1) as u8),
        '[' => Some(0x1b),
        '\\' => Some(0x1c),
        ']' => Some(0x1d),
        '^' => Some(0x1e),
        '_' => Some(0x1f),
        '?' => Some(0x7f),
        _ => None,
    }
}

fn encode_named(key: NamedKey, m: ModifiersState, app_cursor: bool) -> (out: Option<Vec<u8>>)
    ensures
        match named_bytes(key, m, app_cursor) {
            Some(bytes) => out matches Some(v) && v@ == bytes,
            None => out is None,
        },
{
    Some(
        match key {
            NamedKey::Enter => one(0x0d),
            NamedKey::Backspace => if m.alt {
                two(0x1b, 0x7f)
            } else if m.control {
                one(0x08)
            } else {
                one(0x7f)
            },
            NamedKey::Tab => if m.shift {
                three(0x1b, '[' as u8, 'Z' as u8)
            } else {
                one(0x09)
            },
            NamedKey::Escape => one(0x1b),
            NamedKey::ArrowUp => cursor_seq('A' as u8, m, app_cursor),
            NamedKey::ArrowDown => cursor_seq('B' as u8, m, app_cursor),
            NamedKey::ArrowRight => cursor_seq('C' as u8, m, app_cursor),
            NamedKey::ArrowLeft => cursor_seq('D' as u8, m, app_cursor),
            NamedKey::Home => cursor_seq('H' as u8, m, app_cursor),
            NamedKey::End => cursor_seq('F' as u8, m, app_cursor),
            NamedKey::Insert => tilde_seq(2, m),
            NamedKey::Delete => tilde_seq(3, m),
            NamedKey::PageUp => tilde_seq(5, m),
            NamedKey::PageDown => tilde_seq(6, m),
            NamedKey::F1 => three(0x1b, 'O' as u8, 'P' as u8),
            NamedKey::F2 => three(0x1b, 'O' as u8, 'Q' as u8),
            NamedKey::F3 => three(0x1b, 'O' as u8, 'R' as u8),
            NamedKey::F4 => three(0x1b, 'O' as u8, 'S' as u8),
            NamedKey::F5 => tilde_seq(15, m),
            NamedKey::F6 => tilde_seq(17, m),
            NamedKey::F7 => tilde_seq(18, m),
            NamedKey::F8 => tilde_seq(19, m),
            NamedKey::F9 => tilde_seq(20, m),
            NamedKey::F10 => tilde_seq(21, m),
            NamedKey::F11 => tilde_seq(23, m),
            NamedKey::F12 => tilde_seq(24, m),
            NamedKey::Space => one(if m.control { 0x00 } else { 0x20 }),
            NamedKey::Other => return None,
        },
    )
}

fn first_char(s: &str) -> (c: Option<char>)
    ensures
        c == (if s@.len() > 0 { Some(s@[0]) } else { None::<char> }),
{
    if s.is_empty() { None } else { Some(s.get_char(0)) }
}

/// The control code of a key press, if it is one.
fn control_for(ev: &KeyEvent, m: ModifiersState) -> (b: Option<u8>)
    ensures
        b == control_of(*ev, m),
{
    if !m.control {
        return None;
    }
    // Control codes come from the *unmodified* key, since `text` for Ctrl+A is
    // often already \x01 (or empty) depending on platform.
    let base: Option<char> = match &ev.logical_key {
        Key::Character(s) => first_char(s.as_str()),
        _ => match &ev.text {
            Some(t) => first_char(t.as_str()),
            None => None,
        },
    };
    match base {
        Some(c) => control_byte(c),
        None => None,
    }
}

pub fn encode(ev: &KeyEvent, m: ModifiersState, app_cursor: bool) -> (out: Option<Vec<u8>>)
    ensures
        match key_bytes(*ev, m, app_cursor) {
            Some(bytes) => out matches Some(v) && v@ == bytes,
            None => out is None,
        },
{
    // Cmd is reserved for app shortcuts on every platform here.
    if m.logo {
        return None;
    }
    if let Key::Named(key) = &ev.logical_key {
        return encode_named(*key, m, app_cursor);
    }
    if let Some(b) = control_for(ev, m) {
        return Some(if m.alt { two(0x1b, b) } else { one(b) });
    }
    // Printable input.
    match &ev.text {
        Some(t) => {
            let typed = t.as_str();
            if typed.is_empty() {
                return None;
            }
            let mut out: Vec<u8> = Vec::new();
            if m.alt {
                // Alt/Option sends ESC-prefixed input (xterm's metaSendsEscape).
                out.push(0x1b);
            }
            push_bytes(&mut out, typed.as_bytes());
            proof {
                assert(out@ =~= key_bytes(*ev, m, app_cursor)->0);
            }
            Some(out)
        },
        None => None,
    }
}

/// Cmd never reaches the shell: it is the application's.
pub proof fn law_cmd_never_reaches_the_shell(ev: KeyEvent, m: ModifiersState, app_cursor: bool)
    requires
        m.logo,
    ensures
        key_bytes(ev, m, app_cursor) is None,
{
}

/// Alt sends what the same press sends without it, after an ESC.
pub proof fn law_alt_prefixes_typed_text(ev: KeyEvent, m: ModifiersState, app_cursor: bool)
    requires
        !(ev.logical_key is Named),
        !m.alt,
    ensures
        ({
            let alt = ModifiersState { alt: true, ..m };
            key_bytes(ev, alt, app_cursor) == (match key_bytes(ev, m, app_cursor) {
                Some(bytes) => Some(seq![0x1bu8] + bytes),
                None => None,
            })
        }),
{
    if let Some(b) = control_of(ev, m) {
        assert(seq![0x1bu8, b] =~= seq![0x1bu8] + seq![b]);
    }
}

/// Application-cursor mode changes nothing but unmodified cursor keys.
pub proof fn law_cursor_mode_only_touches_plain_cursor_keys(ev: KeyEvent, m: ModifiersState)
    requires
        modifier_number(m) > 1 || !(ev.logical_key matches Key::Named(key) && cursor_final(
            key,
        ) is Some),
    ensures
        key_bytes(ev, m, true) == key_bytes(ev, m, false),
{
}

/// A held modifier is never lost on a cursor key: different sets of modifiers
/// send different bytes.
pub proof fn law_modifiers_are_told_apart(a: ModifiersState, b: ModifiersState)
    requires
        a != b,
    ensures
        modifier_number(a) != modifier_number(b),
{
}

/// What a named key sends where nothing is held with it.
pub open spec fn plain_bytes(key: NamedKey) -> Option<Seq<u8>> {
    match key {
        NamedKey::Enter => Some(seq![13u8]),
        NamedKey::Backspace => Some(seq![127u8]),
        NamedKey::Tab => Some(seq![9u8]),
        NamedKey::Escape => Some(seq![27u8]),
        NamedKey::Space => Some(seq![32u8]),
        NamedKey::ArrowUp => Some(seq![27u8, 91, 65]),
        NamedKey::ArrowDown => Some(seq![27u8, 91, 66]),
        NamedKey::ArrowRight => Some(seq![27u8, 91, 67]),
        NamedKey::ArrowLeft => Some(seq![27u8, 91, 68]),
        NamedKey::Home => Some(seq![27u8, 91, 72]),
        NamedKey::End => Some(seq![27u8, 91, 70]),
        NamedKey::Insert => Some(seq![27u8, 91, 50, 126]),
        NamedKey::Delete => Some(seq![27u8, 91, 51, 126]),
        NamedKey::PageUp => Some(seq![27u8, 91, 53, 126]),
        NamedKey::PageDown => Some(seq![27u8, 91, 54, 126]),
        NamedKey::F1 => Some(seq![27u8, 79, 80]),
        NamedKey::F2 => Some(seq![27u8, 79, 81]),
        NamedKey::F3 => Some(seq![27u8, 79, 82]),
        NamedKey::F4 => Some(seq![27u8, 79, 83]),
        NamedKey::F5 => Some(seq![27u8, 91, 49, 53, 126]),
        NamedKey::F6 => Some(seq![27u8, 91, 49, 55, 126]),
        NamedKey::F7 => Some(seq![27u8, 91, 49, 56, 126]),
        NamedKey::F8 => Some(seq![27u8, 91, 49, 57, 126]),
        NamedKey::F9 => Some(seq![27u8, 91, 50, 48, 126]),
        NamedKey::F10 => Some(seq![27u8, 91, 50, 49, 126]),
        NamedKey::F11 => Some(seq![27u8, 91, 50, 51, 126]),
        NamedKey::F12 => Some(seq![27u8, 91, 50, 52, 126]),
        NamedKey::Other => None,
    }
}

/// Each named key sends what programs know it by.
pub proof fn law_named_keys(ev: KeyEvent, key: NamedKey)
    requires
        ev.logical_key == Key::Named(key),
    ensures
        key_bytes(
            ev,
            ModifiersState { shift: false, alt: false, control: false, logo: false },
            false,
        ) == plain_bytes(key),
{
    reveal_with_fuel(text::decimal, 3);
    let sent = key_bytes(
        ev,
        ModifiersState { shift: false, alt: false, control: false, logo: false },
        false,
    );
    if sent is Some && plain_bytes(key) is Some {
        assert(sent->0 =~= plain_bytes(key)->0);
    }
}

/// In application-cursor mode the arrows, Home and End start with `ESC O` in
/// place of `ESC [`, and no other key changes.
pub proof fn law_application_cursor_keys(ev: KeyEvent, key: NamedKey)
    requires
        ev.logical_key == Key::Named(key),
    ensures
        ({
            let none = ModifiersState { shift: false, alt: false, control: false, logo: false };
            let plain = key_bytes(ev, none, false);
            let moved = key_bytes(ev, none, true);
            if key == NamedKey::ArrowUp || key == NamedKey::ArrowDown || key == NamedKey::ArrowLeft
                || key == NamedKey::ArrowRight || key == NamedKey::Home || key == NamedKey::End {
                moved == Some(plain->0.update(1, 79u8))
            } else {
                moved == plain
            }
        }),
{
    let none = ModifiersState { shift: false, alt: false, control: false, logo: false };
    if let Some(letter) = cursor_final(key) {
        assert(key_bytes(ev, none, true)->0 =~= key_bytes(ev, none, false)->0.update(1, 79u8));
    }
}

/// Whether `p` is the modifiers as xterm numbers them: one, and a bit each for
/// Shift, Alt and Ctrl.
pub open spec fn numbers(p: int, m: ModifiersState) -> bool {
    &&& 1 <= p <= 8
    &&& ((p - 1) % 2 == 1) == m.shift
    &&& ((p - 1) / 2 % 2 == 1) == m.alt
    &&& ((p - 1) / 4 % 2 == 1) == m.control
}

/// With modifiers held, the arrows, Home and End send `ESC [ 1 ; p` and the
/// letter they end in, and the keys with a number send it and `; p ~`, `p`
/// telling which modifiers.
pub proof fn law_modified_keys(ev: KeyEvent, key: NamedKey, m: ModifiersState, app_cursor: bool)
    requires
        ev.logical_key == Key::Named(key),
        !m.logo,
        m.shift || m.alt || m.control,
    ensures
        ({
            let plain = plain_bytes(key);
            let sent = key_bytes(ev, m, app_cursor);
            let numbered = plain is Some && plain->0.last() == 126;
            let moving = plain is Some && plain->0.len() == 3 && plain->0[1] == 91;
            &&& numbered ==> exists|p: int|
                numbers(p, m) && sent == Some(
                    plain->0.drop_last() + seq![59u8] + #[trigger] text::decimal(p as nat) + seq![
                        126u8,
                    ],
                )
            &&& moving ==> exists|p: int|
                numbers(p, m) && sent == Some(
                    seq![27u8, 91, 49, 59] + #[trigger] text::decimal(p as nat) + seq![
                        plain->0.last(),
                    ],
                )
        }),
{
    reveal_with_fuel(text::decimal, 3);
    let p = modifier_number(m);
    assert(numbers(p, m));
    let plain = plain_bytes(key);
    let sent = key_bytes(ev, m, app_cursor);
    if plain is Some && plain->0.last() == 126 {
        let n = tilde_number(key)->0;
        assert(plain->0.drop_last() =~= seq![27u8, 91] + text::decimal(n as nat));
        assert(sent->0 =~= plain->0.drop_last() + seq![59u8] + text::decimal(p as nat) + seq![
            126u8,
        ]);
    }
    if plain is Some && plain->0.len() == 3 && plain->0[1] == 91 {
        assert(cursor_final(key) == Some(plain->0.last()));
        assert(sent->0 =~= seq![27u8, 91, 49, 59] + text::decimal(p as nat) + seq![
            plain->0.last(),
        ]);
    }
}

/// The editing keys that take modifiers their own way: Alt+Backspace is ESC and
/// DEL, Ctrl+Backspace BS, Shift+Tab a back tab, and Ctrl+Space a NUL.
pub proof fn law_modified_editing_keys(ev: KeyEvent, m: ModifiersState, app_cursor: bool)
    requires
        !m.logo,
    ensures
        ({
            let sent = key_bytes(ev, m, app_cursor);
            &&& ev.logical_key == Key::Named(NamedKey::Backspace) ==> sent == Some(
                if m.alt {
                    seq![27u8, 127]
                } else if m.control {
                    seq![8u8]
                } else {
                    seq![127u8]
                },
            )
            &&& ev.logical_key == Key::Named(NamedKey::Tab) ==> sent == Some(
                if m.shift {
                    seq![27u8, 91, 90]
                } else {
                    seq![9u8]
                },
            )
            &&& ev.logical_key == Key::Named(NamedKey::Space) ==> sent == Some(
                seq![if m.control { 0u8 } else { 32u8 }],
            )
            &&& ev.logical_key == Key::Named(NamedKey::Enter) ==> sent == Some(seq![13u8])
            &&& ev.logical_key == Key::Named(NamedKey::Escape) ==> sent == Some(seq![27u8])
            &&& ev.logical_key == Key::Named(NamedKey::F1) ==> sent == Some(seq![27u8, 79, 80])
            &&& ev.logical_key == Key::Named(NamedKey::F2) ==> sent == Some(seq![27u8, 79, 81])
            &&& ev.logical_key == Key::Named(NamedKey::F3) ==> sent == Some(seq![27u8, 79, 82])
            &&& ev.logical_key == Key::Named(NamedKey::F4) ==> sent == Some(seq![27u8, 79, 83])
            &&& ev.logical_key == Key::Named(NamedKey::Other) ==> sent is None
        }),
{
}

/// Ctrl with a letter, or with one of `@ [ \ ] ^ _`, sends the code of the
/// capital less 64; with a blank it sends NUL and with `?` DEL.
pub proof fn law_control_codes(ev: KeyEvent, m: ModifiersState, app_cursor: bool, c: char)
    requires
        m.control,
        !m.alt,
        !m.logo,
        ev.logical_key matches Key::Character(s) && s@.len() > 0 && s@[0] == c,
    ensures
        ({
            let sent = key_bytes(ev, m, app_cursor);
            let u = c as int;
            &&& 64 <= u <= 95 ==> sent == Some(seq![(u - 64) as u8])
            &&& 97 <= u <= 122 ==> sent == Some(seq![(u - 96) as u8])
            &&& u == 32 ==> sent == Some(seq![0u8])
            &&& u == 63 ==> sent == Some(seq![127u8])
        }),
{
}

/// Typed text is sent as it is, in UTF-8, and Ctrl with a key that has no
/// control code changes nothing about that. A key without text sends nothing.
pub proof fn law_typed_text(ev: KeyEvent, m: ModifiersState, app_cursor: bool)
    requires
        !m.logo,
        !m.alt,
        !(ev.logical_key is Named),
        !m.control || (ev.logical_key matches Key::Character(s) && s@.len() > 0 && (s@[0] as int
            == 33 || 34 <= s@[0] as int <= 62 || 123 <= s@[0] as int || s@[0] as int == 96)),
    ensures
        key_bytes(ev, m, app_cursor) == (match ev.text {
            Some(t) if t@.len() > 0 => Some(vstd::utf8::encode_utf8(t@)),
            _ => None,
        }),
{
}

} // verus!
