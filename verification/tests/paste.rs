//! Pasting.

use koma::paste::{paste_bytes, strip_end_markers};

const END: &str = "\x1b[201~";

fn pasted(text: &str, bracketed: bool) -> String {
    String::from_utf8(paste_bytes(text, bracketed)).unwrap()
}

#[test]
fn bracketed_paste_wraps_the_text_in_markers() {
    assert_eq!(pasted("ls -la", true), "\x1b[200~ls -la\x1b[201~");
}

#[test]
fn without_bracketed_paste_the_text_goes_as_is() {
    assert_eq!(pasted("ls -la", false), "ls -la");
}

#[test]
fn multi_line_text_keeps_its_newlines() {
    // Bracketed mode is what stops these running; the bytes themselves are
    // unchanged either way.
    assert_eq!(pasted("one\ntwo", true), "\x1b[200~one\ntwo\x1b[201~");
    assert_eq!(pasted("one\ntwo", false), "one\ntwo");
}

#[test]
fn crlf_becomes_one_newline() {
    // A clipboard from a browser or from Windows would otherwise submit
    // twice for every line.
    assert_eq!(pasted("a\r\nb\r\nc", false), "a\nb\nc");
}

#[test]
fn a_lone_carriage_return_also_becomes_a_newline() {
    assert_eq!(pasted("a\rb", false), "a\nb");
}

#[test]
fn an_embedded_end_marker_cannot_escape_the_brackets() {
    // The standard injection: text containing the end marker would close
    // bracketed mode early and let the rest arrive as live keystrokes.
    let hostile = "safe\x1b[201~rm -rf /\n";
    let out = pasted(hostile, true);
    assert_eq!(out.matches("\x1b[201~").count(), 1, "only the real terminator: {out:?}");
    assert!(out.ends_with("\x1b[201~"));
    assert!(!out.contains("\x1b[201~rm"), "the payload still breaks out: {out:?}");
}

#[test]
fn escape_sequences_in_the_clipboard_are_defused() {
    // Without this a paste could set the title, switch screens, or worse.
    let out = pasted("before\x1b]0;pwned\x07after", false);
    assert!(!out.contains('\x1b'), "ESC survived: {out:?}");
    assert!(!out.contains('\x07'), "BEL survived: {out:?}");
    assert_eq!(out, "before]0;pwnedafter");
}

#[test]
fn tabs_survive_but_other_controls_do_not() {
    // Tab is real input — pasting indented code must keep it.
    assert_eq!(pasted("a\tb", false), "a\tb");
    assert_eq!(pasted("a\x00\x08\x7fb", false), "ab");
}

#[test]
fn multibyte_text_is_untouched() {
    assert_eq!(pasted("日本語のテキスト", true), "\x1b[200~日本語のテキスト\x1b[201~");
}

#[test]
fn empty_text_still_produces_well_formed_markers() {
    assert_eq!(pasted("", true), "\x1b[200~\x1b[201~");
    assert_eq!(pasted("", false), "");
}

#[test]
fn removing_the_end_marker_cannot_splice_a_new_one() {
    // Removing the inner marker joins "ESC[20" to "1~" and makes another,
    // so one pass leaves the payload able to close bracketed mode early.
    let hostile = "\x1b[20\x1b[201~1~rm -rf /".to_string();
    assert!(
        hostile.replace(END, "").contains(END),
        "the premise: a single pass must be insufficient here"
    );
    assert!(!strip_end_markers(hostile, END).contains(END));
}

#[test]
fn stripping_markers_leaves_ordinary_text_alone() {
    assert_eq!(strip_end_markers("ls -la".into(), END), "ls -la");
    assert_eq!(strip_end_markers(String::new(), END), "");
}

#[test]
fn an_end_marker_never_survives_a_paste() {
    // The property, through the real encoder: whatever the clipboard held,
    // exactly one terminator comes out and it is ours.
    for hostile in
        ["safe\x1b[201~rm -rf /\n", "\x1b[20\x1b[201~1~rm -rf /", "\x1b[201~\x1b[201~\x1b[201~"]
    {
        let out = pasted(hostile, true);
        assert_eq!(out.matches(END).count(), 1, "{hostile:?} produced {out:?}");
        assert!(out.ends_with(END));
    }
}

#[test]
fn c1_controls_are_dropped_too() {
    // U+009B is CSI on its own; dropping ESC but not this would be an odd
    // place to stop.
    let out = pasted("a\u{9b}0;pwned\u{7}b", false);
    assert_eq!(out, "a0;pwnedb");
}
