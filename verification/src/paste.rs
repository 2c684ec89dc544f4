//! Encoding clipboard text for the pty.

use crate::text::{chars_of, push_bytes, text_from};
use vstd::prelude::*;

verus! {

/// What opens a bracketed paste: `ESC [ 200 ~`.
pub open spec fn start_marker() -> Seq<char> {
    seq!['\x1b', '[', '2', '0', '0', '~']
}

/// What closes it: `ESC [ 201 ~`.
pub open spec fn end_marker() -> Seq<char> {
    seq!['\x1b', '[', '2', '0', '1', '~']
}

/// C0, DEL and C1. The last of them hold a standalone CSI at U+009B, so
/// dropping ESC alone would not be consistent.
pub open spec fn is_control(c: char) -> bool {
    (c as int) < 0x20 || c as int == 0x7f || 0x80 <= c as int <= 0x9f
}

/// `text` with CR and CRLF made LF, and every other control but tab dropped.
pub open spec fn sanitized(text: Seq<char>) -> Seq<char>
    decreases text.len(),
{
    if text.len() == 0 {
        Seq::empty()
    } else if text[0] == '\r' {
        let rest = if text.len() > 1 && text[1] == '\n' { text.skip(2) } else { text.skip(1) };
        seq!['\n'] + sanitized(rest)
    } else if text[0] != '\n' && text[0] != '\t' && is_control(text[0]) {
        sanitized(text.skip(1))
    } else {
        seq![text[0]] + sanitized(text.skip(1))
    }
}

/// Whether `marker` stands at position `i` of `s`.
pub open spec fn occurs_at(s: Seq<char>, marker: Seq<char>, i: int) -> bool {
    0 <= i <= s.len() - marker.len() && s.subrange(i, i + marker.len()) == marker
}

/// Whether `marker` stands anywhere in `s`.
pub open spec fn contains(s: Seq<char>, marker: Seq<char>) -> bool {
    exists|i: int| occurs_at(s, marker, i)
}

/// `s` from position `i` on without the occurrences of `marker`, found from
/// left to right.
pub open spec fn removed(s: Seq<char>, marker: Seq<char>, i: int) -> Seq<char>
    decreases s.len() - i,
{
    if 0 <= i < s.len() {
        if marker.len() > 0 && occurs_at(s, marker, i) {
            removed(s, marker, i + marker.len())
        } else {
            seq![s[i]] + removed(s, marker, i + 1)
        }
    } else {
        Seq::empty()
    }
}

/// Taking occurrences out makes a text shorter, and leaves one without any as
/// it is.
pub proof fn lemma_removed_len(s: Seq<char>, marker: Seq<char>, i: int)
    requires
        0 <= i <= s.len(),
        marker.len() > 0,
    ensures
        removed(s, marker, i).len() <= s.len() - i,
        (exists|j: int| i <= j && occurs_at(s, marker, j)) ==> removed(s, marker, i).len()
            < s.len() - i,
        !(exists|j: int| i <= j && occurs_at(s, marker, j)) ==> removed(s, marker, i) == s.skip(i),
    decreases s.len() - i,
{
    if i < s.len() {
        if occurs_at(s, marker, i) {
            lemma_removed_len(s, marker, i + marker.len());
        } else {
            lemma_removed_len(s, marker, i + 1);
            if !(exists|j: int| i <= j && occurs_at(s, marker, j)) {
                assert(!(exists|j: int| i + 1 <= j && occurs_at(s, marker, j)));
                assert(seq![s[i]] + s.skip(i + 1) =~= s.skip(i));
            } else {
                let j = choose|j: int| i <= j && occurs_at(s, marker, j);
                assert(i + 1 <= j);
            }
        }
    } else {
        assert(removed(s, marker, i) =~= s.skip(i));
    }
}

/// `s` without `marker`, including any that taking one out splices together.
pub open spec fn stripped(s: Seq<char>, marker: Seq<char>) -> Seq<char>
    decreases s.len(),
{
    if marker.len() > 0 && contains(s, marker) {
        proof {
            lemma_removed_len(s, marker, 0);
            let i = choose|i: int| occurs_at(s, marker, i);
            assert(0 <= i && occurs_at(s, marker, i));
        }
        stripped(removed(s, marker, 0), marker)
    } else {
        s
    }
}

/// What is sent for `text`, as characters.
pub open spec fn pasted(text: Seq<char>, bracketed: bool) -> Seq<char> {
    let clean = stripped(sanitized(text), end_marker());
    if bracketed { start_marker() + clean + end_marker() } else { clean }
}

fn is_control_char(c: char) -> (yes: bool)
    ensures
        yes == is_control(c),
{
    let u: u32 = c as u32;
    u < 0x20 || u == 0x7f || (0x80 <= u && u <= 0x9f)
}

fn sanitize(text: &[char]) -> (clean: Vec<char>)
    ensures
        clean@ == sanitized(text@),
{
    let mut clean: Vec<char> = Vec::new();
    let mut i: usize = 0;
    assert(text@.skip(0) =~= text@);
    assert(clean@ + sanitized(text@) =~= sanitized(text@));
    while i < text.len()
        invariant
            i <= text@.len(),
            clean@ + sanitized(text@.skip(i as int)) == sanitized(text@),
        decreases text.len() - i,
    {
        let c: char = text[i];
        let ghost tail = text@.skip(i as int);
        let ghost done = clean@;
        assert(tail[0] == c);
        assert(tail.skip(1) =~= text@.skip(i + 1));
        assert(tail.len() > 1 ==> tail.skip(2) =~= text@.skip(i + 2) && tail[1] == text@[i + 1]);
        i = i + 1;
        if c == '\r' {
            // Swallow the LF of a CRLF pair rather than emitting two.
            if i < text.len() && text[i] == '\n' {
                i = i + 1;
            }
            clean.push('\n');
            assert(clean@ + sanitized(text@.skip(i as int)) =~= done + sanitized(tail));
        } else if c == '\n' || c == '\t' || !is_control_char(c) {
            clean.push(c);
            assert(clean@ + sanitized(text@.skip(i as int)) =~= done + sanitized(tail));
        }
    }
    assert(sanitized(text@.skip(i as int)) =~= Seq::<char>::empty());
    assert(clean@ + Seq::<char>::empty() =~= clean@);
    clean
}

fn is_at(s: &[char], marker: &[char], i: usize) -> (yes: bool)
    requires
        i <= s@.len(),
    ensures
        yes == occurs_at(s@, marker@, i as int),
{
    if marker.len() > s.len() - i {
        return false;
    }
    let mut k: usize = 0;
    while k < marker.len()
        invariant
            k <= marker.len() <= s.len() - i,
            forall|j: int| 0 <= j < k ==> s@[i + j] == marker@[j],
        decreases marker.len() - k,
    {
        if s[i + k] != marker[k] {
            assert(s@.subrange(i as int, i + marker@.len())[k as int] != marker@[k as int]);
            return false;
        }
        k = k + 1;
    }
    assert(s@.subrange(i as int, i + marker@.len()) =~= marker@);
    true
}

/// One pass over `s`: what is left, and whether anything was taken out.
fn remove_marker(s: &[char], marker: &[char]) -> (out: (Vec<char>, bool))
    requires
        marker@.len() > 0,
    ensures
        out.0@ == removed(s@, marker@, 0),
        out.1 == contains(s@, marker@),
{
    let mut left: Vec<char> = Vec::new();
    let mut found = false;
    let mut i: usize = 0;
    assert(left@ + removed(s@, marker@, 0) =~= removed(s@, marker@, 0));
    while i < s.len()
        invariant
            i <= s@.len(),
            marker@.len() > 0,
            left@ + removed(s@, marker@, i as int) == removed(s@, marker@, 0),
            found ==> contains(s@, marker@),
            !found ==> forall|j: int| 0 <= j < i ==> !occurs_at(s@, marker@, j),
        decreases s.len() - i,
    {
        let ghost done = left@;
        if is_at(s, marker, i) {
            found = true;
            i = i + marker.len();
        } else {
            left.push(s[i]);
            assert(left@ + removed(s@, marker@, i + 1) =~= done + removed(s@, marker@, i as int));
            i = i + 1;
        }
    }
    assert(left@ + removed(s@, marker@, i as int) =~= left@);
    (left, found)
}

fn strip(chars: Vec<char>, marker: &[char]) -> (out: Vec<char>)
    requires
        marker@.len() > 0,
    ensures
        out@ == stripped(chars@, marker@),
{
    let mut s = chars;
    loop
        invariant
            marker@.len() > 0,
            stripped(s@, marker@) == stripped(chars@, marker@),
        decreases s@.len(),
    {
        let (left, found) = remove_marker(s.as_slice(), marker);
        if !found {
            return s;
        }
        proof {
            lemma_removed_len(s@, marker@, 0);
            let i = choose|i: int| occurs_at(s@, marker@, i);
            assert(0 <= i && occurs_at(s@, marker@, i));
        }
        s = left;
    }
}

/// Removes every occurrence of `marker`, including any that removal itself
/// splices together.
///
/// A single pass is not enough: `ESC[20` + `ESC[201~` + `1~` becomes `ESC[201~`
/// once the inner marker is taken out. Nothing reaches this with an ESC intact
/// today, but the guarantee belongs with the marker rather than depending on a
/// filter somewhere else.
pub fn strip_end_markers(s: String, marker: &str) -> (out: String)
    requires
        marker@.len() > 0,
    ensures
        out@ == stripped(s@, marker@),
{
    let chars = chars_of(s.as_str());
    let pattern = chars_of(marker);
    let left = strip(chars, pattern.as_slice());
    text_from(left.as_slice())
}

/// Encodes clipboard text for the pty.
///
/// With bracketed paste on (DECSET 2004) the text is wrapped in markers, so the
/// program can tell a paste from typing and treat it as literal input: that is
/// what stops a multi-line paste from running each line as it arrives.
///
/// Without it there is no such protection, and the newlines *are* Enter. The
/// least surprising thing left is to send what was on the clipboard, which is
/// what every other terminal does.
///
/// Either way the text is sanitised first:
///
/// - CR and CRLF become LF, so a clipboard from Windows or a browser doesn't
///   submit twice per line.
/// - The end marker is stripped from the payload. Pasting text that contains
///   it would otherwise end bracketed mode early and let the remainder run as
///   commands.
/// - C0 and C1 controls other than tab and newline are dropped, so a stray ESC,
///   or a bare CSI at U+009B, can't start an escape sequence.
pub fn paste_bytes(text: &str, bracketed: bool) -> (out: Vec<u8>)
    ensures
        out@ == vstd::utf8::encode_utf8(pasted(text@, bracketed)),
{
    let chars = chars_of(text);
    let clean = sanitize(chars.as_slice());
    let end: Vec<char> = vec!['\x1b', '[', '2', '0', '1', '~'];
    assert(end@ =~= end_marker());
    let clean = strip(clean, end.as_slice());
    let mut all: Vec<char> = Vec::new();
    if bracketed {
        all = vec!['\x1b', '[', '2', '0', '0', '~'];
        assert(all@ =~= start_marker());
    }
    let ghost head = all@;
    let ghost body = clean@;
    let mut clean = clean;
    all.append(&mut clean);
    assert(all@ =~= head + body);
    if bracketed {
        let mut end = end;
        all.append(&mut end);
    }
    assert(all@ =~= pasted(text@, bracketed));
    let sent = text_from(all.as_slice());
    let mut out: Vec<u8> = Vec::new();
    push_bytes(&mut out, sent.as_str().as_bytes());
    assert(out@ =~= vstd::utf8::encode_utf8(pasted(text@, bracketed)));
    out
}

proof fn lemma_no_control_survives(text: Seq<char>, i: int)
    requires
        0 <= i < sanitized(text).len(),
    ensures
        ({
            let c = sanitized(text)[i];
            c == '\n' || c == '\t' || !is_control(c)
        }),
    decreases text.len(),
{
    if text.len() > 0 {
        if text[0] == '\r' {
            let rest = if text.len() > 1 && text[1] == '\n' { text.skip(2) } else { text.skip(1) };
            if i > 0 {
                lemma_no_control_survives(rest, i - 1);
            }
        } else if text[0] != '\n' && text[0] != '\t' && is_control(text[0]) {
            lemma_no_control_survives(text.skip(1), i);
        } else if i > 0 {
            lemma_no_control_survives(text.skip(1), i - 1);
        }
    }
}

proof fn lemma_plain_text_is_untouched(text: Seq<char>)
    requires
        forall|i: int|
            0 <= i < text.len() ==> (#[trigger] text[i] == '\n' || text[i] == '\t' || !is_control(
                text[i],
            )),
    ensures
        sanitized(text) == text,
    decreases text.len(),
{
    if text.len() > 0 {
        let rest = text.skip(1);
        assert forall|i: int| 0 <= i < rest.len() implies (#[trigger] rest[i] == '\n' || rest[i]
            == '\t' || !is_control(rest[i])) by {
            assert(rest[i] == text[i + 1]);
        }
        lemma_plain_text_is_untouched(rest);
        assert(text[0] != '\r');
        assert(seq![text[0]] + rest =~= text);
    } else {
        assert(sanitized(text) =~= text);
    }
}

/// Stripping leaves no marker behind.
pub proof fn law_stripping_leaves_no_marker(s: Seq<char>, marker: Seq<char>)
    requires
        marker.len() > 0,
    ensures
        !contains(stripped(s, marker), marker),
    decreases s.len(),
{
    if contains(s, marker) {
        lemma_removed_len(s, marker, 0);
        let i = choose|i: int| occurs_at(s, marker, i);
        assert(0 <= i && occurs_at(s, marker, i));
        law_stripping_leaves_no_marker(removed(s, marker, 0), marker);
    }
}

/// Text that holds no marker is left alone.
pub proof fn law_stripping_leaves_other_text_alone(s: Seq<char>, marker: Seq<char>)
    requires
        !contains(s, marker),
    ensures
        stripped(s, marker) == s,
{
}

/// Sanitised text holds no end marker: there is no ESC left to start one.
proof fn lemma_clean_holds_no_marker(text: Seq<char>)
    ensures
        !contains(sanitized(text), end_marker()),
{
    let clean = sanitized(text);
    if contains(clean, end_marker()) {
        let i = choose|i: int| occurs_at(clean, end_marker(), i);
        assert(clean.subrange(i, i + 6)[0] == clean[i]);
        assert(end_marker()[0] == '\x1b');
        lemma_no_control_survives(text, i);
    }
}

/// Whatever the clipboard held, the only controls that are sent from it are
/// newlines and tabs.
pub proof fn law_no_control_survives(text: Seq<char>, i: int)
    requires
        0 <= i < pasted(text, false).len(),
    ensures
        ({
            let c = pasted(text, false)[i];
            c == '\n' || c == '\t' || !is_control(c)
        }),
{
    lemma_clean_holds_no_marker(text);
    lemma_no_control_survives(text, i);
}

/// Text without carriage returns and other controls is sent as it is.
pub proof fn law_plain_text_is_untouched(text: Seq<char>)
    requires
        forall|i: int|
            0 <= i < text.len() ==> (#[trigger] text[i] == '\n' || text[i] == '\t' || !is_control(
                text[i],
            )),
    ensures
        pasted(text, false) == text,
        pasted(text, true) == start_marker() + text + end_marker(),
{
    lemma_plain_text_is_untouched(text);
    lemma_clean_holds_no_marker(text);
}

/// The end marker does not stand in a bracketed text before its end, as long
/// as that text has no ESC of its own.
proof fn lemma_no_early_marker(clean: Seq<char>, i: int)
    requires
        forall|j: int| 0 <= j < clean.len() ==> clean[j] != '\x1b',
        0 <= i < clean.len() + 6,
    ensures
        !occurs_at(start_marker() + clean + end_marker(), end_marker(), i),
{
    let start = start_marker();
    let end = end_marker();
    let all = start + clean + end;
    if occurs_at(all, end, i) {
        let found = all.subrange(i, i + 6);
        assert(found == end);
        assert(all[i] == end[0]) by {
            assert(found[0] == all[i]);
        }
        assert(all[i + 4] == end[4]) by {
            assert(found[4] == all[i + 4]);
        }
        if i >= 6 {
            assert(all[i] == clean[i - 6]);
        } else {
            assert(all[i] == start[i]);
            assert(start[i] == '\x1b' ==> i == 0);
            assert(all[4] == start[4]);
        }
    }
}

/// A bracketed paste cannot be closed from inside: whatever the clipboard
/// held, the end marker stands at the end of what is sent and nowhere else.
pub proof fn law_exactly_one_end_marker(text: Seq<char>, i: int)
    ensures
        occurs_at(pasted(text, true), end_marker(), i) <==> i == pasted(text, true).len() - 6,
{
    let clean = sanitized(text);
    lemma_clean_holds_no_marker(text);
    law_stripping_leaves_other_text_alone(clean, end_marker());
    let all = pasted(text, true);
    let n = all.len() - 6;
    assert(n == clean.len() + 6);
    if i == n {
        assert(all.subrange(n, n + 6) =~= end_marker());
    } else if 0 <= i < n {
        assert forall|j: int| 0 <= j < clean.len() implies clean[j] != '\x1b' by {
            lemma_no_control_survives(text, j);
        }
        lemma_no_early_marker(clean, i);
    }
}

/// Whether a character is one that is typed or read, by its code: no C0 control,
/// no DEL, no C1 control.
pub open spec fn is_readable(c: char) -> bool {
    0x20 <= c as int <= 0x7e || 0xa0 <= c as int
}

/// Text in any script arrives as it is, tabs and newlines included: without
/// brackets nothing is added to it, and with them `ESC [ 200 ~` comes before it
/// and `ESC [ 201 ~` after.
pub proof fn law_readable_text_arrives_as_it_is(text: Seq<char>)
    requires
        forall|i: int|
            0 <= i < text.len() ==> (#[trigger] text[i] == '\t' || text[i] == '\n' || is_readable(
                text[i],
            )),
    ensures
        pasted(text, false) == text,
        pasted(text, true) == seq!['\x1b', '[', '2', '0', '0', '~'] + text + seq![
            '\x1b', '[', '2', '0', '1', '~',
        ],
{
    assert forall|i: int| 0 <= i < text.len() implies (#[trigger] text[i] == '\n' || text[i] == '\t'
        || !is_control(text[i])) by {}
    law_plain_text_is_untouched(text);
}

/// Whatever the clipboard held, nothing but readable characters, tabs and
/// newlines comes of it.
pub proof fn law_only_readable_text_arrives(text: Seq<char>, i: int)
    requires
        0 <= i < pasted(text, false).len(),
    ensures
        ({
            let c = pasted(text, false)[i];
            c == '\t' || c == '\n' || is_readable(c)
        }),
{
    law_no_control_survives(text, i);
}

/// What is between the brackets is what is sent without them.
pub proof fn law_brackets_go_around(text: Seq<char>)
    ensures
        pasted(text, true) == seq!['\x1b', '[', '2', '0', '0', '~'] + pasted(text, false) + seq![
            '\x1b', '[', '2', '0', '1', '~',
        ],
{
}

/// Sanitising what follows a carriage return is independent of what precedes.
proof fn lemma_sanitized_concat(a: Seq<char>, b: Seq<char>)
    requires
        !(a.len() > 0 && a.last() == '\r' && b.len() > 0 && b[0] == '\n'),
    ensures
        sanitized(a + b) == sanitized(a) + sanitized(b),
    decreases a.len(),
{
    let all = a + b;
    if a.len() == 0 {
        assert(all =~= b);
        assert(sanitized(a) + sanitized(b) =~= sanitized(b));
    } else {
        assert(all[0] == a[0]);
        assert(all.skip(1) =~= a.skip(1) + b);
        if a[0] == '\r' && all.len() > 1 && all[1] == '\n' {
            assert(a.len() > 1);
            assert(all[1] == a[1]);
            assert(all.skip(2) =~= a.skip(2) + b);
            assert(a.len() > 2 ==> a.skip(2).last() == a.last());
            lemma_sanitized_concat(a.skip(2), b);
            assert(seq!['\n'] + (sanitized(a.skip(2)) + sanitized(b)) =~= seq!['\n'] + sanitized(
                a.skip(2),
            ) + sanitized(b));
        } else {
            assert(a.len() > 1 ==> all[1] == a[1]);
            assert(a.len() > 1 ==> a.skip(1).last() == a.last());
            lemma_sanitized_concat(a.skip(1), b);
            assert(seq!['\n'] + (sanitized(a.skip(1)) + sanitized(b)) =~= seq!['\n'] + sanitized(
                a.skip(1),
            ) + sanitized(b));
            assert(seq![a[0]] + (sanitized(a.skip(1)) + sanitized(b)) =~= seq![a[0]] + sanitized(
                a.skip(1),
            ) + sanitized(b));
        }
    }
}

/// What is pasted without brackets is the sanitised text.
proof fn lemma_pasted(text: Seq<char>)
    ensures
        pasted(text, false) == sanitized(text),
{
    lemma_clean_holds_no_marker(text);
}

/// Text is taken piece by piece: pasting two texts in one go sends what pasting
/// them one after the other does, unless that parts a CRLF.
pub proof fn law_text_is_taken_piece_by_piece(a: Seq<char>, b: Seq<char>)
    requires
        !(a.len() > 0 && a.last() == '\r' && b.len() > 0 && b[0] == '\n'),
    ensures
        pasted(a + b, false) == pasted(a, false) + pasted(b, false),
{
    lemma_sanitized_concat(a, b);
    lemma_pasted(a);
    lemma_pasted(b);
    lemma_pasted(a + b);
}

/// CR and CRLF are one newline each, and a control other than tab and newline
/// is nothing.
pub proof fn law_line_ends_and_controls(c: char)
    ensures
        pasted(seq!['\r'], false) == seq!['\n'],
        pasted(seq!['\r', '\n'], false) == seq!['\n'],
        pasted(seq!['\n'], false) == seq!['\n'],
        c != '\r' && c != '\n' && c != '\t' && !is_readable(c) ==> pasted(seq![c], false).len() == 0,
        pasted(Seq::empty(), true) == seq!['\x1b', '[', '2', '0', '0', '~'] + seq![
            '\x1b', '[', '2', '0', '1', '~',
        ],
{
    lemma_pasted(seq!['\r']);
    lemma_pasted(seq!['\r', '\n']);
    lemma_pasted(seq!['\n']);
    lemma_pasted(seq![c]);
    reveal_with_fuel(sanitized, 3);
    assert(seq!['\r'].skip(1) =~= Seq::<char>::empty());
    assert(seq!['\r', '\n'].skip(2) =~= Seq::<char>::empty());
    assert(seq!['\n'].skip(1) =~= Seq::<char>::empty());
    assert(seq![c].skip(1) =~= Seq::<char>::empty());
    assert(sanitized(Seq::<char>::empty()) =~= Seq::<char>::empty());
    assert(seq!['\n'] + Seq::<char>::empty() =~= seq!['\n']);
    law_brackets_go_around(Seq::empty());
    lemma_pasted(Seq::empty());
    assert(seq!['\x1b', '[', '2', '0', '0', '~'] + Seq::<char>::empty() =~= seq![
        '\x1b', '[', '2', '0', '0', '~',
    ]);
}

/// Nothing is left of a marker.
pub proof fn law_no_marker_is_left(s: Seq<char>, marker: Seq<char>, i: int)
    requires
        marker.len() > 0,
        0 <= i <= stripped(s, marker).len() - marker.len(),
    ensures
        stripped(s, marker).subrange(i, i + marker.len()) != marker,
{
    law_stripping_leaves_no_marker(s, marker);
    assert(!occurs_at(stripped(s, marker), marker, i));
}

/// A marker that stands in a text once is taken out, and nothing else with it;
/// what that splices together is stripped in turn.
pub proof fn law_a_marker_is_taken_out(a: Seq<char>, marker: Seq<char>, b: Seq<char>)
    requires
        marker.len() > 0,
        forall|i: int|
            0 <= i <= a.len() + b.len() && i != a.len() ==> #[trigger] (a + marker + b).subrange(
                i,
                i + marker.len(),
            ) != marker,
    ensures
        stripped(a + marker + b, marker) == stripped(a + b, marker),
{
    let s = a + marker + b;
    assert(s.subrange(a.len() as int, a.len() as int + marker.len()) =~= marker);
    assert(occurs_at(s, marker, a.len() as int));
    lemma_removed_once(a, marker, b, 0);
    assert(removed(s, marker, 0) =~= a + b);
}

proof fn lemma_removed_once(a: Seq<char>, marker: Seq<char>, b: Seq<char>, i: int)
    requires
        marker.len() > 0,
        0 <= i <= a.len(),
        forall|i: int|
            0 <= i <= a.len() + b.len() && i != a.len() ==> #[trigger] (a + marker + b).subrange(
                i,
                i + marker.len(),
            ) != marker,
    ensures
        removed(a + marker + b, marker, i) == a.skip(i) + b,
    decreases a.len() - i,
{
    let s = a + marker + b;
    let n = a.len() as int;
    if i < n {
        lemma_removed_once(a, marker, b, i + 1);
        assert(!occurs_at(s, marker, i)) by {
            assert(s.subrange(i, i + marker.len()) != marker);
        }
        assert(s[i] == a[i]);
        assert(seq![a[i]] + (a.skip(i + 1) + b) =~= a.skip(i) + b);
    } else {
        assert(s.subrange(n, n + marker.len()) =~= marker);
        assert(occurs_at(s, marker, n));
        let after = n + marker.len();
        lemma_removed_len(s, marker, after);
        if exists|j: int| after <= j && occurs_at(s, marker, j) {
            let j = choose|j: int| after <= j && occurs_at(s, marker, j);
            assert(s.subrange(j, j + marker.len()) != marker);
        }
        assert(s.skip(after) =~= b);
        assert(a.skip(n) + b =~= b);
    }
}

} // verus!
