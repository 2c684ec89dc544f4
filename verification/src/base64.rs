//! Base64 as OSC 52 spells it.

use vstd::prelude::*;

verus! {

/// The value of one character of the alphabet.
pub open spec fn sextet_of(b: u8) -> Option<int> {
    if 'A' as u8 <= b <= 'Z' as u8 {
        Some(b - 'A' as u8)
    } else if 'a' as u8 <= b <= 'z' as u8 {
        Some(b - 'a' as u8 + 26)
    } else if '0' as u8 <= b <= '9' as u8 {
        Some(b - '0' as u8 + 52)
    } else if b == '+' as u8 {
        Some(62)
    } else if b == '/' as u8 {
        Some(63)
    } else {
        None
    }
}

/// Line breaks and blanks that a sender may have wrapped the payload with.
pub open spec fn is_filler(b: u8) -> bool {
    b == 0x20 || b == 0x09 || b == 0x0d || b == 0x0a
}

/// The characters that carry data: those before the first `=`, without
/// filler.
pub open spec fn carried(input: Seq<u8>) -> Seq<u8>
    decreases input.len(),
{
    if input.len() == 0 || input[0] == '=' as u8 {
        Seq::empty()
    } else if is_filler(input[0]) {
        carried(input.skip(1))
    } else {
        seq![input[0]] + carried(input.skip(1))
    }
}

/// The sextet at position `i`.
pub open spec fn sextet_at(data: Seq<u8>, i: int) -> int {
    sextet_of(data[i])->0
}

/// Byte `k` of what `data` spells: four sextets are three bytes.
pub open spec fn byte_at(data: Seq<u8>, k: int) -> u8 {
    let i = k / 3 * 4;
    if k % 3 == 0 {
        (sextet_at(data, i) * 4 + sextet_at(data, i + 1) / 16) as u8
    } else if k % 3 == 1 {
        (sextet_at(data, i + 1) % 16 * 16 + sextet_at(data, i + 2) / 4) as u8
    } else {
        (sextet_at(data, i + 2) % 4 * 64 + sextet_at(data, i + 3)) as u8
    }
}

/// Whether `data` spells whole bytes: only characters of the alphabet, and no
/// lone character at the end, which would spell no byte at all.
pub open spec fn is_whole(data: Seq<u8>) -> bool {
    &&& forall|i: int| 0 <= i < data.len() ==> sextet_of(#[trigger] data[i]) is Some
    &&& data.len() % 4 != 1
}

/// The bytes that `input` spells, if it spells any.
pub open spec fn decoded(input: Seq<u8>) -> Option<Seq<u8>> {
    let data = carried(input);
    if is_whole(data) {
        Some(Seq::new((data.len() * 3 / 4) as nat, |k: int| byte_at(data, k)))
    } else {
        None
    }
}

/// The character of the alphabet with value `v`.
pub open spec fn letter(v: int) -> u8 {
    if v < 26 {
        ('A' as u8 + v) as u8
    } else if v < 52 {
        ('a' as u8 + v - 26) as u8
    } else if v < 62 {
        ('0' as u8 + v - 52) as u8
    } else if v == 62 {
        '+' as u8
    } else {
        '/' as u8
    }
}

/// Byte `i`, or zero past the end.
pub open spec fn byte_or_zero(bytes: Seq<u8>, i: int) -> int {
    if i < bytes.len() { bytes[i] as int } else { 0 }
}

/// Sextet `i` of the bits of `bytes`.
pub open spec fn bits_at(bytes: Seq<u8>, i: int) -> int {
    let k = i / 4 * 3;
    if i % 4 == 0 {
        byte_or_zero(bytes, k) / 4
    } else if i % 4 == 1 {
        byte_or_zero(bytes, k) % 4 * 16 + byte_or_zero(bytes, k + 1) / 16
    } else if i % 4 == 2 {
        byte_or_zero(bytes, k + 1) % 16 * 4 + byte_or_zero(bytes, k + 2) / 64
    } else {
        byte_or_zero(bytes, k + 2) % 64
    }
}

/// `bytes` in base64, without padding.
pub open spec fn encoded(bytes: Seq<u8>) -> Seq<u8> {
    Seq::new(((bytes.len() * 4 + 2) / 3) as nat, |i: int| letter(bits_at(bytes, i)))
}

fn sextet(b: u8) -> (v: Option<u8>)
    ensures
        match v {
            Some(v) => sextet_of(b) == Some(v as int) && v < 64,
            None => sextet_of(b) is None,
        },
{
    if 'A' as u8 <= b && b <= 'Z' as u8 {
        Some(b - 'A' as u8)
    } else if 'a' as u8 <= b && b <= 'z' as u8 {
        Some(b - 'a' as u8 + 26)
    } else if '0' as u8 <= b && b <= '9' as u8 {
        Some(b - '0' as u8 + 52)
    } else if b == '+' as u8 {
        Some(62)
    } else if b == '/' as u8 {
        Some(63)
    } else {
        None
    }
}

/// Base64 as OSC 52 spells it, tolerating missing padding and any line breaks a
/// sender wrapped the payload with. Anything else is rejected rather than
/// decoded past: a clipboard full of garbage is worse than a copy that failed.
pub fn decode_base64(input: &[u8]) -> (out: Option<Vec<u8>>)
    ensures
        match decoded(input@) {
            Some(bytes) => out matches Some(v) && v@ == bytes,
            None => out is None,
        },
{
    let mut out: Vec<u8> = Vec::new();
    // The bits of the last sextet that are still waiting to make up a byte,
    // and how many sextets of the current group of four have come.
    let mut rest: u8 = 0;
    let mut phase: u8 = 0;
    let ghost mut data: Seq<u8> = Seq::empty();
    let ghost whole = carried(input@);
    let mut i: usize = 0;
    assert(input@.skip(0) =~= input@);
    assert(data + whole =~= whole);
    while i < input.len()
        invariant_except_break
            i <= input.len(),
            data + carried(input@.skip(i as int)) == whole,
        invariant
            forall|j: int| 0 <= j < data.len() ==> sextet_of(#[trigger] data[j]) is Some,
            phase == data.len() % 4,
            out.len() == data.len() * 3 / 4,
            forall|k: int| 0 <= k < out.len() ==> #[trigger] out@[k] == byte_at(data, k),
            phase == 1 ==> rest == sextet_at(data, data.len() - 1) && rest < 64,
            phase == 2 ==> rest == sextet_at(data, data.len() - 1) % 16,
            phase == 3 ==> rest == sextet_at(data, data.len() - 1) % 4,
            whole == carried(input@),
        ensures
            data == whole,
        decreases input.len() - i,
    {
        let b: u8 = input[i];
        let ghost tail = input@.skip(i as int);
        assert(tail.skip(1) =~= input@.skip(i + 1));
        // Padding, and nothing that follows it carries data.
        if b == '=' as u8 {
            assert(data + carried(tail) =~= data);
            break;
        }
        i = i + 1;
        if b == 0x20 || b == 0x09 || b == 0x0d || b == 0x0a {
            continue;
        }
        assert(carried(tail) == seq![b] + carried(input@.skip(i as int)));
        assert(whole[data.len() as int] == b);
        let v: u8 = match sextet(b) {
            Some(v) => v,
            None => {
                assert(sextet_of(whole[data.len() as int]) is None);
                return None;
            },
        };
        let ghost before = data;
        let ghost done = out@;
        proof {
            data = before.push(b);
            assert(data + carried(input@.skip(i as int)) =~= before + carried(tail));
            assert(sextet_at(data, before.len() as int) == v);
            assert forall|k: int| 0 <= k < done.len() implies #[trigger] byte_at(data, k)
                == byte_at(before, k) by {
                assert(k / 3 * 4 + (if k % 3 == 0 {
                    1int
                } else if k % 3 == 1 {
                    2int
                } else {
                    3int
                }) < before.len());
            }
        }
        if phase == 0 {
            rest = v;
            phase = 1;
        } else if phase == 1 {
            out.push(rest * 4 + v / 16);
            rest = v % 16;
            phase = 2;
        } else if phase == 2 {
            out.push(rest * 16 + v / 4);
            rest = v % 4;
            phase = 3;
        } else {
            out.push(rest * 64 + v);
            phase = 0;
        }
    }
    // Four sextets are three bytes, so a group can legitimately end with 2 or 4
    // bits over. Six left means a lone trailing character that spells no byte at
    // all: the payload was cut short, not merely unpadded.
    if phase == 1 {
        return None;
    }
    assert(out@ =~= decoded(input@)->0);
    Some(out)
}

proof fn lemma_letter(v: int)
    requires
        0 <= v < 64,
    ensures
        sextet_of(letter(v)) == Some(v),
        !is_filler(letter(v)),
        letter(v) != '=' as u8,
{
}

proof fn lemma_carried_letters(s: Seq<u8>)
    requires
        forall|i: int|
            0 <= i < s.len() ==> !is_filler(#[trigger] s[i]) && s[i] != '=' as u8,
    ensures
        carried(s) == s,
    decreases s.len(),
{
    if s.len() > 0 {
        assert forall|i: int| 0 <= i < s.skip(1).len() implies !is_filler(
            #[trigger] s.skip(1)[i],
        ) && s.skip(1)[i] != '=' as u8 by {
            assert(s.skip(1)[i] == s[i + 1]);
        }
        lemma_carried_letters(s.skip(1));
        assert(seq![s[0]] + s.skip(1) =~= s);
    } else {
        assert(carried(s) =~= s);
    }
}

proof fn lemma_bits_at(bytes: Seq<u8>, i: int)
    requires
        0 <= i,
    ensures
        0 <= bits_at(bytes, i) < 64,
{
}

/// Decoding gives back what was encoded, whatever the bytes are.
pub proof fn law_decode_undoes_encode(bytes: Seq<u8>)
    ensures
        decoded(encoded(bytes)) == Some(bytes),
{
    let data = encoded(bytes);
    assert forall|i: int| 0 <= i < data.len() implies !is_filler(#[trigger] data[i]) && data[i]
        != '=' as u8 && sextet_of(data[i]) == Some(bits_at(bytes, i)) by {
        lemma_bits_at(bytes, i);
        lemma_letter(bits_at(bytes, i));
    }
    lemma_carried_letters(data);
    assert(data.len() % 4 != 1);
    assert(data.len() * 3 / 4 == bytes.len());
    let out = Seq::new((data.len() * 3 / 4) as nat, |k: int| byte_at(data, k));
    assert forall|k: int| 0 <= k < bytes.len() implies #[trigger] out[k] == bytes[k] by {
        lemma_byte_back(bytes, k);
    }
    assert(out =~= bytes);
}

proof fn lemma_sextet_back(bytes: Seq<u8>, i: int)
    requires
        0 <= i < encoded(bytes).len(),
    ensures
        sextet_at(encoded(bytes), i) == bits_at(bytes, i),
{
    lemma_bits_at(bytes, i);
    lemma_letter(bits_at(bytes, i));
}

/// Cutting three bytes into four sextets loses nothing.
proof fn lemma_rejoined(b: int, c: int, d: int)
    requires
        0 <= b < 256,
        0 <= c < 256,
        0 <= d < 256,
    ensures
        b / 4 * 4 + (b % 4 * 16 + c / 16) / 16 == b,
        (b % 4 * 16 + c / 16) % 16 * 16 + (c % 16 * 4 + d / 64) / 4 == c,
        (c % 16 * 4 + d / 64) % 4 * 64 + d % 64 == d,
{
    let (u, v) = (c / 16, d / 64);
    assert(0 <= u < 16 && 0 <= v < 4);
    assert((b % 4 * 16 + u) / 16 == b % 4 && (b % 4 * 16 + u) % 16 == u);
    assert((c % 16 * 4 + v) / 4 == c % 16 && (c % 16 * 4 + v) % 4 == v);
}

proof fn lemma_byte_back(bytes: Seq<u8>, k: int)
    requires
        0 <= k < bytes.len(),
    ensures
        byte_at(encoded(bytes), k) == bytes[k],
{
    let g = k / 3;
    let (i, j) = (4 * g, 3 * g);
    let (b, c, d) = (
        byte_or_zero(bytes, j),
        byte_or_zero(bytes, j + 1),
        byte_or_zero(bytes, j + 2),
    );
    assert(i / 4 == g && (i + 1) / 4 == g && (i + 2) / 4 == g && (i + 3) / 4 == g);
    assert(i % 4 == 0 && (i + 1) % 4 == 1 && (i + 2) % 4 == 2 && (i + 3) % 4 == 3);
    assert(bits_at(bytes, i) == b / 4);
    assert(bits_at(bytes, i + 1) == b % 4 * 16 + c / 16);
    assert(bits_at(bytes, i + 2) == c % 16 * 4 + d / 64);
    assert(bits_at(bytes, i + 3) == d % 64);
    lemma_rejoined(b, c, d);
    if k % 3 == 0 {
        assert(k == j);
        lemma_sextet_back(bytes, i);
        lemma_sextet_back(bytes, i + 1);
    } else if k % 3 == 1 {
        assert(k == j + 1);
        lemma_sextet_back(bytes, i + 1);
        lemma_sextet_back(bytes, i + 2);
    } else {
        assert(k == j + 2);
        lemma_sextet_back(bytes, i + 2);
        lemma_sextet_back(bytes, i + 3);
    }
}

/// Padding ends the payload: whatever follows it carries no data.
pub proof fn law_padding_ends_the_payload(data: Seq<u8>, after: Seq<u8>)
    ensures
        decoded(data + seq!['=' as u8] + after) == decoded(data),
{
    lemma_carried_padded(data, after);
}

proof fn lemma_carried_padded(data: Seq<u8>, after: Seq<u8>)
    ensures
        carried(data + seq!['=' as u8] + after) == carried(data),
    decreases data.len(),
{
    let padded = data + seq!['=' as u8] + after;
    if data.len() > 0 {
        lemma_carried_padded(data.skip(1), after);
        assert(padded.skip(1) =~= data.skip(1) + seq!['=' as u8] + after);
    }
}

/// A blank or a line break anywhere in the payload changes nothing.
pub proof fn law_filler_carries_nothing(before: Seq<u8>, filler: u8, after: Seq<u8>)
    requires
        is_filler(filler),
    ensures
        decoded(before + seq![filler] + after) == decoded(before + after),
{
    lemma_carried_filler(before, filler, after);
}

proof fn lemma_carried_filler(before: Seq<u8>, filler: u8, after: Seq<u8>)
    requires
        is_filler(filler),
    ensures
        carried(before + seq![filler] + after) == carried(before + after),
    decreases before.len(),
{
    let filled = before + seq![filler] + after;
    if before.len() > 0 {
        lemma_carried_filler(before.skip(1), filler, after);
        assert(filled.skip(1) =~= before.skip(1) + seq![filler] + after);
        assert((before + after).skip(1) =~= before.skip(1) + after);
    } else {
        assert(filled.skip(1) =~= after);
        assert(before + after =~= after);
    }
}

/// The alphabet: capitals, small letters, digits, `+` and `/` stand for 0 to 63,
/// and nothing else stands for anything.
pub proof fn law_the_alphabet(b: u8, v: int)
    requires
        0 <= v < 64,
    ensures
        sextet_of(b) == Some(v) <==> ({
            ||| v < 26 && b == 65 + v
            ||| 26 <= v < 52 && b == 97 + (v - 26)
            ||| 52 <= v < 62 && b == 48 + (v - 52)
            ||| v == 62 && b == 43
            ||| v == 63 && b == 47
        }),
        sextet_of(b) matches Some(n) ==> 0 <= n < 64,
{
}

/// Four characters are three bytes, most significant bits first; two are one
/// byte and three are two, the bits left over being dropped.
pub proof fn law_four_characters_are_three_bytes(a: u8, b: u8, c: u8, d: u8)
    requires
        sextet_of(a) is Some,
        sextet_of(b) is Some,
        sextet_of(c) is Some,
        sextet_of(d) is Some,
    ensures
        ({
            let (p, q, r, s) = (
                sextet_of(a)->0,
                sextet_of(b)->0,
                sextet_of(c)->0,
                sextet_of(d)->0,
            );
            let bits = ((p * 64 + q) * 64 + r) * 64 + s;
            let bytes = seq![
                (bits / 65536) as u8,
                (bits / 256 % 256) as u8,
                (bits % 256) as u8,
            ];
            &&& decoded(seq![a, b, c, d]) == Some(bytes)
            &&& decoded(seq![a, b, c]) == Some(bytes.take(2))
            &&& decoded(seq![a, b]) == Some(bytes.take(1))
            &&& decoded(seq![a]) is None
            &&& decoded(Seq::empty()) == Some(Seq::<u8>::empty())
        }),
{
    let (p, q, r, s) = (sextet_of(a)->0, sextet_of(b)->0, sextet_of(c)->0, sextet_of(d)->0);
    lemma_bits(p, q, r, s);
    lemma_short(seq![a, b, c, d]);
    lemma_short(seq![a, b, c]);
    lemma_short(seq![a, b]);
    lemma_short(seq![a]);
    lemma_short(Seq::empty());
    let bits = ((p * 64 + q) * 64 + r) * 64 + s;
    let bytes = seq![(bits / 65536) as u8, (bits / 256 % 256) as u8, (bits % 256) as u8];
    let all = seq![a, b, c, d];
    assert(byte_at(all, 0) == bytes[0]);
    assert(byte_at(all, 1) == bytes[1]);
    assert(byte_at(all, 2) == bytes[2]);
    assert(decoded(all)->0 =~= bytes);
    assert(byte_at(seq![a, b, c], 0) == bytes[0]);
    assert(byte_at(seq![a, b, c], 1) == bytes[1]);
    assert(decoded(seq![a, b, c])->0 =~= bytes.take(2));
    assert(byte_at(seq![a, b], 0) == bytes[0]);
    assert(decoded(seq![a, b])->0 =~= bytes.take(1));
    assert(decoded(Seq::empty())->0 =~= Seq::<u8>::empty());
}

proof fn lemma_bits(p: int, q: int, r: int, s: int)
    requires
        0 <= p < 64,
        0 <= q < 64,
        0 <= r < 64,
        0 <= s < 64,
    ensures
        ({
            let bits = ((p * 64 + q) * 64 + r) * 64 + s;
            &&& bits / 65536 == p * 4 + q / 16
            &&& bits / 256 % 256 == q % 16 * 16 + r / 4
            &&& bits % 256 == r % 4 * 64 + s
        }),
{
    let (x, y, z) = (p * 4 + q / 16, q % 16 * 16 + r / 4, r % 4 * 64 + s);
    lemma_parts(x, y, z);
}

proof fn lemma_parts(x: int, y: int, z: int)
    requires
        0 <= x,
        0 <= y < 256,
        0 <= z < 256,
    ensures
        (x * 65536 + y * 256 + z) / 65536 == x,
        (x * 65536 + y * 256 + z) / 256 % 256 == y,
        (x * 65536 + y * 256 + z) % 256 == z,
{
    let n = x * 65536 + y * 256 + z;
    assert(n / 256 == x * 256 + y);
}

/// Up to four characters of the alphabet carry themselves.
proof fn lemma_short(data: Seq<u8>)
    requires
        data.len() <= 4,
        forall|i: int| 0 <= i < data.len() ==> sextet_of(#[trigger] data[i]) is Some,
    ensures
        decoded(data) == (if data.len() == 1 {
            None
        } else {
            Some(Seq::new((data.len() * 3 / 4) as nat, |k: int| byte_at(data, k)))
        }),
{
    lemma_carried_letters(data);
}

/// What is longer is decoded four characters at a time.
pub proof fn law_groups_of_four(a: u8, b: u8, c: u8, d: u8, rest: Seq<u8>)
    requires
        sextet_of(a) is Some,
        sextet_of(b) is Some,
        sextet_of(c) is Some,
        sextet_of(d) is Some,
    ensures
        decoded(seq![a, b, c, d] + rest) == (match decoded(rest) {
            Some(bytes) => Some(decoded(seq![a, b, c, d])->0 + bytes),
            None => None,
        }),
{
    let head = seq![a, b, c, d];
    let all = head + rest;
    lemma_carried_letters(head);
    lemma_carried_head(head, rest);
    let tail = carried(rest);
    let data = head + tail;
    assert(carried(all) == data);
    assert forall|i: int| 0 <= i < tail.len() implies sextet_of(#[trigger] data[4 + i]) == sextet_of(
        tail[i],
    ) by {}
    if is_whole(tail) {
        assert forall|i: int| 0 <= i < data.len() implies sextet_of(#[trigger] data[i]) is Some by {
            if i >= 4 {
                assert(data[i] == tail[i - 4]);
            }
        }
        let bytes = decoded(rest)->0;
        let whole = decoded(all)->0;
        let first = decoded(head)->0;
        assert forall|k: int| 0 <= k < whole.len() implies #[trigger] whole[k] == (first
            + bytes)[k] by {
            if k >= 3 {
                let i = k / 3 * 4;
                assert((k - 3) / 3 * 4 == i - 4);
                assert((k - 3) % 3 == k % 3);
                assert(data[i] == tail[i - 4]);
                assert(data[i + 1] == tail[i - 3]);
                assert(i + 2 < data.len() ==> data[i + 2] == tail[i - 2]);
                assert(i + 3 < data.len() ==> data[i + 3] == tail[i - 1]);
                assert(byte_at(data, k) == byte_at(tail, k - 3));
            }
        }
        assert(whole =~= first + bytes);
    } else if tail.len() % 4 != 1 {
        let i = choose|i: int| 0 <= i < tail.len() && !(sextet_of(#[trigger] tail[i]) is Some);
        assert(sextet_of(data[4 + i]) is None);
    }
}

proof fn lemma_carried_head(head: Seq<u8>, rest: Seq<u8>)
    requires
        forall|i: int|
            0 <= i < head.len() ==> !is_filler(#[trigger] head[i]) && head[i] != '=' as u8,
    ensures
        carried(head + rest) == head + carried(rest),
    decreases head.len(),
{
    let all = head + rest;
    if head.len() > 0 {
        assert forall|i: int| 0 <= i < head.skip(1).len() implies !is_filler(
            #[trigger] head.skip(1)[i],
        ) && head.skip(1)[i] != '=' as u8 by {
            assert(head.skip(1)[i] == head[i + 1]);
        }
        lemma_carried_head(head.skip(1), rest);
        assert(all[0] == head[0]);
        assert(all.skip(1) =~= head.skip(1) + rest);
        assert(seq![head[0]] + (head.skip(1) + carried(rest)) =~= head + carried(rest));
    } else {
        assert(all =~= rest);
        assert(head + carried(rest) =~= carried(rest));
    }
}

/// Blanks, tabs and line breaks are passed over, `=` ends the payload, and
/// anything else that is not of the alphabet spoils it.
pub proof fn law_other_characters(b: u8, rest: Seq<u8>)
    requires
        sextet_of(b) is None,
    ensures
        decoded(seq![b] + rest) == (if b == 32 || b == 9 || b == 13 || b == 10 {
            decoded(rest)
        } else if b == 61 {
            Some(Seq::empty())
        } else {
            None
        }),
{
    let all = seq![b] + rest;
    assert(all[0] == b);
    assert(all.skip(1) =~= rest);
    if b == 61 {
        assert(decoded(all)->0 =~= Seq::<u8>::empty());
    } else if !is_filler(b) {
        assert(carried(all)[0] == b);
    }
}

/// The same wherever it stands in the payload: blanks, tabs and line breaks are
/// passed over, nothing after a `=` counts, and before the first `=` nothing
/// else that is not of the alphabet may stand.
pub proof fn law_other_characters_anywhere(before: Seq<u8>, b: u8, after: Seq<u8>)
    requires
        sextet_of(b) is None,
    ensures
        b == 32 || b == 9 || b == 13 || b == 10 ==> decoded(before + seq![b] + after) == decoded(
            before + after,
        ),
        b == 61 ==> decoded(before + seq![b] + after) == decoded(before),
        b != 32 && b != 9 && b != 13 && b != 10 && b != 61 && !before.contains(61) ==> decoded(
            before + seq![b] + after,
        ) is None,
{
    lemma_carried_around(before, b, after);
}

proof fn lemma_carried_around(before: Seq<u8>, b: u8, after: Seq<u8>)
    ensures
        is_filler(b) ==> carried(before + seq![b] + after) == carried(before + after),
        b == 61 ==> carried(before + seq![b] + after) == carried(before),
        !is_filler(b) && b != 61 && !before.contains(61) ==> exists|i: int|
            0 <= i < carried(before + seq![b] + after).len() && #[trigger] carried(
                before + seq![b] + after,
            )[i] == b,
    decreases before.len(),
{
    let all = before + seq![b] + after;
    if before.len() == 0 {
        assert(all[0] == b);
        assert(all.skip(1) =~= after);
        assert(before + after =~= after);
        if !is_filler(b) && b != 61 {
            assert(carried(all)[0] == b);
        }
    } else {
        let rest = before.skip(1);
        lemma_carried_around(rest, b, after);
        assert(all[0] == before[0] && (before + after)[0] == before[0]);
        assert(all.skip(1) =~= rest + seq![b] + after);
        assert((before + after).skip(1) =~= rest + after);
        if !is_filler(b) && b != 61 && !before.contains(61) {
            assert(before.contains(before[0]));
            assert forall|v: u8| rest.contains(v) implies before.contains(v) by {
                let i = choose|i: int| 0 <= i < rest.len() && rest[i] == v;
                assert(before[i + 1] == v);
            }
            let tail = carried(rest + seq![b] + after);
            let i = choose|i: int| 0 <= i < tail.len() && #[trigger] tail[i] == b;
            if is_filler(before[0]) {
                assert(carried(all)[i] == b);
            } else {
                assert(carried(all)[i + 1] == b);
            }
        }
    }
}

} // verus!
