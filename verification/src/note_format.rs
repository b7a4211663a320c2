//! The canonical byte form of a note.
//!
//! A note is written as one compact JSON object with its five fields in a
//! fixed order: `{"id":7,"title":"..","content":"..","created_at":1,"updated_at":2}`,
//! an absent identifier as `null`. Texts are UTF-8 with the quotation mark,
//! the backslash and the control characters escaped. Every note has exactly
//! one such form, and [`decode_note`] accepts that form and nothing else.

use crate::types::{Note, NoteView};
use vstd::prelude::*;
use vstd::utf8::{decode_utf8, encode_utf8, valid_utf8};

verus! {

pub const QUOTE: u8 = 0x22;

pub const BACKSLASH: u8 = 0x5c;

pub const MINUS: u8 = 0x2d;

/// The decimal digits of `n`, most significant first, as ASCII bytes.
pub open spec fn decimal_digits(n: nat) -> Seq<u8>
    decreases n,
{
    if n < 10 {
        seq![(48 + n) as u8]
    } else {
        decimal_digits(n / 10).push((48 + n % 10) as u8)
    }
}

/// An integer in decimal, with a leading minus sign when negative.
pub open spec fn integer_text(i: int) -> Seq<u8> {
    if i < 0 {
        seq![MINUS] + decimal_digits((-i) as nat)
    } else {
        decimal_digits(i as nat)
    }
}

/// The lower-case hexadecimal digit for a value below 16.
pub open spec fn hex_digit(v: u8) -> u8 {
    if v < 10 {
        (48 + v) as u8
    } else {
        (87 + v) as u8
    }
}

/// How one byte of a text stands between the quotation marks.
pub open spec fn escaped_byte(b: u8) -> Seq<u8> {
    if b == QUOTE {
        seq![BACKSLASH, QUOTE]
    } else if b == BACKSLASH {
        seq![BACKSLASH, BACKSLASH]
    } else if b == 0x08 {
        seq![BACKSLASH, 0x62u8]
    } else if b == 0x09 {
        seq![BACKSLASH, 0x74u8]
    } else if b == 0x0a {
        seq![BACKSLASH, 0x6eu8]
    } else if b == 0x0c {
        seq![BACKSLASH, 0x66u8]
    } else if b == 0x0d {
        seq![BACKSLASH, 0x72u8]
    } else if b < 0x20 {
        seq![BACKSLASH, 0x75u8, 0x30u8, 0x30u8, hex_digit(b / 16), hex_digit(b % 16)]
    } else {
        seq![b]
    }
}

/// A text with each of its bytes escaped.
pub open spec fn escaped(text: Seq<u8>) -> Seq<u8>
    decreases text.len(),
{
    if text.len() == 0 {
        Seq::empty()
    } else {
        escaped_byte(text[0]) + escaped(text.drop_first())
    }
}

/// The identifier field: `null` when absent.
pub open spec fn id_text(id: Option<i64>) -> Seq<u8> {
    match id {
        Some(i) => integer_text(i as int),
        None => encode_utf8("null"@),
    }
}

/// The canonical byte form of a note.
pub open spec fn note_bytes(note: NoteView) -> Seq<u8> {
    encode_utf8("{\"id\":"@) + id_text(note.id) + encode_utf8(",\"title\":\""@) + escaped(
        encode_utf8(note.title),
    ) + encode_utf8("\",\"content\":\""@) + escaped(encode_utf8(note.content)) + encode_utf8(
        "\",\"created_at\":"@,
    ) + integer_text(note.created_at as int) + encode_utf8(",\"updated_at\":"@) + integer_text(
        note.updated_at as int,
    ) + encode_utf8("}"@)
}

/// Escaping two texts one after the other escapes their concatenation.
pub proof fn lemma_escaped_concat(a: Seq<u8>, b: Seq<u8>)
    ensures
        escaped(a + b) == escaped(a) + escaped(b),
    decreases a.len(),
{
    if a.len() == 0 {
        assert(a + b == b);
    } else {
        lemma_escaped_concat(a.drop_first(), b);
        assert((a + b).drop_first() == a.drop_first() + b);
        assert((a + b)[0] == a[0]);
    }
}

/// Appends the UTF-8 bytes of a text.
fn push_text(out: &mut Vec<u8>, text: &str)
    ensures
        final(out)@ == old(out)@ + encode_utf8(text@),
{
    out.extend_from_slice(text.as_bytes());
}

/// Appends the decimal digits of `n`.
fn push_decimal(out: &mut Vec<u8>, n: u64)
    ensures
        final(out)@ == old(out)@ + decimal_digits(n as nat),
    decreases n,
{
    if n >= 10 {
        push_decimal(out, n / 10);
    }
    let digit: u8 = (n % 10) as u8;
    out.push(48 + digit);
    assert(out@ == old(out)@ + decimal_digits(n as nat));
}

/// Appends an integer in decimal.
fn push_integer(out: &mut Vec<u8>, i: i64)
    ensures
        final(out)@ == old(out)@ + integer_text(i as int),
{
    if i < 0 {
        out.push(MINUS);
        let magnitude: u64 = ((-(i + 1)) as u64) + 1;
        push_decimal(out, magnitude);
        assert(out@ == old(out)@ + integer_text(i as int));
    } else {
        push_decimal(out, i as u64);
    }
}

/// The hexadecimal digit for a value below 16.
fn hex_digit_of(v: u8) -> (d: u8)
    requires
        v < 16,
    ensures
        d == hex_digit(v),
{
    if v < 10 {
        48 + v
    } else {
        87 + v
    }
}

/// Appends one byte of a text, escaped.
fn push_escaped_byte(out: &mut Vec<u8>, b: u8)
    ensures
        final(out)@ == old(out)@ + escaped_byte(b),
{
    if b == QUOTE || b == BACKSLASH {
        out.push(BACKSLASH);
        out.push(b);
    } else if b == 0x08 {
        out.push(BACKSLASH);
        out.push(0x62);
    } else if b == 0x09 {
        out.push(BACKSLASH);
        out.push(0x74);
    } else if b == 0x0a {
        out.push(BACKSLASH);
        out.push(0x6e);
    } else if b == 0x0c {
        out.push(BACKSLASH);
        out.push(0x66);
    } else if b == 0x0d {
        out.push(BACKSLASH);
        out.push(0x72);
    } else if b < 0x20 {
        out.push(BACKSLASH);
        out.push(0x75);
        out.push(0x30);
        out.push(0x30);
        out.push(hex_digit_of(b / 16));
        out.push(hex_digit_of(b % 16));
    } else {
        out.push(b);
    }
    assert(out@ == old(out)@ + escaped_byte(b));
}

/// Appends a text, escaped.
fn push_escaped(out: &mut Vec<u8>, text: &[u8])
    ensures
        final(out)@ == old(out)@ + escaped(text@),
{
    let mut i: usize = 0;
    while i < text.len()
        invariant
            i <= text.len(),
            out@ == old(out)@ + escaped(text@.take(i as int)),
        decreases text.len() - i,
    {
        push_escaped_byte(out, text[i]);
        proof {
            let head = text@.take(i as int);
            lemma_escaped_concat(head, seq![text@[i as int]]);
            assert(escaped(seq![text@[i as int]]) == escaped_byte(text@[i as int])) by {
                assert(seq![text@[i as int]].drop_first() == Seq::<u8>::empty());
                assert(escaped(Seq::<u8>::empty()) == Seq::<u8>::empty());
            }
            assert(text@.take(i + 1) == head + seq![text@[i as int]]);
        }
        i += 1;
    }
    assert(text@.take(i as int) == text@);
}

/// Writes a note in its canonical byte form.
pub fn encode_note(note: &Note) -> (out: Vec<u8>)
    ensures
        out@ == note_bytes(note@),
{
    let mut out: Vec<u8> = Vec::new();
    push_text(&mut out, "{\"id\":");
    assert(out@ == encode_utf8("{\"id\":"@));
    match note.id {
        Some(i) => push_integer(&mut out, i),
        None => push_text(&mut out, "null"),
    }
    push_text(&mut out, ",\"title\":\"");
    push_escaped(&mut out, note.title.as_str().as_bytes());
    push_text(&mut out, "\",\"content\":\"");
    push_escaped(&mut out, note.content.as_str().as_bytes());
    push_text(&mut out, "\",\"created_at\":");
    push_integer(&mut out, note.created_at);
    push_text(&mut out, ",\"updated_at\":");
    push_integer(&mut out, note.updated_at);
    push_text(&mut out, "}");
    out
}

/// Whether a byte is an ASCII decimal digit.
spec fn is_digit(b: u8) -> bool {
    48 <= b <= 57
}

/// How many decimal digits stand at the front of `s`.
spec fn leading_digits(s: Seq<u8>) -> nat
    decreases s.len(),
{
    if s.len() > 0 && is_digit(s[0]) {
        1 + leading_digits(s.drop_first())
    } else {
        0
    }
}

/// The number that a run of decimal digits writes.
spec fn digits_value(digits: Seq<u8>) -> nat
    decreases digits.len(),
{
    if digits.len() == 0 {
        0
    } else {
        digits_value(digits.drop_last()) * 10 + (digits.last() - 48) as nat
    }
}

/// What follows `literal` at the front of `s`, if it stands there.
spec fn after_literal(s: Seq<u8>, literal: Seq<u8>) -> Option<Seq<u8>> {
    if literal.is_prefix_of(s) {
        Some(s.skip(literal.len() as int))
    } else {
        None
    }
}

/// The integer at the front of `s` and what follows it: an optional minus
/// sign, then the longest run of digits, which must not be empty and must
/// write a number that fits.
spec fn integer_prefix(s: Seq<u8>) -> Option<(i64, Seq<u8>)> {
    let negative = s.len() > 0 && s[0] == MINUS;
    let body = if negative {
        s.drop_first()
    } else {
        s
    };
    let count = leading_digits(body);
    let magnitude = digits_value(body.take(count as int));
    let value: int = if negative {
        -magnitude
    } else {
        magnitude as int
    };
    if count == 0 || value < i64::MIN || value > i64::MAX {
        None
    } else {
        Some((value as i64, body.skip(count as int)))
    }
}

/// The identifier at the front of `s` and what follows it.
spec fn id_prefix(s: Seq<u8>) -> Option<(Option<i64>, Seq<u8>)> {
    match after_literal(s, encode_utf8("null"@)) {
        Some(rest) => Some((None, rest)),
        None => match integer_prefix(s) {
            Some((i, rest)) => Some((Some(i), rest)),
            None => None,
        },
    }
}

/// The value of a hexadecimal digit in lower case.
spec fn hex_value(d: u8) -> Option<u8> {
    if 48 <= d <= 57 {
        Some((d - 48) as u8)
    } else if 97 <= d <= 102 {
        Some((d - 87) as u8)
    } else {
        None
    }
}

/// The byte that the front of a non-empty `s` stands for inside a text, and
/// how many bytes it takes: one byte as it is, or one escape sequence.
spec fn text_unit(s: Seq<u8>) -> Option<(u8, nat)> {
    if s[0] != BACKSLASH {
        Some((s[0], 1))
    } else if s.len() < 2 {
        None
    } else if s[1] == QUOTE || s[1] == BACKSLASH {
        Some((s[1], 2))
    } else if s[1] == 0x62 {
        Some((0x08, 2))
    } else if s[1] == 0x74 {
        Some((0x09, 2))
    } else if s[1] == 0x6e {
        Some((0x0a, 2))
    } else if s[1] == 0x66 {
        Some((0x0c, 2))
    } else if s[1] == 0x72 {
        Some((0x0d, 2))
    } else if s[1] == 0x75 && s.len() >= 6 && s[2] == 0x30 && s[3] == 0x30 {
        match (hex_value(s[4]), hex_value(s[5])) {
            (Some(high), Some(low)) => Some(((high * 16 + low) as u8, 6)),
            _ => None,
        }
    } else {
        None
    }
}

/// The text at the front of `s`, unescaped, and what follows it, which starts
/// with the closing quotation mark.
spec fn text_prefix(s: Seq<u8>) -> Option<(Seq<u8>, Seq<u8>)>
    decreases s.len(),
{
    if s.len() == 0 {
        None
    } else if s[0] == QUOTE {
        Some((Seq::empty(), s))
    } else {
        match text_unit(s) {
            Some((b, width)) => if 0 < width <= s.len() {
                match text_prefix(s.skip(width as int)) {
                    Some((text, rest)) => Some((seq![b] + text, rest)),
                    None => None,
                }
            } else {
                None
            },
            None => None,
        }
    }
}

/// The characters at the front of `s`: a text that is valid UTF-8.
spec fn string_prefix(s: Seq<u8>) -> Option<(Seq<char>, Seq<u8>)> {
    match text_prefix(s) {
        Some((text, rest)) => if valid_utf8(text) {
            Some((decode_utf8(text), rest))
        } else {
            None
        },
        None => None,
    }
}

/// The content and the two times that `s` spells out, from the content's
/// first byte to the closing brace, with nothing after it.
spec fn parsed_content_and_times(s: Seq<u8>) -> Option<(Seq<char>, i64, i64)> {
    match string_prefix(s) {
        Some((content, s1)) => match after_literal(s1, encode_utf8("\",\"created_at\":"@)) {
            Some(s2) => match integer_prefix(s2) {
                Some((created_at, s3)) => match after_literal(
                    s3,
                    encode_utf8(",\"updated_at\":"@),
                ) {
                    Some(s4) => match integer_prefix(s4) {
                        Some((updated_at, s5)) => match after_literal(s5, encode_utf8("}"@)) {
                            Some(s6) => if s6.len() == 0 {
                                Some((content, created_at, updated_at))
                            } else {
                                None
                            },
                            None => None,
                        },
                        None => None,
                    },
                    None => None,
                },
                None => None,
            },
            None => None,
        },
        None => None,
    }
}

/// The fields that `s` spells out, read from the left: the opening key, the
/// identifier, and so on to the closing brace, with nothing after it.
spec fn parsed_note(s: Seq<u8>) -> Option<NoteView> {
    match after_literal(s, encode_utf8("{\"id\":"@)) {
        Some(s1) => match id_prefix(s1) {
            Some((id, s2)) => match after_literal(s2, encode_utf8(",\"title\":\""@)) {
                Some(s3) => match string_prefix(s3) {
                    Some((title, s4)) => match after_literal(
                        s4,
                        encode_utf8("\",\"content\":\""@),
                    ) {
                        Some(s5) => match parsed_content_and_times(s5) {
                            Some((content, created_at, updated_at)) => Some(
                                NoteView { id, title, content, created_at, updated_at },
                            ),
                            None => None,
                        },
                        None => None,
                    },
                    None => None,
                },
                None => None,
            },
            None => None,
        },
        None => None,
    }
}

/// The note that `bytes` is the canonical form of, if there is one.
pub open spec fn decoded_note(bytes: Seq<u8>) -> Option<NoteView> {
    if exists|note: NoteView| note_bytes(note) == bytes {
        Some(choose|note: NoteView| note_bytes(note) == bytes)
    } else {
        None
    }
}

/// A literal is found in front of whatever follows it.
proof fn lemma_after_literal(literal: Seq<u8>, rest: Seq<u8>)
    ensures
        after_literal(literal + rest, literal) == Some(rest),
{
    assert((literal + rest).subrange(0, literal.len() as int) == literal);
    assert((literal + rest).skip(literal.len() as int) == rest);
}

/// The digits of a number are digits, at least one, and write that number.
proof fn lemma_decimal_digits(n: nat)
    ensures
        decimal_digits(n).len() >= 1,
        forall|k: int| 0 <= k < decimal_digits(n).len() ==> is_digit(#[trigger] decimal_digits(n)[k]),
        digits_value(decimal_digits(n)) == n,
    decreases n,
{
    if n < 10 {
        let d = decimal_digits(n);
        assert(d.drop_last() == Seq::<u8>::empty());
        assert(digits_value(d.drop_last()) == 0);
    } else {
        lemma_decimal_digits(n / 10);
        let d = decimal_digits(n);
        assert(d.drop_last() == decimal_digits(n / 10));
    }
}

/// A run of digits followed by something else is counted whole.
proof fn lemma_leading_digits(digits: Seq<u8>, rest: Seq<u8>)
    requires
        forall|k: int| 0 <= k < digits.len() ==> is_digit(#[trigger] digits[k]),
        rest.len() == 0 || !is_digit(rest[0]),
    ensures
        leading_digits(digits + rest) == digits.len(),
    decreases digits.len(),
{
    if digits.len() == 0 {
        assert(digits + rest == rest);
    } else {
        assert((digits + rest)[0] == digits[0]);
        assert((digits + rest).drop_first() == digits.drop_first() + rest);
        assert forall|k: int| 0 <= k < digits.drop_first().len() implies is_digit(
            #[trigger] digits.drop_first()[k],
        ) by {
            assert(digits.drop_first()[k] == digits[k + 1]);
        }
        lemma_leading_digits(digits.drop_first(), rest);
    }
}

/// An integer written in decimal is read back, up to what follows it.
proof fn lemma_integer_prefix(i: i64, rest: Seq<u8>)
    requires
        rest.len() == 0 || !is_digit(rest[0]),
    ensures
        integer_prefix(integer_text(i as int) + rest) == Some((i, rest)),
{
    let s = integer_text(i as int) + rest;
    if i < 0 {
        let digits = decimal_digits((-i) as nat);
        lemma_decimal_digits((-i) as nat);
        lemma_leading_digits(digits, rest);
        assert(s[0] == MINUS);
        assert(s.drop_first() == digits + rest);
        assert((digits + rest).take(digits.len() as int) == digits);
        assert((digits + rest).skip(digits.len() as int) == rest);
    } else {
        let digits = decimal_digits(i as nat);
        lemma_decimal_digits(i as nat);
        lemma_leading_digits(digits, rest);
        assert(s[0] == digits[0]);
        assert(is_digit(digits[0]));
        assert(s.take(digits.len() as int) == digits);
        assert(s.skip(digits.len() as int) == rest);
    }
}

/// One escaped byte is read back as that byte, and never starts with a
/// quotation mark.
proof fn lemma_text_unit(b: u8, rest: Seq<u8>)
    ensures
        (escaped_byte(b) + rest)[0] != QUOTE,
        text_unit(escaped_byte(b) + rest) == Some((b, escaped_byte(b).len())),
        (escaped_byte(b) + rest).skip(escaped_byte(b).len() as int) == rest,
{
    let e = escaped_byte(b);
    let s = e + rest;
    assert(forall|k: int| 0 <= k < e.len() ==> s[k] == e[k]);
    if b < 0x20 && b != 0x08 && b != 0x09 && b != 0x0a && b != 0x0c && b != 0x0d {
        assert(s[4] == hex_digit(b / 16));
        assert(s[5] == hex_digit(b % 16));
        assert(hex_value(hex_digit(b / 16)) == Some((b / 16) as u8));
        assert(hex_value(hex_digit(b % 16)) == Some((b % 16) as u8));
    }
}

/// An escaped text in front of a quotation mark is read back whole.
proof fn lemma_text_prefix(text: Seq<u8>, rest: Seq<u8>)
    requires
        rest.len() > 0,
        rest[0] == QUOTE,
    ensures
        text_prefix(escaped(text) + rest) == Some((text, rest)),
    decreases text.len(),
{
    if text.len() == 0 {
        assert(escaped(text) + rest == rest);
    } else {
        let head = escaped_byte(text[0]);
        let tail = escaped(text.drop_first()) + rest;
        let s = escaped(text) + rest;
        assert(s == head + tail);
        lemma_text_unit(text[0], tail);
        lemma_text_prefix(text.drop_first(), rest);
        assert(seq![text[0]] + text.drop_first() == text);
    }
}

/// The characters of a text are read back from its escaped UTF-8 bytes.
proof fn lemma_string_prefix(text: Seq<char>, rest: Seq<u8>)
    requires
        rest.len() > 0,
        rest[0] == QUOTE,
    ensures
        string_prefix(escaped(encode_utf8(text)) + rest) == Some((text, rest)),
{
    lemma_text_prefix(encode_utf8(text), rest);
    vstd::utf8::encode_utf8_valid_utf8(text);
    vstd::utf8::encode_utf8_decode_utf8(text);
}

/// The first bytes of the literals between the fields.
proof fn lemma_literal_bytes()
    ensures
        encode_utf8("null"@).len() == 4,
        encode_utf8("null"@)[0] == 0x6e,
        encode_utf8(",\"title\":\""@).len() > 0,
        encode_utf8(",\"title\":\""@)[0] == 0x2c,
        encode_utf8("\",\"content\":\""@).len() > 0,
        encode_utf8("\",\"content\":\""@)[0] == QUOTE,
        encode_utf8("\",\"created_at\":"@).len() > 0,
        encode_utf8("\",\"created_at\":"@)[0] == QUOTE,
        encode_utf8(",\"updated_at\":"@).len() > 0,
        encode_utf8(",\"updated_at\":"@)[0] == 0x2c,
        encode_utf8("}"@).len() == 1,
        encode_utf8("}"@)[0] == 0x7d,
{
    reveal_strlit("null");
    reveal_strlit(",\"title\":\"");
    reveal_strlit("\",\"content\":\"");
    reveal_strlit("\",\"created_at\":");
    reveal_strlit(",\"updated_at\":");
    reveal_strlit("}");
    vstd::utf8::is_ascii_chars_encode_utf8("null"@);
    vstd::utf8::is_ascii_chars_encode_utf8(",\"title\":\""@);
    vstd::utf8::is_ascii_chars_encode_utf8("\",\"content\":\""@);
    vstd::utf8::is_ascii_chars_encode_utf8("\",\"created_at\":"@);
    vstd::utf8::is_ascii_chars_encode_utf8(",\"updated_at\":"@);
    vstd::utf8::is_ascii_chars_encode_utf8("}"@);
}

/// An identifier is read back, up to what follows it.
proof fn lemma_id_prefix(id: Option<i64>, rest: Seq<u8>)
    requires
        rest.len() == 0 || !is_digit(rest[0]),
    ensures
        id_prefix(id_text(id) + rest) == Some((id, rest)),
{
    lemma_literal_bytes();
    let null = encode_utf8("null"@);
    match id {
        None => {
            lemma_after_literal(null, rest);
        },
        Some(i) => {
            let s = integer_text(i as int) + rest;
            lemma_integer_prefix(i, rest);
            if i >= 0 {
                lemma_decimal_digits(i as nat);
                assert(s[0] == decimal_digits(i as nat)[0]);
            } else {
                assert(s[0] == MINUS);
            }
            if null.is_prefix_of(s) {
                assert(s.subrange(0, null.len() as int)[0] == null[0]);
            }
        },
    }
}

/// What follows the opening key in the canonical form of a note, from the
/// identifier on.
spec fn note_tail(note: NoteView) -> Seq<u8> {
    id_text(note.id) + (encode_utf8(",\"title\":\""@) + (escaped(encode_utf8(note.title)) + (
    encode_utf8("\",\"content\":\""@) + (escaped(encode_utf8(note.content)) + (encode_utf8(
        "\",\"created_at\":"@,
    ) + (integer_text(note.created_at as int) + (encode_utf8(",\"updated_at\":"@) + (integer_text(
        note.updated_at as int,
    ) + encode_utf8("}"@)))))))))
}

proof fn lemma_concat_assoc(a: Seq<u8>, b: Seq<u8>, c: Seq<u8>)
    ensures
        (a + b) + c == a + (b + c),
{
    assert((a + b) + c =~= a + (b + c));
}

/// The canonical form is the opening key followed by the rest.
proof fn lemma_note_bytes_split(note: NoteView)
    ensures
        note_bytes(note) == encode_utf8("{\"id\":"@) + note_tail(note),
{
    let k0 = encode_utf8("{\"id\":"@);
    let id = id_text(note.id);
    let k1 = encode_utf8(",\"title\":\""@);
    let title = escaped(encode_utf8(note.title));
    let k2 = encode_utf8("\",\"content\":\""@);
    let content = escaped(encode_utf8(note.content));
    let k3 = encode_utf8("\",\"created_at\":"@);
    let created = integer_text(note.created_at as int);
    let k4 = encode_utf8(",\"updated_at\":"@);
    let updated = integer_text(note.updated_at as int);
    let k5 = encode_utf8("}"@);
    let s9 = updated + k5;
    let s8 = k4 + s9;
    let s7 = created + s8;
    let s6 = k3 + s7;
    let s5 = content + s6;
    let s4 = k2 + s5;
    let s3 = title + s4;
    let s2 = k1 + s3;
    let l1 = k0 + id;
    let l2 = l1 + k1;
    let l3 = l2 + title;
    let l4 = l3 + k2;
    let l5 = l4 + content;
    let l6 = l5 + k3;
    let l7 = l6 + created;
    let l8 = l7 + k4;
    lemma_concat_assoc(l8, updated, k5);
    lemma_concat_assoc(l7, k4, s9);
    lemma_concat_assoc(l6, created, s8);
    lemma_concat_assoc(l5, k3, s7);
    lemma_concat_assoc(l4, content, s6);
    lemma_concat_assoc(l3, k2, s5);
    lemma_concat_assoc(l2, title, s4);
    lemma_concat_assoc(l1, k1, s3);
    lemma_concat_assoc(k0, id, s2);
}

/// The second half of a note's fields is read back.
proof fn lemma_parse_second_half(note: NoteView, s5: Seq<u8>)
    requires
        s5 == escaped(encode_utf8(note.content)) + (encode_utf8("\",\"created_at\":"@) + (
        integer_text(note.created_at as int) + (encode_utf8(",\"updated_at\":"@) + (integer_text(
            note.updated_at as int,
        ) + encode_utf8("}"@))))),
    ensures
        parsed_content_and_times(s5) == Some((note.content, note.created_at, note.updated_at)),
{
    lemma_literal_bytes();
    let k3 = encode_utf8("\",\"created_at\":"@);
    let k4 = encode_utf8(",\"updated_at\":"@);
    let s10 = encode_utf8("}"@);
    let s9 = integer_text(note.updated_at as int) + s10;
    let s8 = k4 + s9;
    let s7 = integer_text(note.created_at as int) + s8;
    let s6 = k3 + s7;
    lemma_string_prefix(note.content, s6);
    lemma_after_literal(k3, s7);
    lemma_integer_prefix(note.created_at, s8);
    lemma_after_literal(k4, s9);
    lemma_integer_prefix(note.updated_at, s10);
    lemma_after_literal(s10, Seq::empty());
    assert(s10 + Seq::<u8>::empty() == s10);
}

/// Reading the canonical form of a note gives the note back.
proof fn lemma_parse_encoded(note: NoteView)
    ensures
        parsed_note(note_bytes(note)) == Some(note),
{
    lemma_literal_bytes();
    lemma_note_bytes_split(note);
    let k0 = encode_utf8("{\"id\":"@);
    let k1 = encode_utf8(",\"title\":\""@);
    let k2 = encode_utf8("\",\"content\":\""@);
    let s5 = escaped(encode_utf8(note.content)) + (encode_utf8("\",\"created_at\":"@) + (
    integer_text(note.created_at as int) + (encode_utf8(",\"updated_at\":"@) + (integer_text(
        note.updated_at as int,
    ) + encode_utf8("}"@)))));
    let s4 = k2 + s5;
    let s3 = escaped(encode_utf8(note.title)) + s4;
    let s2 = k1 + s3;
    let s1 = id_text(note.id) + s2;
    assert(s1 == note_tail(note));
    lemma_after_literal(k0, s1);
    lemma_id_prefix(note.id, s2);
    lemma_after_literal(k1, s3);
    lemma_string_prefix(note.title, s4);
    lemma_after_literal(k2, s5);
    lemma_parse_second_half(note, s5);
}

/// Two notes with the same canonical form are the same note.
pub proof fn lemma_note_bytes_injective(a: NoteView, b: NoteView)
    requires
        note_bytes(a) == note_bytes(b),
    ensures
        a == b,
{
    lemma_parse_encoded(a);
    lemma_parse_encoded(b);
}

/// A note is the decoding of its canonical form and of nothing else.
pub proof fn lemma_decoded_iff_canonical(bytes: Seq<u8>, note: NoteView)
    ensures
        decoded_note(bytes) == Some(note) <==> note_bytes(note) == bytes,
{
    if note_bytes(note) == bytes {
        let chosen = choose|other: NoteView| note_bytes(other) == bytes;
        lemma_note_bytes_injective(chosen, note);
    }
}

/// Decoding the canonical form of a note gives the note back.
pub proof fn lemma_decode_encoded(note: NoteView)
    ensures
        decoded_note(note_bytes(note)) == Some(note),
{
    lemma_decoded_iff_canonical(note_bytes(note), note);
}

/// Whether two byte strings are the same.
fn bytes_equal(a: &[u8], b: &[u8]) -> (same: bool)
    ensures
        same == (a@ == b@),
{
    if a.len() != b.len() {
        return false;
    }
    let mut i: usize = 0;
    while i < a.len()
        invariant
            i <= a.len(),
            a.len() == b.len(),
            forall|k: int| 0 <= k < i ==> a@[k] == b@[k],
        decreases a.len() - i,
    {
        if a[i] != b[i] {
            return false;
        }
        i += 1;
    }
    assert(a@ =~= b@);
    true
}

/// Finds `text` at `pos` and gives the position after it.
fn find_literal(bytes: &[u8], pos: usize, text: &str) -> (r: Option<usize>)
    requires
        pos <= bytes.len(),
    ensures
        match after_literal(bytes@.skip(pos as int), encode_utf8(text@)) {
            Some(rest) => r matches Some(end) && pos <= end <= bytes.len() && bytes@.skip(
                end as int,
            ) == rest,
            None => r is None,
        },
{
    let literal = text.as_bytes();
    let ghost s = bytes@.skip(pos as int);
    if literal.len() > bytes.len() - pos {
        return None;
    }
    let mut k: usize = 0;
    while k < literal.len()
        invariant
            k <= literal.len(),
            literal.len() <= bytes.len() - pos,
            pos <= bytes.len(),
            s == bytes@.skip(pos as int),
            literal@ == encode_utf8(text@),
            forall|j: int| 0 <= j < k ==> literal@[j] == s[j],
        decreases literal.len() - k,
    {
        if bytes[pos + k] != literal[k] {
            proof {
                if literal@.is_prefix_of(s) {
                    assert(s.subrange(0, literal@.len() as int)[k as int] == literal@[k as int]);
                }
            }
            return None;
        }
        k += 1;
    }
    proof {
        assert(s.subrange(0, literal@.len() as int) =~= literal@);
        assert(s.skip(literal@.len() as int) =~= bytes@.skip(pos + literal@.len()));
    }
    Some(pos + literal.len())
}

/// Reads the integer that starts at `pos`.
fn read_integer(bytes: &[u8], pos: usize) -> (r: Option<(i64, usize)>)
    requires
        pos <= bytes.len(),
    ensures
        match integer_prefix(bytes@.skip(pos as int)) {
            Some((value, rest)) => r matches Some((v, end)) && v == value && pos <= end
                <= bytes.len() && bytes@.skip(end as int) == rest,
            None => r is None,
        },
{
    let ghost s = bytes@.skip(pos as int);
    let negative = pos < bytes.len() && bytes[pos] == MINUS;
    let start: usize = if negative {
        pos + 1
    } else {
        pos
    };
    let limit: u64 = if negative {
        0x8000_0000_0000_0000
    } else {
        0x7fff_ffff_ffff_ffff
    };
    let ghost body = bytes@.skip(start as int);
    assert(body == if negative {
        s.drop_first()
    } else {
        s
    });
    let mut end: usize = start;
    let mut value: u64 = 0;
    let mut fits = true;
    assert(bytes@.subrange(start as int, end as int) == Seq::<u8>::empty());
    while end < bytes.len() && 48 <= bytes[end] && bytes[end] <= 57
        invariant
            start <= end <= bytes.len(),
            limit == 0x8000_0000_0000_0000 || limit == 0x7fff_ffff_ffff_ffff,
            forall|k: int| start <= k < end ==> is_digit(bytes@[k]),
            fits ==> value == digits_value(bytes@.subrange(start as int, end as int)) && value
                <= limit,
            !fits ==> digits_value(bytes@.subrange(start as int, end as int)) > limit,
        decreases bytes.len() - end,
    {
        let digit: u64 = (bytes[end] - 48) as u64;
        proof {
            let longer = bytes@.subrange(start as int, end + 1);
            assert(longer.drop_last() == bytes@.subrange(start as int, end as int));
            assert(longer.last() == bytes@[end as int]);
        }
        if fits {
            if value > (limit - digit) / 10 {
                fits = false;
            } else {
                value = value * 10 + digit;
            }
        }
        end += 1;
    }
    proof {
        let count = end - start;
        let digits = body.take(count);
        let rest = body.skip(count);
        assert(digits == bytes@.subrange(start as int, end as int));
        assert(rest == bytes@.skip(end as int));
        assert(body == digits + rest);
        lemma_leading_digits(digits, rest);
    }
    if end == start || !fits {
        return None;
    }
    let signed: i64 = if negative {
        if value == 0x8000_0000_0000_0000 {
            i64::MIN
        } else {
            -(value as i64)
        }
    } else {
        value as i64
    };
    Some((signed, end))
}

/// Reads the identifier that starts at `pos`.
fn read_id(bytes: &[u8], pos: usize) -> (r: Option<(Option<i64>, usize)>)
    requires
        pos <= bytes.len(),
    ensures
        match id_prefix(bytes@.skip(pos as int)) {
            Some((id, rest)) => r matches Some((i, end)) && i == id && pos <= end <= bytes.len()
                && bytes@.skip(end as int) == rest,
            None => r is None,
        },
{
    match find_literal(bytes, pos, "null") {
        Some(end) => Some((None, end)),
        None => match read_integer(bytes, pos) {
            Some((i, end)) => Some((Some(i), end)),
            None => None,
        },
    }
}

/// Reads a lower-case hexadecimal digit.
fn hex_value_of(d: u8) -> (r: Option<u8>)
    ensures
        r == hex_value(d),
{
    if 48 <= d && d <= 57 {
        Some(d - 48)
    } else if 97 <= d && d <= 102 {
        Some(d - 87)
    } else {
        None
    }
}

/// Reads the byte or the escape sequence that starts at `pos`.
fn read_unit(bytes: &[u8], pos: usize) -> (r: Option<(u8, usize)>)
    requires
        pos < bytes.len(),
    ensures
        match text_unit(bytes@.skip(pos as int)) {
            Some((b, width)) => r == Some((b, width as usize)) && 0 < width <= bytes.len() - pos,
            None => r is None,
        },
{
    let ghost s = bytes@.skip(pos as int);
    assert(forall|k: int| 0 <= k < s.len() ==> s[k] == bytes@[pos + k]);
    let first = bytes[pos];
    if first != BACKSLASH {
        return Some((first, 1));
    }
    if bytes.len() - pos < 2 {
        return None;
    }
    let second = bytes[pos + 1];
    if second == QUOTE || second == BACKSLASH {
        Some((second, 2))
    } else if second == 0x62 {
        Some((0x08, 2))
    } else if second == 0x74 {
        Some((0x09, 2))
    } else if second == 0x6e {
        Some((0x0a, 2))
    } else if second == 0x66 {
        Some((0x0c, 2))
    } else if second == 0x72 {
        Some((0x0d, 2))
    } else if second == 0x75 && bytes.len() - pos >= 6 && bytes[pos + 2] == 0x30 && bytes[pos + 3]
        == 0x30 {
        match (hex_value_of(bytes[pos + 4]), hex_value_of(bytes[pos + 5])) {
            (Some(high), Some(low)) => Some((high * 16 + low, 6)),
            _ => None,
        }
    } else {
        None
    }
}

/// A text read so far, in front of what is still to be read.
spec fn with_head(head: Seq<u8>, r: Option<(Seq<u8>, Seq<u8>)>) -> Option<(Seq<u8>, Seq<u8>)> {
    match r {
        Some((text, rest)) => Some((head + text, rest)),
        None => None,
    }
}

/// Reads the text that starts at `pos`, up to its closing quotation mark.
fn read_text(bytes: &[u8], pos: usize) -> (r: Option<(Vec<u8>, usize)>)
    requires
        pos <= bytes.len(),
    ensures
        match text_prefix(bytes@.skip(pos as int)) {
            Some((text, rest)) => r matches Some((t, end)) && t@ == text && pos <= end
                <= bytes.len() && bytes@.skip(end as int) == rest,
            None => r is None,
        },
{
    let mut out: Vec<u8> = Vec::new();
    let mut i: usize = pos;
    proof {
        let whole = text_prefix(bytes@.skip(pos as int));
        if whole is Some {
            assert(Seq::<u8>::empty() + (whole->0).0 == (whole->0).0);
        }
    }
    while i < bytes.len() && bytes[i] != QUOTE
        invariant
            pos <= i <= bytes.len(),
            text_prefix(bytes@.skip(pos as int)) == with_head(
                out@,
                text_prefix(bytes@.skip(i as int)),
            ),
        decreases bytes.len() - i,
    {
        let ghost s = bytes@.skip(i as int);
        assert(s[0] == bytes@[i as int]);
        match read_unit(bytes, i) {
            Some((b, width)) => {
                proof {
                    let next = text_prefix(s.skip(width as int));
                    assert(s.skip(width as int) == bytes@.skip(i + width));
                    assert(text_prefix(s) == with_head(seq![b], next));
                    if next is Some {
                        let tail = (next->0).0;
                        assert(out@ + (seq![b] + tail) == out@.push(b) + tail);
                    }
                }
                out.push(b);
                i += width;
            },
            None => {
                return None;
            },
        }
    }
    proof {
        let s = bytes@.skip(i as int);
        if i < bytes.len() {
            assert(s[0] == bytes@[i as int]);
            assert(out@ + Seq::<u8>::empty() == out@);
        }
    }
    if i < bytes.len() {
        Some((out, i))
    } else {
        None
    }
}

/// Reads the characters of the text that starts at `pos`.
fn read_string(bytes: &[u8], pos: usize) -> (r: Option<(String, usize)>)
    requires
        pos <= bytes.len(),
    ensures
        match string_prefix(bytes@.skip(pos as int)) {
            Some((text, rest)) => r matches Some((t, end)) && t@ == text && pos <= end
                <= bytes.len() && bytes@.skip(end as int) == rest,
            None => r is None,
        },
{
    match read_text(bytes, pos) {
        Some((text, end)) => {
            let ghost raw = text@;
            match String::from_utf8(text) {
                Ok(t) => {
                    proof {
                        vstd::utf8::encode_utf8_decode_utf8(t@);
                    }
                    Some((t, end))
                },
                Err(_) => None,
            }
        },
        None => None,
    }
}

/// Reads the content and the two times, from `pos` to the end.
fn read_content_and_times(bytes: &[u8], pos: usize) -> (r: Option<(String, i64, i64)>)
    requires
        pos <= bytes.len(),
    ensures
        match parsed_content_and_times(bytes@.skip(pos as int)) {
            Some((content, created_at, updated_at)) => r matches Some((c, a, b)) && c@ == content
                && a == created_at && b == updated_at,
            None => r is None,
        },
{
    let (content, p1) = match read_string(bytes, pos) {
        Some(found) => found,
        None => {
            return None;
        },
    };
    let p2 = match find_literal(bytes, p1, "\",\"created_at\":") {
        Some(found) => found,
        None => {
            return None;
        },
    };
    let (created_at, p3) = match read_integer(bytes, p2) {
        Some(found) => found,
        None => {
            return None;
        },
    };
    let p4 = match find_literal(bytes, p3, ",\"updated_at\":") {
        Some(found) => found,
        None => {
            return None;
        },
    };
    let (updated_at, p5) = match read_integer(bytes, p4) {
        Some(found) => found,
        None => {
            return None;
        },
    };
    let p6 = match find_literal(bytes, p5, "}") {
        Some(found) => found,
        None => {
            return None;
        },
    };
    if p6 == bytes.len() {
        Some((content, created_at, updated_at))
    } else {
        None
    }
}

/// Reads a note from its canonical byte form. Bytes that are not the
/// canonical form of any note are refused.
pub fn decode_note(bytes: &[u8]) -> (r: Option<Note>)
    ensures
        match decoded_note(bytes@) {
            Some(note) => r matches Some(n) && n@ == note,
            None => r is None,
        },
{
    proof {
        assert(bytes@.skip(0) == bytes@);
        if decoded_note(bytes@) is Some {
            lemma_decoded_iff_canonical(bytes@, decoded_note(bytes@)->0);
            lemma_parse_encoded(decoded_note(bytes@)->0);
        }
    }
    let p1 = match find_literal(bytes, 0, "{\"id\":") {
        Some(found) => found,
        None => {
            return None;
        },
    };
    let (id, p2) = match read_id(bytes, p1) {
        Some(found) => found,
        None => {
            return None;
        },
    };
    let p3 = match find_literal(bytes, p2, ",\"title\":\"") {
        Some(found) => found,
        None => {
            return None;
        },
    };
    let (title, p4) = match read_string(bytes, p3) {
        Some(found) => found,
        None => {
            return None;
        },
    };
    let p5 = match find_literal(bytes, p4, "\",\"content\":\"") {
        Some(found) => found,
        None => {
            return None;
        },
    };
    let (content, created_at, updated_at) = match read_content_and_times(bytes, p5) {
        Some(found) => found,
        None => {
            return None;
        },
    };
    let note = Note { id, title, content, created_at, updated_at };
    let again = encode_note(&note);
    if bytes_equal(again.as_slice(), bytes) {
        proof {
            lemma_decoded_iff_canonical(bytes@, note@);
        }
        Some(note)
    } else {
        None
    }
}

} // verus!
