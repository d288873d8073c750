use vstd::prelude::*;
use vstd::utf8::{encode_utf8, is_ascii_chars, is_ascii_chars_encode_utf8};

verus! {

/// The lowercase hexadecimal digits, in order of value.
pub open spec fn hex_digits() -> Seq<char> {
    seq!['0', '1', '2', '3', '4', '5', '6', '7', '8', '9', 'a', 'b', 'c', 'd', 'e', 'f']
}

/// Value of an ASCII hexadecimal digit (either case), or `None`.
pub open spec fn nibble_of(b: u8) -> Option<u8> {
    if 48 <= b <= 57 {
        Some((b - 48) as u8)
    } else if 97 <= b <= 102 {
        Some((b - 87) as u8)
    } else if 65 <= b <= 70 {
        Some((b - 55) as u8)
    } else {
        None
    }
}

/// Lowercase hexadecimal rendering of a byte sequence: two digits per byte,
/// high nibble first.
pub open spec fn hex_chars(bytes: Seq<u8>) -> Seq<char> {
    Seq::new(
        2 * bytes.len(),
        |i: int|
            if i % 2 == 0 {
                hex_digits()[(bytes[i / 2] / 16) as int]
            } else {
                hex_digits()[(bytes[i / 2] % 16) as int]
            },
    )
}

/// The bytes that a valid hexadecimal text of even length stands for.
pub open spec fn decode_hex(text: Seq<u8>) -> Seq<u8> {
    Seq::new(
        text.len() / 2,
        |i: int|
            (nibble_of(text[2 * i]).unwrap() * 16 + nibble_of(text[2 * i + 1]).unwrap()) as u8,
    )
}

/// Every byte of `text` is a hexadecimal digit.
pub open spec fn all_hex(text: Seq<u8>) -> bool {
    forall|j: int| 0 <= j < text.len() ==> (#[trigger] nibble_of(text[j])) is Some
}

/// `j` is the first position of `text` that is not a hexadecimal digit.
pub open spec fn first_non_hex(text: Seq<u8>, j: int) -> bool {
    &&& 0 <= j < text.len()
    &&& nibble_of(text[j]) is None
    &&& forall|k: int| 0 <= k < j ==> (#[trigger] nibble_of(text[k])) is Some
}

/// Value of one hexadecimal digit byte.
pub fn hex_nibble(b: u8) -> (r: Result<u8, char>)
    ensures
        match nibble_of(b) {
            Some(v) => r == Ok::<u8, char>(v),
            None => r == Err::<u8, char>(b as char),
        },
{
    if 48 <= b && b <= 57 {
        Ok(b - 48)
    } else if 97 <= b && b <= 102 {
        Ok(b - 87)
    } else if 65 <= b && b <= 70 {
        Ok(b - 55)
    } else {
        Err(b as char)
    }
}

} // verus!

verus! {

/// Each lowercase digit is read back as its own value.
proof fn lemma_digit_value(n: int)
    requires
        0 <= n < 16,
    ensures
        nibble_of(hex_digits()[n] as u8) == Some(n as u8),
        '\0' <= hex_digits()[n] <= '\u{7f}',
{
}

/// Parsing the lowercase hexadecimal rendering of any byte sequence gives the
/// bytes back: every rendered byte is a digit, and decoding undoes rendering.
pub proof fn lemma_hex_round_trip(bytes: Seq<u8>)
    ensures
        is_ascii_chars(hex_chars(bytes)),
        encode_utf8(hex_chars(bytes)).len() == 2 * bytes.len(),
        all_hex(encode_utf8(hex_chars(bytes))),
        decode_hex(encode_utf8(hex_chars(bytes))) == bytes,
{
    let cs = hex_chars(bytes);
    assert forall|i: int| 0 <= i < cs.len() implies '\0' <= #[trigger] cs[i] <= '\u{7f}' by {
        if i % 2 == 0 {
            lemma_digit_value((bytes[i / 2] / 16) as int);
        } else {
            lemma_digit_value((bytes[i / 2] % 16) as int);
        }
    }
    is_ascii_chars_encode_utf8(cs);
    let text = encode_utf8(cs);
    assert forall|j: int| 0 <= j < text.len() implies (#[trigger] nibble_of(text[j])) is Some by {
        assert(cs[j] as u8 == text[j]);
        if j % 2 == 0 {
            lemma_digit_value((bytes[j / 2] / 16) as int);
        } else {
            lemma_digit_value((bytes[j / 2] % 16) as int);
        }
    }
    assert forall|i: int| 0 <= i < bytes.len() implies decode_hex(text)[i] == bytes[i] by {
        assert(cs[2 * i] as u8 == text[2 * i]);
        assert(cs[2 * i + 1] as u8 == text[2 * i + 1]);
        assert((2 * i) / 2 == i && (2 * i) % 2 == 0);
        assert((2 * i + 1) / 2 == i && (2 * i + 1) % 2 == 1);
        lemma_digit_value((bytes[i] / 16) as int);
        lemma_digit_value((bytes[i] % 16) as int);
    }
    assert(decode_hex(text) =~= bytes);
}

} // verus!

verus! {

/// ASCII text with the uppercase letters `A`..`F` lowered; other bytes kept.
pub open spec fn lower_hex_text(text: Seq<u8>) -> Seq<char> {
    Seq::new(
        text.len(),
        |i: int| if 65 <= text[i] <= 70 { (text[i] + 32) as char } else { text[i] as char },
    )
}

proof fn lemma_digit_table(n: int)
    requires
        0 <= n < 16,
    ensures
        hex_digits()[n] == (if n < 10 { (48 + n) as char } else { (87 + n) as char }),
{
    assert(hex_digits() =~= Seq::new(
        16,
        |k: int| if k < 10 { (48 + k) as char } else { (87 + k) as char },
    ));
}

/// Rendering what a hexadecimal text decodes to gives the text back, lowered:
/// the lowercase rendering is the canonical form of an id.
pub proof fn lemma_hex_canonical(text: Seq<u8>)
    requires
        text.len() % 2 == 0,
        all_hex(text),
    ensures
        hex_chars(decode_hex(text)) == lower_hex_text(text),
{
    let d = decode_hex(text);
    let h = hex_chars(d);
    let l = lower_hex_text(text);
    assert forall|j: int| 0 <= j < h.len() implies h[j] == l[j] by {
        let i = j / 2;
        assert(nibble_of(text[2 * i]) is Some);
        assert(nibble_of(text[2 * i + 1]) is Some);
        let hi = nibble_of(text[2 * i]).unwrap();
        let lo = nibble_of(text[2 * i + 1]).unwrap();
        assert(d[i] == hi * 16 + lo);
        assert(d[i] / 16 == hi && d[i] % 16 == lo);
        lemma_digit_table(hi as int);
        lemma_digit_table(lo as int);
        assert(nibble_of(text[j]) is Some);
    }
    assert(h =~= l);
}

/// The uppercase form of an ASCII character: `a`..`z` raised, anything else kept.
pub open spec fn ascii_upper(c: char) -> char {
    if 'a' <= c <= 'z' {
        ((c as u32) - 32) as char
    } else {
        c
    }
}

/// Text with its ASCII letters raised to uppercase.
pub open spec fn ascii_upper_text(s: Seq<char>) -> Seq<char> {
    Seq::new(s.len(), |i: int| ascii_upper(s[i]))
}

/// Each lowercase digit, raised to uppercase, is still read as its value.
proof fn lemma_upper_digit_value(n: int)
    requires
        0 <= n < 16,
    ensures
        nibble_of(ascii_upper(hex_digits()[n]) as u8) == Some(n as u8),
        '\0' <= ascii_upper(hex_digits()[n]) <= '\u{7f}',
{
    lemma_digit_table(n);
}

/// Parsing the uppercase form of the hexadecimal rendering of any byte
/// sequence gives the bytes back, as parsing the lowercase form does.
pub proof fn lemma_upper_hex_round_trip(bytes: Seq<u8>)
    ensures
        is_ascii_chars(ascii_upper_text(hex_chars(bytes))),
        encode_utf8(ascii_upper_text(hex_chars(bytes))).len() == 2 * bytes.len(),
        all_hex(encode_utf8(ascii_upper_text(hex_chars(bytes)))),
        decode_hex(encode_utf8(ascii_upper_text(hex_chars(bytes)))) == bytes,
{
    let cs = ascii_upper_text(hex_chars(bytes));
    assert forall|i: int| 0 <= i < cs.len() implies '\0' <= #[trigger] cs[i] <= '\u{7f}' by {
        if i % 2 == 0 {
            lemma_upper_digit_value((bytes[i / 2] / 16) as int);
        } else {
            lemma_upper_digit_value((bytes[i / 2] % 16) as int);
        }
    }
    is_ascii_chars_encode_utf8(cs);
    let text = encode_utf8(cs);
    assert forall|j: int| 0 <= j < text.len() implies (#[trigger] nibble_of(text[j])) is Some by {
        assert(cs[j] as u8 == text[j]);
        if j % 2 == 0 {
            lemma_upper_digit_value((bytes[j / 2] / 16) as int);
        } else {
            lemma_upper_digit_value((bytes[j / 2] % 16) as int);
        }
    }
    assert forall|i: int| 0 <= i < bytes.len() implies decode_hex(text)[i] == bytes[i] by {
        assert(cs[2 * i] as u8 == text[2 * i]);
        assert(cs[2 * i + 1] as u8 == text[2 * i + 1]);
        assert((2 * i) / 2 == i && (2 * i) % 2 == 0);
        assert((2 * i + 1) / 2 == i && (2 * i + 1) % 2 == 1);
        lemma_upper_digit_value((bytes[i] / 16) as int);
        lemma_upper_digit_value((bytes[i] % 16) as int);
    }
    assert(decode_hex(text) =~= bytes);
}

} // verus!
