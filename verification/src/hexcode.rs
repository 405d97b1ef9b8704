//! Hexadecimal text, as work templates carry it.

use vstd::prelude::*;

verus! {

/// Whether a character is a hexadecimal digit, in either case.
pub open spec fn is_hex_digit(c: char) -> bool {
    ('0' <= c && c <= '9') || ('a' <= c && c <= 'f') || ('A' <= c && c <= 'F')
}

/// The value of a hexadecimal digit.
pub open spec fn hex_value(c: char) -> int {
    if '0' <= c && c <= '9' {
        c as int - '0' as int
    } else if 'a' <= c && c <= 'f' {
        c as int - 'a' as int + 10
    } else {
        c as int - 'A' as int + 10
    }
}

/// Whether a text spells bytes: an even number of hexadecimal digits.
pub open spec fn is_hex_text(text: Seq<char>) -> bool {
    text.len() % 2 == 0 && forall|i: int| 0 <= i < text.len() ==> is_hex_digit(#[trigger] text[i])
}

/// The bytes that a hexadecimal text spells, two digits to a byte, the
/// more significant digit first.
pub open spec fn hex_bytes(text: Seq<char>) -> Seq<u8> {
    Seq::new(
        text.len() / 2,
        |i: int| (hex_value(text[2 * i]) * 16 + hex_value(text[2 * i + 1])) as u8,
    )
}

/// The lower-case digit of a value below sixteen.
pub open spec fn lower_digit(v: int) -> char {
    if v < 10 {
        ('0' as int + v) as char
    } else {
        ('a' as int + v - 10) as char
    }
}

/// The lower-case hexadecimal text of a byte string.
pub open spec fn hex_text(bytes: Seq<u8>) -> Seq<char> {
    Seq::new(
        2 * bytes.len(),
        |i: int|
            lower_digit(
                if i % 2 == 0 {
                    bytes[i / 2] as int / 16
                } else {
                    bytes[i / 2] as int % 16
                },
            ),
    )
}

/// Calls `hex::decode` on the text. That function accepts an even number of
/// hexadecimal digits of either case and returns the bytes they spell, two
/// digits to a byte; any other input is an error, which is returned as
/// `None`.
#[verifier::external_body]
pub(crate) fn hex_decode(text: &str) -> (r: Option<Vec<u8>>)
    ensures
        r is Some <==> is_hex_text(text@),
        r is Some ==> r->Some_0@ == hex_bytes(text@),
{
    match hex::decode(text) {
        Ok(bytes) => Some(bytes),
        Err(_) => None,
    }
}

/// Calls `hex::encode` on the bytes. That function writes every byte as two
/// lower-case hexadecimal digits, the more significant first.
#[verifier::external_body]
pub(crate) fn hex_encode(data: &[u8]) -> (r: String)
    ensures
        r@ == hex_text(data@),
{
    hex::encode(data)
}

/// The bytes that a text spells, or no bytes where it spells none.
pub open spec fn bytes_or_empty(text: Seq<char>) -> Seq<u8> {
    if is_hex_text(text) {
        hex_bytes(text)
    } else {
        Seq::empty()
    }
}

/// Decodes a hexadecimal text; a text that spells no bytes gives none.
pub fn decode_or_empty(text: &str) -> (bytes: Vec<u8>)
    ensures
        bytes@ == bytes_or_empty(text@),
{
    match hex_decode(text) {
        Some(bytes) => bytes,
        None => Vec::new(),
    }
}

/// The text of a byte string spells that byte string.
pub proof fn lemma_hex_round_trip(bytes: Seq<u8>)
    ensures
        is_hex_text(hex_text(bytes)),
        hex_bytes(hex_text(bytes)) == bytes,
{
    let text = hex_text(bytes);
    assert forall|v: int| 0 <= v < 16 implies is_hex_digit(#[trigger] lower_digit(v)) && hex_value(
        lower_digit(v),
    ) == v by {
        if v < 10 {
            assert(lower_digit(v) as int == '0' as int + v);
        } else {
            assert(lower_digit(v) as int == 'a' as int + v - 10);
        }
    }
    assert forall|i: int| 0 <= i < text.len() implies is_hex_digit(#[trigger] text[i]) by {
        let v = if i % 2 == 0 {
            bytes[i / 2] as int / 16
        } else {
            bytes[i / 2] as int % 16
        };
        assert(text[i] == lower_digit(v));
    }
    assert forall|i: int| 0 <= i < bytes.len() implies hex_bytes(text)[i] == bytes[i] by {
        let hi = bytes[i] as int / 16;
        let lo = bytes[i] as int % 16;
        assert(text[2 * i] == lower_digit(hi));
        assert(text[2 * i + 1] == lower_digit(lo));
    }
    assert(hex_bytes(text) =~= bytes);
}

} // verus!
