//! Lowercase hex encoding and hex decoding, through the `hex` crate.
use vstd::prelude::*;
use vstd::string::StringSliceAdditionalSpecFns;
use vstd::utf8::{encode_utf8, is_ascii_chars, is_ascii_chars_encode_utf8};

verus! {

/// The lowercase hex digit for a nibble value `n < 16`.
pub open spec fn hex_char(n: int) -> char {
    if n < 10 {
        (48 + n) as char
    } else {
        (87 + n) as char
    }
}

/// The lowercase hex text of `data`: two digits per byte, high nibble first.
pub open spec fn hex_text(data: Seq<u8>) -> Seq<char> {
    Seq::new(
        2 * data.len(),
        |i: int|
            if i % 2 == 0 {
                hex_char(data[i / 2] as int / 16)
            } else {
                hex_char(data[i / 2] as int % 16)
            },
    )
}

/// A byte that `hex` accepts as a digit: `0-9`, `a-f`, `A-F`.
pub open spec fn is_hex_byte(b: u8) -> bool {
    (48 <= b <= 57) || (97 <= b <= 102) || (65 <= b <= 70)
}

/// The value of a hex digit byte.
pub open spec fn hex_value(b: u8) -> int {
    if 48 <= b <= 57 {
        b - 48
    } else if 97 <= b <= 102 {
        b - 87
    } else {
        b - 55
    }
}

/// Whether `hex::decode` accepts the bytes `text`: an even number of hex digits.
pub open spec fn hex_decodable(text: Seq<u8>) -> bool {
    &&& text.len() % 2 == 0
    &&& forall|i: int| 0 <= i < text.len() ==> is_hex_byte(#[trigger] text[i])
}

/// The bytes that `hex::decode` returns for `text`.
pub open spec fn hex_bytes(text: Seq<u8>) -> Seq<u8> {
    Seq::new(
        text.len() / 2,
        |i: int| (hex_value(text[2 * i]) * 16 + hex_value(text[2 * i + 1])) as u8,
    )
}

/// `hex::encode`: each byte of `data` as two lowercase hex digits.
#[verifier::external_body]
pub(crate) fn hex_encode(data: &[u8]) -> (text: String)
    ensures
        text@ == hex_text(data@),
{
    ::hex::encode(data)
}

/// `hex::decode` over the UTF-8 bytes of `text`: it succeeds exactly when they
/// are an even number of hex digits (either case), and then returns the bytes
/// they spell. The error is the `FromHexError` message, whose wording is not
/// stated here.
#[verifier::external_body]
pub(crate) fn hex_decode(text: &str) -> (r: Result<Vec<u8>, String>)
    ensures
        r is Ok <==> hex_decodable(text.spec_bytes()),
        r matches Ok(bytes) ==> bytes@ == hex_bytes(text.spec_bytes()),
{
    match ::hex::decode(text) {
        Ok(bytes) => Ok(bytes),
        Err(e) => Err(e.to_string()),
    }
}

/// The hex text of any bytes is ASCII, its UTF-8 bytes are its characters, and
/// decoding them gives the bytes back.
pub proof fn lemma_hex_round_trip(data: Seq<u8>)
    ensures
        is_ascii_chars(hex_text(data)),
        hex_decodable(encode_utf8(hex_text(data))),
        hex_bytes(encode_utf8(hex_text(data))) == data,
{
    let t = hex_text(data);
    assert forall|i: int| 0 <= i < t.len() implies '\0' <= #[trigger] t[i] <= '\u{7f}' && is_hex_byte(t[i] as u8) && (t[i] as u8) as int == (if i % 2 == 0 { 48 + (data[i / 2] / 16) + (if data[i / 2] / 16 < 10 { 0int } else { 39int }) } else { 48 + (data[i / 2] % 16) + (if data[i / 2] % 16 < 10 { 0int } else { 39int }) }) by {
    }
    is_ascii_chars_encode_utf8(t);
    let e = encode_utf8(t);
    assert forall|i: int| 0 <= i < e.len() implies is_hex_byte(#[trigger] e[i]) by {
        assert(e[i] == t[i] as u8);
    }
    assert forall|i: int| 0 <= i < data.len() implies #[trigger] hex_bytes(e)[i] == data[i] by {
        assert(e[2 * i] == t[2 * i] as u8);
        assert(e[2 * i + 1] == t[2 * i + 1] as u8);
        let x = data[i];
        assert(hex_value(e[2 * i]) == x / 16);
        assert(hex_value(e[2 * i + 1]) == x % 16);
        assert((x / 16) * 16 + x % 16 == x) by (nonlinear_arith);
    }
    assert(hex_bytes(e) =~= data);
}

} // verus!
