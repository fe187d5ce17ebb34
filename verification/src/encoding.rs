//! Byte and text encodings used on the wire: Base64 (HTTP basic
//! authentication), hexadecimal (raw block data) and UTF-8.
use vstd::prelude::*;
use vstd::utf8::*;

verus! {

/// The character that an ASCII byte stands for.
pub open spec fn ascii_text(bytes: Seq<u8>) -> Seq<char> {
    bytes.map_values(|b: u8| b as char)
}

/// The bytes of a text whose characters are all ASCII.
pub open spec fn ascii_bytes(text: Seq<char>) -> Seq<u8> {
    text.map_values(|c: char| c as u8)
}

/// ASCII text read back as bytes gives the bytes again.
pub proof fn lemma_ascii_roundtrip(bytes: Seq<u8>)
    ensures
        ascii_bytes(ascii_text(bytes)) == bytes,
{
    assert(ascii_bytes(ascii_text(bytes)) =~= bytes);
}

/// The symbol of the standard Base64 alphabet (RFC 4648) for a 6-bit value.
pub open spec fn base64_symbol(v: int) -> u8 {
    if v < 26 {
        (v + 65) as u8
    } else if v < 52 {
        (v + 71) as u8
    } else if v < 62 {
        (v - 4) as u8
    } else if v == 62 {
        43u8
    } else {
        47u8
    }
}

/// Standard Base64 with `=` padding (RFC 4648, section 4).
pub open spec fn base64_std(data: Seq<u8>) -> Seq<u8>
    decreases data.len(),
{
    if data.len() == 0 {
        seq![]
    } else {
        let a = data[0] as int;
        let b = if data.len() > 1 { data[1] as int } else { 0 };
        let c = if data.len() > 2 { data[2] as int } else { 0 };
        let s0 = base64_symbol(a / 4);
        let s1 = base64_symbol((a % 4) * 16 + b / 16);
        let s2 = if data.len() > 1 { base64_symbol((b % 16) * 4 + c / 64) } else { 61u8 };
        let s3 = if data.len() > 2 { base64_symbol(c % 64) } else { 61u8 };
        if data.len() <= 3 {
            seq![s0, s1, s2, s3]
        } else {
            seq![s0, s1, s2, s3] + base64_std(data.skip(3))
        }
    }
}

/// What `base64::decode` returns for the given text: the decoded bytes, or
/// `None` where it reports an error.
pub uninterp spec fn base64_decoded(text: Seq<u8>) -> Option<Seq<u8>>;

/// A byte that HTTP accepts in a header value that is read as text:
/// a visible ASCII character, a space or a tab.
pub open spec fn is_visible_ascii(b: u8) -> bool {
    (32 <= b && b < 127) || b == 9
}

pub open spec fn all_visible_ascii(bytes: Seq<u8>) -> bool {
    forall|i: int| 0 <= i < bytes.len() ==> is_visible_ascii(#[trigger] bytes[i])
}

/// Every symbol of standard Base64 output is a visible ASCII character.
pub proof fn lemma_base64_std_visible(data: Seq<u8>)
    ensures
        all_visible_ascii(base64_std(data)),
        base64_std(data).len() == (if data.len() % 3 == 0 { data.len() / 3 * 4 } else { data.len() / 3 * 4 + 4 }),
    decreases data.len(),
{
    if data.len() > 2 {
        lemma_base64_std_visible(data.skip(3));
    }
}

/// Calls `base64::encode`: standard Base64 with padding. The contract also
/// states the one fact of `base64::decode` that callers need: it gives back
/// the bytes that were encoded.
#[verifier::external_body]
pub fn base64_encode(data: &[u8]) -> (res: String)
    ensures
        res@ == ascii_text(base64_std(data@)),
        base64_decoded(ascii_bytes(res@)) == Some(data@),
{
    base64::encode(data)
}

/// Calls `base64::decode` on the bytes of a text; `None` stands for its
/// `DecodeError`. What it accepts is named `base64_decoded`; the contract
/// also states that it accepts only bytes of the Base64 alphabet and `=`,
/// all of them visible ASCII, as the crate checks each byte against its
/// decoding table.
#[verifier::external_body]
pub fn base64_decode(text: &[u8]) -> (res: Option<Vec<u8>>)
    ensures
        match res {
            Some(v) => base64_decoded(text@) == Some(v@),
            None => base64_decoded(text@) is None,
        },
        res is Some ==> all_visible_ascii(text@),
{
    match base64::decode(text) {
        Ok(v) => Some(v),
        Err(_) => None,
    }
}

/// Calls `std::str::from_utf8`: the bytes read as text when they are valid
/// UTF-8, as its documentation states.
#[verifier::external_body]
pub fn str_from_utf8(bytes: &[u8]) -> (res: Option<&str>)
    ensures
        res is Some <==> valid_utf8(bytes@),
        res matches Some(s) ==> s@ == decode_utf8(bytes@),
{
    std::str::from_utf8(bytes).ok()
}

/// The lower-case hexadecimal digit for a value below 16.
pub open spec fn hex_digit(v: int) -> char {
    if v < 10 {
        (v + 48) as char
    } else {
        (v + 87) as char
    }
}

/// The value of a hexadecimal digit in either case, if it is one.
pub open spec fn hex_value(c: char) -> Option<int> {
    if '0' <= c && c <= '9' {
        Some(c as int - 48)
    } else if 'a' <= c && c <= 'f' {
        Some(c as int - 87)
    } else if 'A' <= c && c <= 'F' {
        Some(c as int - 55)
    } else {
        None
    }
}

/// Two lower-case hexadecimal digits per byte, high nibble first.
pub open spec fn hex_lower(bytes: Seq<u8>) -> Seq<char> {
    Seq::new(
        2 * bytes.len(),
        |i: int|
            if i % 2 == 0 {
                hex_digit(bytes[i / 2] as int / 16)
            } else {
                hex_digit(bytes[i / 2] as int % 16)
            },
    )
}

/// Decoding hexadecimal text: defined where the text has an even number of
/// characters, all of them hexadecimal digits.
pub open spec fn hex_decoded(text: Seq<char>) -> Option<Seq<u8>> {
    if text.len() % 2 == 0 && (forall|i: int| 0 <= i < text.len() ==> (#[trigger] hex_value(text[i])) is Some) {
        Some(
            Seq::new(
                text.len() / 2,
                |i: int| (hex_value(text[2 * i]).unwrap() * 16 + hex_value(text[2 * i + 1]).unwrap()) as u8,
            ),
        )
    } else {
        None
    }
}

/// Calls `hex::encode`: two lower-case digits per byte.
#[verifier::external_body]
pub fn hex_encode(data: &[u8]) -> (res: String)
    ensures
        res@ == hex_lower(data@),
{
    hex::encode(data)
}

/// Calls `hex::decode` on the bytes of a text; `None` stands for its
/// `FromHexError`. The crate rejects an odd number of bytes and any byte that
/// is not a digit of either case; a character outside ASCII takes several
/// bytes of 0x80 and above, none of them a digit.
#[verifier::external_body]
pub fn hex_decode(text: &str) -> (res: Option<Vec<u8>>)
    ensures
        match res {
            Some(v) => hex_decoded(text@) == Some(v@),
            None => hex_decoded(text@) is None,
        },
{
    hex::decode(text).ok()
}

/// Reading back what `hex_lower` wrote gives the bytes again.
pub proof fn lemma_hex_roundtrip(bytes: Seq<u8>)
    ensures
        hex_decoded(hex_lower(bytes)) == Some(bytes),
{
    let t = hex_lower(bytes);
    assert forall|i: int| 0 <= i < t.len() implies (#[trigger] hex_value(t[i])) is Some by {
        let b = bytes[i / 2] as int;
        let v = if i % 2 == 0 { b / 16 } else { b % 16 };
        assert(0 <= v < 16);
    }
    let d = hex_decoded(t).unwrap();
    assert forall|i: int| 0 <= i < bytes.len() implies d[i] == bytes[i] by {
        let b = bytes[i] as int;
        assert(t[2 * i] == hex_digit(b / 16));
        assert(t[2 * i + 1] == hex_digit(b % 16));
        assert(hex_value(hex_digit(b / 16)) == Some(b / 16));
        assert(hex_value(hex_digit(b % 16)) == Some(b % 16));
    }
    assert(d =~= bytes);
}

} // verus!
