//! Encodings the agent speaks: base64 for terminal data and registry
//! credentials, UTF-8 for text.

use base64::Engine;
use vstd::prelude::*;

verus! {

/// The bytes standard base64 (with padding, as RFC 4648 defines it)
/// decodes `s` to, if `s` is such base64.
pub uninterp spec fn base64_standard_decode(s: Seq<char>) -> Option<Seq<u8>>;

/// `base64::engine::general_purpose::STANDARD.decode`: the bytes `s`
/// decodes to, or none if it is not base64. The result is named.
#[verifier::external_body]
pub(crate) fn decode_base64(s: &str) -> (res: Option<Vec<u8>>)
    ensures
        match base64_standard_decode(s@) {
            Some(b) => res matches Some(r) && r@ == b,
            None => res is None,
        },
{
    base64::engine::general_purpose::STANDARD.decode(s).ok()
}

/// The text UTF-8 bytes encode, if they are UTF-8.
pub uninterp spec fn utf8_text(bytes: Seq<u8>) -> Option<Seq<char>>;

/// `String::from_utf8`: the text the bytes encode, or none if they are not
/// UTF-8. The result is named.
#[verifier::external_body]
pub(crate) fn text_of_utf8(bytes: Vec<u8>) -> (res: Option<String>)
    ensures
        match utf8_text(bytes@) {
            Some(t) => res matches Some(r) && r@ == t,
            None => res is None,
        },
{
    String::from_utf8(bytes).ok()
}

/// The text UTF-8 bytes give when each invalid sequence in them is
/// replaced by U+FFFD, as `String::from_utf8_lossy` reads them.
pub uninterp spec fn utf8_lossy(bytes: Seq<u8>) -> Seq<char>;

/// `String::from_utf8_lossy`, made an owned `String`: the text of the
/// bytes, with U+FFFD for each invalid sequence. The result is named; std
/// documents that bytes that are valid UTF-8 give their text unchanged.
#[verifier::external_body]
pub(crate) fn lossy_text(bytes: &[u8]) -> (res: String)
    ensures
        res@ == utf8_lossy(bytes@),
        utf8_text(bytes@) matches Some(t) ==> res@ == t,
{
    String::from_utf8_lossy(bytes).into_owned()
}

/// The character of a six-bit value in the standard base64 alphabet
/// (RFC 4648, table 1): `A`-`Z`, `a`-`z`, `0`-`9`, `+`, `/`.
pub open spec fn base64_char(n: int) -> char {
    if n < 26 {
        (65 + n) as char
    } else if n < 52 {
        (97 + n - 26) as char
    } else if n < 62 {
        (48 + n - 52) as char
    } else if n == 62 {
        '+'
    } else {
        '/'
    }
}

/// The standard base64 of `bytes`, with padding (RFC 4648, section 4):
/// each three bytes become four characters of six bits each; a last group
/// of one or two bytes is padded with zero bits and `=`.
pub open spec fn base64_standard_encode(bytes: Seq<u8>) -> Seq<char>
    decreases bytes.len(),
{
    if bytes.len() == 0 {
        Seq::empty()
    } else if bytes.len() == 1 {
        let b0 = bytes[0] as int;
        seq![base64_char(b0 / 4), base64_char((b0 % 4) * 16), '=', '=']
    } else if bytes.len() == 2 {
        let b0 = bytes[0] as int;
        let b1 = bytes[1] as int;
        seq![base64_char(b0 / 4), base64_char((b0 % 4) * 16 + b1 / 16), base64_char((b1 % 16) * 4), '=']
    } else {
        let b0 = bytes[0] as int;
        let b1 = bytes[1] as int;
        let b2 = bytes[2] as int;
        seq![
            base64_char(b0 / 4),
            base64_char((b0 % 4) * 16 + b1 / 16),
            base64_char((b1 % 16) * 4 + b2 / 64),
            base64_char(b2 % 64),
        ] + base64_standard_encode(bytes.skip(3))
    }
}

/// `base64::engine::general_purpose::STANDARD.encode`: the standard base64
/// of the bytes, with padding, as `base64_standard_encode` states it.
#[verifier::external_body]
pub(crate) fn encode_base64(bytes: &[u8]) -> (res: String)
    ensures
        res@ == base64_standard_encode(bytes@),
{
    base64::engine::general_purpose::STANDARD.encode(bytes)
}

} // verus!
