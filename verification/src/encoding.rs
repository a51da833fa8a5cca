//! Text encodings the applications speak: standard base64 for bodies and
//! payloads, Unicode case mapping, and UTF-8 decoding of received bytes.
use vstd::prelude::*;
use vstd::utf8::{decode_utf8, valid_utf8};
use base64::Engine;

verus! {

/// The digit of a 6-bit value in the standard base64 alphabet: `A`–`Z`,
/// `a`–`z`, `0`–`9`, `+`, `/`.
pub open spec fn b64_digit(v: u8) -> char {
    if v < 26 {
        (('A' as u8) + v) as char
    } else if v < 52 {
        (('a' as u8) + (v - 26)) as char
    } else if v < 62 {
        (('0' as u8) + (v - 52)) as char
    } else if v == 62 {
        '+'
    } else {
        '/'
    }
}

/// The standard base64 text (RFC 4648 alphabet, `=` padding) of a byte
/// string: four digits per three bytes, the last group padded with `=`.
pub open spec fn base64_text(b: Seq<u8>) -> Seq<char>
    decreases b.len(),
{
    if b.len() == 0 {
        Seq::empty()
    } else if b.len() == 1 {
        seq![b64_digit(b[0] >> 2u8), b64_digit((b[0] & 3u8) << 4u8), '=', '=']
    } else if b.len() == 2 {
        seq![
            b64_digit(b[0] >> 2u8),
            b64_digit(((b[0] & 3u8) << 4u8) | (b[1] >> 4u8)),
            b64_digit((b[1] & 15u8) << 2u8),
            '=',
        ]
    } else {
        seq![
            b64_digit(b[0] >> 2u8),
            b64_digit(((b[0] & 3u8) << 4u8) | (b[1] >> 4u8)),
            b64_digit(((b[1] & 15u8) << 2u8) | (b[2] >> 6u8)),
            b64_digit(b[2] & 63u8),
        ] + base64_text(b.subrange(3, b.len() as int))
    }
}

/// What decoding a text as standard base64 gives: the bytes, or the
/// message of the decoding error.
pub uninterp spec fn base64_decoded(s: Seq<char>) -> Result<Seq<u8>, Seq<char>>;

/// `base64::engine::general_purpose::STANDARD.encode`. Trusted: the text is
/// the standard base64 text of the bytes, and since this engine decodes only
/// canonical padding and no trailing bits, the text decodes back to exactly
/// these bytes.
#[verifier::external_body]
pub(crate) fn b64_encode(data: &[u8]) -> (r: String)
    ensures
        r@ == base64_text(data@),
        base64_decoded(r@) is Ok && base64_decoded(r@)->Ok_0 == data@,
{
    base64::engine::general_purpose::STANDARD.encode(data)
}

/// `base64::engine::general_purpose::STANDARD.decode`, its error turned into
/// its message. Trusted: the outcome is the named decoding of the text.
#[verifier::external_body]
pub(crate) fn b64_decode(s: &str) -> (r: Result<Vec<u8>, String>)
    ensures
        r is Ok <==> base64_decoded(s@) is Ok,
        r matches Ok(v) ==> (base64_decoded(s@) matches Ok(b) && b == v@),
        r matches Err(e) ==> (base64_decoded(s@) matches Err(m) && m == e@),
{
    match base64::engine::general_purpose::STANDARD.decode(s) {
        Ok(v) => Ok(v),
        Err(e) => Err(e.to_string()),
    }
}

/// The Unicode upper-case form of a text, as `str::to_uppercase` gives it.
pub uninterp spec fn unicode_upper(s: Seq<char>) -> Seq<char>;

/// `str::to_uppercase`. Trusted: the text is the named mapping of the input.
#[verifier::external_body]
pub(crate) fn to_uppercase(s: &str) -> (r: String)
    ensures
        r@ == unicode_upper(s@),
{
    s.to_uppercase()
}

/// The Unicode lower-case form of a text, as `str::to_lowercase` gives it.
pub uninterp spec fn unicode_lower(s: Seq<char>) -> Seq<char>;

/// `str::to_lowercase`. Trusted: the text is the named mapping of the input.
#[verifier::external_body]
pub(crate) fn to_lowercase(s: &str) -> (r: String)
    ensures
        r@ == unicode_lower(s@),
{
    s.to_lowercase()
}

/// `String::from_utf8`, keeping only whether it succeeded. Trusted: as its
/// documentation says, it succeeds exactly on valid UTF-8, and the text is
/// then what the bytes encode.
#[verifier::external_body]
pub(crate) fn utf8_text(v: Vec<u8>) -> (r: Option<String>)
    ensures
        r is Some <==> valid_utf8(v@),
        r matches Some(s) ==> s@ == decode_utf8(v@),
{
    String::from_utf8(v).ok()
}

} // verus!
