//! The cover as a data URI: the image's content type, then its bytes in
//! base64.

use vstd::prelude::*;

verus! {

/// The character for a base64 digit, in the standard alphabet.
pub open spec fn base64_digit(v: int) -> char {
    if v < 26 {
        ((v + 65) as u8) as char
    } else if v < 52 {
        ((v - 26 + 97) as u8) as char
    } else if v < 62 {
        ((v - 52 + 48) as u8) as char
    } else if v == 62 {
        '+'
    } else {
        '/'
    }
}

/// The standard base64 text of `data`, padded with `=` to a multiple of four
/// characters.
pub open spec fn base64(data: Seq<u8>) -> Seq<char>
    decreases data.len(),
{
    if data.len() == 0 {
        Seq::empty()
    } else if data.len() == 1 {
        let a = data[0] as int;
        seq![base64_digit(a / 4), base64_digit((a % 4) * 16), '=', '=']
    } else if data.len() == 2 {
        let a = data[0] as int;
        let b = data[1] as int;
        seq![
            base64_digit(a / 4),
            base64_digit((a % 4) * 16 + b / 16),
            base64_digit((b % 16) * 4),
            '=',
        ]
    } else {
        let a = data[0] as int;
        let b = data[1] as int;
        let c = data[2] as int;
        seq![
            base64_digit(a / 4),
            base64_digit((a % 4) * 16 + b / 16),
            base64_digit((b % 16) * 4 + c / 64),
            base64_digit(c % 64),
        ] + base64(data.skip(3))
    }
}

/// Whether the base64 text of `data` has a length that the machine can say.
pub open spec fn encodable(data: Seq<u8>) -> bool {
    data.len() / 3 * 4 + 4 <= usize::MAX
}

/// The data URI of an image: `data:`, the content type, `;base64,` and the
/// bytes in base64.
pub open spec fn data_uri_text(mime: Seq<char>, data: Seq<u8>) -> Seq<char> {
    "data:"@ + mime + ";base64,"@ + base64(data)
}

/// The base64 text of `data`.
///
/// Trusted: `Engine::encode` of `base64::engine::general_purpose::STANDARD`,
/// the alphabet of RFC 4648 with padding. It panics where the length of the
/// text overflows, so callers keep to data whose text has a length.
#[verifier::external_body]
pub(crate) fn base64_of(data: &[u8]) -> (r: String)
    requires
        encodable(data@),
    ensures
        r@ == base64(data@),
{
    base64::Engine::encode(&base64::engine::general_purpose::STANDARD, data)
}

/// The data URI under which an image of content type `mime` is handed to a
/// rendering surface.
pub fn data_uri(mime: &str, data: &[u8]) -> (r: String)
    requires
        encodable(data@),
    ensures
        r@ == data_uri_text(mime@, data@),
{
    let mut uri = "data:".to_owned();
    uri.append(mime);
    uri.append(";base64,");
    let payload = base64_of(data);
    uri.append(payload.as_str());
    uri
}

/// Whether the base64 text of `data` has a length that the machine can say.
pub fn is_encodable(data: &[u8]) -> (r: bool)
    ensures
        r == encodable(data@),
{
    data.len() / 3 <= (usize::MAX - 4) / 4
}

} // verus!
