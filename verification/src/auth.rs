//! Basic authentication of HTTP requests.
use vstd::prelude::*;
use vstd::string::StringExecFns;
use base64::Engine;
use crate::text::string_from;

verus! {

/// The character of the standard base64 alphabet for a 6-bit value:
/// `A`-`Z`, `a`-`z`, `0`-`9`, `+`, `/`.
pub open spec fn base64_char(v: int) -> char {
    if v < 26 {
        (65 + v) as char
    } else if v < 52 {
        (97 + v - 26) as char
    } else if v < 62 {
        (48 + v - 52) as char
    } else if v == 62 {
        '+'
    } else {
        '/'
    }
}

/// The standard base64 encoding, with padding, of a byte sequence: each
/// group of three bytes gives four characters of six bits each; a last
/// group of one or two bytes is padded with `=`.
pub open spec fn base64_standard(bytes: Seq<u8>) -> Seq<char>
    decreases bytes.len(),
{
    if bytes.len() == 0 {
        Seq::empty()
    } else if bytes.len() == 1 {
        let b0 = bytes[0] as int;
        seq![base64_char(b0 / 4), base64_char((b0 % 4) * 16), '=', '=']
    } else if bytes.len() == 2 {
        let b0 = bytes[0] as int;
        let b1 = bytes[1] as int;
        seq![
            base64_char(b0 / 4),
            base64_char((b0 % 4) * 16 + b1 / 16),
            base64_char((b1 % 16) * 4),
            '=',
        ]
    } else {
        let b0 = bytes[0] as int;
        let b1 = bytes[1] as int;
        let b2 = bytes[2] as int;
        seq![
            base64_char(b0 / 4),
            base64_char((b0 % 4) * 16 + b1 / 16),
            base64_char((b1 % 16) * 4 + b2 / 64),
            base64_char(b2 % 64),
        ] + base64_standard(bytes.skip(3))
    }
}

/// `base64::engine::general_purpose::STANDARD.encode`: the standard,
/// padded base64 text of the bytes, as [`base64_standard`] states it.
#[verifier::external_body]
fn base64_encode(bytes: &[u8]) -> (s: String)
    ensures
        s@ == base64_standard(bytes@),
{
    base64::engine::general_purpose::STANDARD.encode(bytes)
}

/// The `Authorization` header value that a credential `user:pass` is sent
/// as: `Basic ` followed by the base64 of its UTF-8 bytes.
pub open spec fn expected_authorization(credential: Seq<char>) -> Seq<char> {
    "Basic "@ + base64_standard(vstd::utf8::encode_utf8(credential))
}

/// The `Authorization` header value expected for a credential.
pub fn authorization_for(credential: &str) -> (h: String)
    ensures
        h@ == expected_authorization(credential@),
{
    let encoded = base64_encode(credential.as_bytes());
    let prefix = string_from("Basic ");
    prefix.concat(encoded.as_str())
}

/// Whether a request passes: always where no credential is configured,
/// otherwise only when its `Authorization` header, read as text, is the
/// expected value. `header` is `None` where the request has no such
/// header or its value is not visible ASCII.
pub open spec fn is_authorized(credential: Option<Seq<char>>, header: Option<Seq<char>>) -> bool {
    match credential {
        None => true,
        Some(c) => header == Some(expected_authorization(c)),
    }
}

/// Whether a request with the given `Authorization` header passes.
pub fn authorize(credential: &Option<String>, header: &Option<String>) -> (ok: bool)
    ensures
        ok == is_authorized(
            match credential {
                Some(c) => Some(c@),
                None => None,
            },
            match header {
                Some(h) => Some(h@),
                None => None,
            },
        ),
{
    match credential {
        None => true,
        Some(c) => {
            let expected = authorization_for(c.as_str());
            match header {
                Some(h) => h.eq(&expected),
                None => false,
            }
        },
    }
}

/// The `WWW-Authenticate` value sent with a refusal.
pub fn challenge() -> (s: String)
    ensures
        s@ == "Basic realm=\"sharetty\""@,
{
    string_from("Basic realm=\"sharetty\"")
}

/// The body sent with a refusal.
pub fn unauthorized_body() -> (s: String)
    ensures
        s@ == "Unauthorized"@,
{
    string_from("Unauthorized")
}

/// A request that carries the header built from the configured credential
/// passes, and with a credential configured, a request without the header
/// is refused.
pub proof fn lemma_authorization_roundtrip(credential: Seq<char>)
    ensures
        is_authorized(Some(credential), Some(expected_authorization(credential))),
        !is_authorized(Some(credential), None),
{
}

} // verus!
