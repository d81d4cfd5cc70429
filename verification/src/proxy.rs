//! Requests passed through a relay to a target: which method and headers
//! survive, and which tunnel messages carry the body.
use vstd::prelude::*;
use vstd::utf8::encode_utf8;
use crate::frame::{Message, MessageView};
use crate::protocol::alpn_sharetty_spec;
use crate::text::string_from;

verus! {

/// Whether a byte is a token character of HTTP: a letter, a digit, or one
/// of ``! # $ % & ' * + - . ^ _ ` | ~``.
pub open spec fn is_token_byte(b: u8) -> bool {
    ||| 48 <= b <= 57
    ||| 65 <= b <= 90
    ||| 97 <= b <= 122
    ||| b == 33 || b == 35 || b == 36 || b == 37 || b == 38 || b == 39
    ||| b == 42 || b == 43 || b == 45 || b == 46
    ||| b == 94 || b == 95 || b == 96 || b == 124 || b == 126
}

/// Whether every byte is a token character.
pub open spec fn all_token_bytes(bytes: Seq<u8>) -> bool {
    forall|i: int| 0 <= i < bytes.len() ==> is_token_byte(#[trigger] bytes[i])
}

/// Whether `http::Method::from_bytes` accepts these bytes as a method: a
/// non-empty token.
pub open spec fn http_method_ok(bytes: Seq<u8>) -> bool {
    bytes.len() > 0 && all_token_bytes(bytes)
}

/// Whether `http::header::HeaderName::from_bytes` accepts these bytes as a
/// header name: a token of 1 to 65535 bytes.
pub open spec fn header_name_ok(bytes: Seq<u8>) -> bool {
    0 < bytes.len() <= 65535 && all_token_bytes(bytes)
}

/// Whether `http::header::HeaderValue::from_str` accepts a value with these
/// UTF-8 bytes: every byte is a tab, or at least 32 and not 127.
pub open spec fn header_value_ok(bytes: Seq<u8>) -> bool {
    forall|i: int| 0 <= i < bytes.len() ==> #[trigger] bytes[i] == 9 || (bytes[i] >= 32
        && bytes[i] != 127)
}

/// Whether `http::Method::from_bytes` accepts the method: a non-empty
/// run of token characters.
#[verifier::external_body]
fn method_accepted(method: &str) -> (ok: bool)
    ensures
        ok == http_method_ok(encode_utf8(method@)),
{
    http::Method::from_bytes(method.as_bytes()).is_ok()
}

/// Whether `http::header::HeaderName::from_bytes` accepts the name: a run
/// of token characters, upper or lower case, of 1 to 65535 bytes.
#[verifier::external_body]
fn header_name_accepted(name: &str) -> (ok: bool)
    ensures
        ok == header_name_ok(encode_utf8(name@)),
{
    http::header::HeaderName::from_bytes(name.as_bytes()).is_ok()
}

/// Whether `http::header::HeaderValue::from_str` accepts the value: no
/// byte of it below 32 but tabs, and no 127.
#[verifier::external_body]
fn header_value_accepted(value: &str) -> (ok: bool)
    ensures
        ok == header_value_ok(encode_utf8(value@)),
{
    http::header::HeaderValue::from_str(value).is_ok()
}

/// The method a passed-on request is made with: the one given where it is
/// a valid HTTP method, else `GET`.
pub fn request_method(method: &str) -> (m: String)
    ensures
        http_method_ok(encode_utf8(method@)) ==> m@ == method@,
        !http_method_ok(encode_utf8(method@)) ==> m@ == "GET"@,
{
    if method_accepted(method) {
        string_from(method)
    } else {
        string_from("GET")
    }
}

/// A header as name and value.
pub open spec fn header_view(h: (String, String)) -> (Seq<char>, Seq<char>) {
    (h.0@, h.1@)
}

/// Whether a header is passed on: its name and value are both valid.
pub open spec fn header_kept(h: (Seq<char>, Seq<char>)) -> bool {
    header_name_ok(encode_utf8(h.0)) && header_value_ok(encode_utf8(h.1))
}

/// The headers that are passed on, in their order.
pub open spec fn kept_headers(hs: Seq<(Seq<char>, Seq<char>)>) -> Seq<(Seq<char>, Seq<char>)>
    decreases hs.len(),
{
    if hs.len() == 0 {
        Seq::empty()
    } else {
        kept_headers(hs.drop_last()) + if header_kept(hs.last()) {
            seq![hs.last()]
        } else {
            Seq::empty()
        }
    }
}

/// The views of a list of headers.
pub open spec fn headers_view(hs: Seq<(String, String)>) -> Seq<(Seq<char>, Seq<char>)> {
    hs.map_values(|h: (String, String)| header_view(h))
}

/// The headers of a list that are passed on: those whose name and value
/// the `http` crate accepts; the others are dropped.
pub fn forwardable_headers(headers: &Vec<(String, String)>) -> (kept: Vec<(String, String)>)
    ensures
        headers_view(kept@) == kept_headers(headers_view(headers@)),
{
    let mut kept: Vec<(String, String)> = Vec::new();
    let ghost hs = headers_view(headers@);
    let mut i: usize = 0;
    while i < headers.len()
        invariant
            i <= headers@.len(),
            hs == headers_view(headers@),
            headers_view(kept@) == kept_headers(hs.take(i as int)),
        decreases headers@.len() - i,
    {
        let name = &headers[i].0;
        let value = &headers[i].1;
        let ghost before = headers_view(kept@);
        assert(hs.take(i + 1).drop_last() == hs.take(i as int));
        assert(hs.take(i + 1).last() == header_view(headers@[i as int]));
        if header_name_accepted(name.as_str()) && header_value_accepted(value.as_str()) {
            kept.push((string_from(name.as_str()), string_from(value.as_str())));
            assert(headers_view(kept@) =~= before + seq![header_view(headers@[i as int])]);
        } else {
            assert(headers_view(kept@) =~= before + Seq::<(Seq<char>, Seq<char>)>::empty());
        }
        i = i + 1;
    }
    assert(hs.take(headers@.len() as int) == hs);
    kept
}

/// Every header passed on is valid, and none is made up.
pub proof fn lemma_kept_headers_valid(hs: Seq<(Seq<char>, Seq<char>)>)
    ensures
        forall|i: int| 0 <= i < kept_headers(hs).len() ==> header_kept(#[trigger] kept_headers(hs)[i]),
        forall|i: int| 0 <= i < kept_headers(hs).len() ==> hs.contains(#[trigger] kept_headers(hs)[i]),
        kept_headers(hs).len() <= hs.len(),
    decreases hs.len(),
{
    if hs.len() > 0 {
        let init = hs.drop_last();
        lemma_kept_headers_valid(init);
        let k = kept_headers(hs);
        let ki = kept_headers(init);
        assert forall|i: int| 0 <= i < k.len() implies header_kept(#[trigger] k[i]) && hs.contains(k[i]) by {
            if i < ki.len() {
                assert(k[i] == ki[i]);
                let j = choose|j: int| 0 <= j < init.len() && init[j] == ki[i];
                assert(hs[j] == init[j]);
            } else {
                assert(k[i] == hs.last());
                assert(hs[hs.len() - 1] == hs.last());
            }
        }
    }
}

/// The headers passed on are exactly those whose name and value the `http`
/// crate accepts, in their order: no accepted header is dropped, no refused
/// one is kept.
pub proof fn lemma_kept_headers_are_the_accepted_ones(hs: Seq<(Seq<char>, Seq<char>)>)
    ensures
        kept_headers(hs) == hs.filter(
            |h: (Seq<char>, Seq<char>)|
                header_name_ok(encode_utf8(h.0)) && header_value_ok(encode_utf8(h.1)),
        ),
    decreases hs.len(),
{
    reveal(Seq::filter);
    let pred = |h: (Seq<char>, Seq<char>)|
        header_name_ok(encode_utf8(h.0)) && header_value_ok(encode_utf8(h.1));
    if hs.len() > 0 {
        lemma_kept_headers_are_the_accepted_ones(hs.drop_last());
        assert(kept_headers(hs) =~= hs.filter(pred));
    } else {
        assert(kept_headers(hs) =~= hs.filter(pred));
    }
}

/// The body bytes a tunnel message carries: binary messages carry body
/// data; every other message carries none and is passed over.
pub fn body_chunk(msg: Message) -> (chunk: Option<Vec<u8>>)
    ensures
        msg@ matches MessageView::Binary(b) ==> (chunk matches Some(c) && c@ == b),
        !(msg@ is Binary) ==> chunk is None,
{
    match msg {
        Message::Binary(b) => Some(b),
        _ => None,
    }
}

/// Whether a message a broadcast target sends on its data connection goes
/// to the viewers: only terminal output, which is binary.
pub fn forwarded_to_viewers(msg: &Message) -> (fwd: bool)
    ensures
        fwd == (msg@ is Binary),
{
    match msg {
        Message::Binary(_) => true,
        _ => false,
    }
}

/// Whether a QUIC connection negotiated the direct protocol, rather than
/// HTTP/3.
pub fn is_direct_protocol(alpn: &[u8]) -> (d: bool)
    ensures
        d == (alpn@ == alpn_sharetty_spec()),
{
    let expect: [u8; 8] = [115u8, 104u8, 97u8, 114u8, 101u8, 116u8, 116u8, 121u8];
    if alpn.len() != 8 {
        return false;
    }
    let mut i: usize = 0;
    while i < 8
        invariant
            alpn@.len() == 8,
            i <= 8,
            expect@ == alpn_sharetty_spec(),
            forall|k: int| 0 <= k < i ==> alpn@[k] == expect@[k],
        decreases 8 - i,
    {
        if alpn[i] != expect[i] {
            return false;
        }
        i = i + 1;
    }
    assert(alpn@ =~= alpn_sharetty_spec());
    true
}

} // verus!
