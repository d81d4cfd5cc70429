//! The handshake that opens a direct QUIC connection of a target to a relay.
use vstd::prelude::*;
use crate::text::{has_prefix, starts_with, string_from};

verus! {

/// The request that a target sends first on its control stream.
pub struct HandshakeRequest {
    pub path: String,
    pub auth: Option<String>,
    pub version: String,
}

/// The relay's answer to a [`HandshakeRequest`].
pub struct HandshakeResponse {
    pub status: u16,
    pub error: Option<String>,
}

/// The protocol version a target announces.
pub open spec fn protocol_version() -> Seq<char> {
    "1.0"@
}

/// The ALPN identifier of the direct QUIC protocol, `sharetty`.
pub open spec fn alpn_sharetty_spec() -> Seq<u8> {
    seq![115u8, 104u8, 97u8, 114u8, 101u8, 116u8, 116u8, 121u8]
}

/// The ALPN identifier of the direct QUIC protocol, `sharetty`.
pub fn alpn_sharetty() -> (v: Vec<u8>)
    ensures
        v@ == alpn_sharetty_spec(),
{
    let mut v: Vec<u8> = Vec::new();
    v.push(115u8);
    v.push(104u8);
    v.push(97u8);
    v.push(114u8);
    v.push(101u8);
    v.push(116u8);
    v.push(116u8);
    v.push(121u8);
    v
}

/// Whether an optional string equals another optional string, by content.
pub open spec fn same_optional(a: Option<String>, b: Option<String>) -> bool {
    match (a, b) {
        (Some(x), Some(y)) => x@ == y@,
        (None, None) => true,
        _ => false,
    }
}

/// The status the relay answers a handshake with: 400 when no request
/// could be read, 404 when the relay serves under a path that the
/// request's path does not start with, 401 when the relay asks for a
/// credential that the request does not carry, 200 otherwise.
pub open spec fn handshake_status(
    req: Option<HandshakeRequest>,
    url: Option<String>,
    credential: Option<String>,
) -> u16 {
    match req {
        None => 400,
        Some(r) => if url is Some && !has_prefix(r.path@, url->0@) {
            404
        } else if credential is Some && !same_optional(r.auth, credential) {
            401
        } else {
            200
        },
    }
}

/// The error text that goes with a handshake status.
pub open spec fn handshake_error(status: u16) -> Option<Seq<char>> {
    if status == 400 {
        Some("Invalid Handshake"@)
    } else if status == 404 {
        Some("Invalid Path"@)
    } else if status == 401 {
        Some("Unauthorized"@)
    } else {
        None
    }
}

fn optional_eq(a: &Option<String>, b: &Option<String>) -> (r: bool)
    ensures
        r == same_optional(*a, *b),
{
    match (a, b) {
        (Some(x), Some(y)) => x.eq(y),
        (None, None) => true,
        _ => false,
    }
}

/// The relay's answer to a handshake request, `req` being `None` where no
/// text message holding a request was read.
pub fn check_handshake(
    req: &Option<HandshakeRequest>,
    url: &Option<String>,
    credential: &Option<String>,
) -> (resp: HandshakeResponse)
    ensures
        resp.status == handshake_status(*req, *url, *credential),
        match resp.error {
            Some(e) => handshake_error(resp.status) == Some(e@),
            None => handshake_error(resp.status) is None,
        },
{
    match req {
        None => HandshakeResponse { status: 400, error: Some(string_from("Invalid Handshake")) },
        Some(r) => {
            if let Some(u) = url {
                if !starts_with(r.path.as_str(), u.as_str()) {
                    return HandshakeResponse {
                        status: 404,
                        error: Some(string_from("Invalid Path")),
                    };
                }
            }
            if credential.is_some() && !optional_eq(&r.auth, credential) {
                return HandshakeResponse { status: 401, error: Some(string_from("Unauthorized")) };
            }
            HandshakeResponse { status: 200, error: None }
        },
    }
}

/// The request a target sends: the path of the relay URL, the credential
/// if one was given, and the protocol version.
pub fn handshake_request(path: &str, credential: &Option<String>) -> (req: HandshakeRequest)
    ensures
        req.path@ == path@,
        same_optional(req.auth, *credential),
        req.version@ == protocol_version(),
{
    let auth = match credential {
        Some(c) => Some(string_from(c.as_str())),
        None => None,
    };
    HandshakeRequest { path: string_from(path), auth, version: string_from("1.0") }
}

/// How a target's handshake went.
pub enum HandshakeOutcome {
    /// The relay answered 200.
    Accepted,
    /// The relay answered another status.
    Rejected,
    /// The relay answered with text that is not a response.
    Malformed,
    /// No text answer was read.
    NoReply,
}

/// The outcome of a target's handshake, from whether a text answer was
/// read and what it parsed to.
pub fn handshake_outcome(text_reply: bool, parsed: &Option<HandshakeResponse>) -> (o:
    HandshakeOutcome)
    ensures
        !text_reply ==> o is NoReply,
        text_reply && parsed is None ==> o is Malformed,
        text_reply && parsed is Some ==> (o is Accepted <==> parsed->0.status == 200),
        text_reply && parsed is Some ==> (o is Rejected <==> parsed->0.status != 200),
{
    if !text_reply {
        HandshakeOutcome::NoReply
    } else {
        match parsed {
            None => HandshakeOutcome::Malformed,
            Some(r) => if r.status == 200 {
                HandshakeOutcome::Accepted
            } else {
                HandshakeOutcome::Rejected
            },
        }
    }
}

/// Whether the target waits out its retry interval before trying again
/// after this outcome; it retries at once after a malformed answer.
pub fn waits_before_retry(o: &HandshakeOutcome) -> (w: bool)
    ensures
        w == (*o is Rejected || *o is NoReply),
{
    match o {
        HandshakeOutcome::Rejected => true,
        HandshakeOutcome::NoReply => true,
        _ => false,
    }
}

/// A request that a target builds passes the relay's check when the
/// relay's path is a prefix of the request's path and the relay's
/// credential, if any, is the one the target sent.
pub proof fn lemma_own_request_accepted(
    path: Seq<char>,
    req: HandshakeRequest,
    url: Option<String>,
    credential: Option<String>,
)
    requires
        req.path@ == path,
        url is Some ==> has_prefix(path, url->0@),
        credential is Some ==> same_optional(req.auth, credential),
    ensures
        handshake_status(Some(req), url, credential) == 200,
        handshake_error(200) is None,
{
}

} // verus!
