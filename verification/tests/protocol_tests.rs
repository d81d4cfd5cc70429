use sharetty::protocol::{
    alpn_sharetty, check_handshake, handshake_outcome, handshake_request, waits_before_retry,
    HandshakeOutcome, HandshakeRequest, HandshakeResponse,
};
use sharetty::settings::serve_path;

fn req(path: &str, auth: Option<&str>) -> Option<HandshakeRequest> {
    Some(HandshakeRequest {
        path: path.to_string(),
        auth: auth.map(|a| a.to_string()),
        version: "1.0".to_string(),
    })
}

#[test]
fn missing_request_is_bad_request() {
    let r = check_handshake(&None, &None, &None);
    assert_eq!(r.status, 400);
    assert_eq!(r.error.as_deref(), Some("Invalid Handshake"));
}

#[test]
fn path_outside_prefix_is_not_found() {
    let r = check_handshake(&req("/other", None), &Some("/sharetty".to_string()), &None);
    assert_eq!(r.status, 404);
    assert_eq!(r.error.as_deref(), Some("Invalid Path"));
    let ok = check_handshake(&req("/sharetty/x", None), &Some("/sharetty".to_string()), &None);
    assert_eq!(ok.status, 200);
    assert!(ok.error.is_none());
}

#[test]
fn wrong_credential_is_unauthorized() {
    let cred = Some("user:pass".to_string());
    let r = check_handshake(&req("/", Some("user:nope")), &None, &cred);
    assert_eq!(r.status, 401);
    assert_eq!(r.error.as_deref(), Some("Unauthorized"));
    let r = check_handshake(&req("/", None), &None, &cred);
    assert_eq!(r.status, 401);
    let r = check_handshake(&req("/", Some("user:pass")), &None, &cred);
    assert_eq!(r.status, 200);
}

#[test]
fn path_is_checked_before_credential() {
    let r = check_handshake(
        &req("/x", None),
        &Some("/sharetty".to_string()),
        &Some("a:b".to_string()),
    );
    assert_eq!(r.status, 404);
}

#[test]
fn own_request_passes_check() {
    let r = handshake_request("/sharetty", &Some("a:b".to_string()));
    assert_eq!(r.path, "/sharetty");
    assert_eq!(r.auth.as_deref(), Some("a:b"));
    assert_eq!(r.version, "1.0");
    let resp = check_handshake(&Some(r), &Some("/sharetty".to_string()), &Some("a:b".to_string()));
    assert_eq!(resp.status, 200);
}

#[test]
fn client_outcomes() {
    let ok = Some(HandshakeResponse { status: 200, error: None });
    let no = Some(HandshakeResponse { status: 401, error: Some("Unauthorized".to_string()) });
    assert!(matches!(handshake_outcome(true, &ok), HandshakeOutcome::Accepted));
    assert!(matches!(handshake_outcome(true, &no), HandshakeOutcome::Rejected));
    assert!(matches!(handshake_outcome(true, &None), HandshakeOutcome::Malformed));
    assert!(matches!(handshake_outcome(false, &ok), HandshakeOutcome::NoReply));
    assert!(waits_before_retry(&HandshakeOutcome::Rejected));
    assert!(waits_before_retry(&HandshakeOutcome::NoReply));
    assert!(!waits_before_retry(&HandshakeOutcome::Malformed));
}

#[test]
fn alpn_identifier() {
    assert_eq!(alpn_sharetty(), b"sharetty".to_vec());
}

#[test]
fn url_without_slash_accepts_served_path() {
    let sp = serve_path(&Some("sharetty".to_string()), false, 8);
    assert_eq!(check_handshake(&req("/sharetty", None), &sp.url, &None).status, 200);
    assert_eq!(check_handshake(&req("/other", None), &sp.url, &None).status, 404);
}
