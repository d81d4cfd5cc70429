use sharetty::auth::{authorization_for, authorize, challenge, unauthorized_body};
use sharetty::ids::{
    alphanumeric_char, lower_alphanumeric_char, random_url_path, request_id, session_id, viewer_id,
};

#[test]
fn basic_header_value() {
    assert_eq!(authorization_for("user:pass"), "Basic dXNlcjpwYXNz");
    assert_eq!(authorization_for("admin:secret"), "Basic YWRtaW46c2VjcmV0");
}

#[test]
fn authorization_decisions() {
    let cred = Some("user:pass".to_string());
    assert!(authorize(&None, &None));
    assert!(authorize(&None, &Some("anything".to_string())));
    assert!(authorize(&cred, &Some("Basic dXNlcjpwYXNz".to_string())));
    assert!(!authorize(&cred, &Some("Basic dXNlcjpwYXN".to_string())));
    assert!(!authorize(&cred, &None));
    assert_eq!(challenge(), "Basic realm=\"sharetty\"");
    assert_eq!(unauthorized_body(), "Unauthorized");
}

#[test]
fn alphabets() {
    assert_eq!(lower_alphanumeric_char(0), 'a');
    assert_eq!(lower_alphanumeric_char(25), 'z');
    assert_eq!(lower_alphanumeric_char(26), '0');
    assert_eq!(lower_alphanumeric_char(35), '9');
    assert_eq!(alphanumeric_char(0), 'A');
    assert_eq!(alphanumeric_char(26), 'a');
    assert_eq!(alphanumeric_char(52), '0');
    assert_eq!(alphanumeric_char(61), '9');
}

#[test]
fn session_ids() {
    assert_eq!(session_id(Some("mysession".to_string())), "mysession");
    let id = session_id(None);
    assert_eq!(id.len(), 8);
    assert!(id.chars().all(|c| c.is_ascii_lowercase() || c.is_ascii_digit()));
}

#[test]
fn request_and_viewer_ids() {
    let r = request_id();
    assert_eq!(r.len(), 16);
    assert!(r.chars().all(|c| c.is_ascii_lowercase() || c.is_ascii_digit()));
    let v = viewer_id();
    assert_eq!(v.len(), 8);
    assert!(v.chars().all(|c| c.is_ascii_alphanumeric()));
}

#[test]
fn random_paths() {
    let p = random_url_path(8);
    assert_eq!(p.len(), 9);
    assert!(p.starts_with('/'));
    assert!(p[1..].chars().all(|c| c.is_ascii_alphanumeric()));
    assert_eq!(random_url_path(0), "/");
}

#[test]
fn authorization_padding() {
    assert_eq!(authorization_for("a"), "Basic YQ==");
    assert_eq!(authorization_for("ab"), "Basic YWI=");
    assert_eq!(authorization_for(""), "Basic ");
}
