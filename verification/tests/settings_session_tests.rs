use sharetty::frame::Message;
use sharetty::proxy::{
    body_chunk, forwardable_headers, forwarded_to_viewers, is_direct_protocol, request_method,
};
use sharetty::read_buffer::ReadBuffer;
use sharetty::relay_url::{endpoint_url, quic_target, relay_url};
use sharetty::session::{
    control_action, data_action, download_request_uri, failure_response, metadata_step,
    quic_control_action, registration_step, response_status, upload_request_uri, viewer_action,
    ClientMessage, ConnectionGate, ControlAction, MetaStep, ProxyFailure, PtyAction, Register,
    RegistrationStep, ServerMessage, TunnelRead,
};
use sharetty::settings::{
    alpn_protocols, command_line, directory_path, is_broadcast, listen_on_ipv6_any, log_level, mount_points,
    quic_port, self_signed_names, serve_path, session_mode, target_command, tls_source,
    websocket_scheme, TlsSource,
};

#[test]
fn serve_paths() {
    let sp = serve_path(&Some("relay".to_string()), false, 8);
    assert_eq!(sp.prefix, "/relay");
    assert_eq!(sp.url.as_deref(), Some("/relay"));
    let sp = serve_path(&Some("/relay".to_string()), true, 8);
    assert_eq!(sp.prefix, "/relay");
    let sp = serve_path(&None, true, 5);
    assert_eq!(sp.prefix.len(), 6);
    assert_eq!(sp.url.as_deref(), Some(sp.prefix.as_str()));
    let sp = serve_path(&None, false, 8);
    assert_eq!(sp.prefix, "/");
    assert!(sp.url.is_none());
}

#[test]
fn mounting() {
    assert!(mount_points("/").is_none());
    let m = mount_points("/relay/").unwrap();
    assert_eq!(m.redirect_from, "/relay");
    assert_eq!(m.nest_at, "/relay/");
    let m = mount_points("/relay").unwrap();
    assert_eq!(m.redirect_from, "/relay");
    assert_eq!(m.nest_at, "/relay/");
}

#[test]
fn listening_and_tls() {
    assert!(listen_on_ipv6_any(true, true));
    assert!(!listen_on_ipv6_any(true, false));
    assert!(!listen_on_ipv6_any(false, true));
    assert!(matches!(tls_source(true, true, false, false, false), TlsSource::Files));
    assert!(matches!(tls_source(true, false, false, false, true), TlsSource::SelfSigned));
    assert!(matches!(tls_source(false, false, true, false, false), TlsSource::SelfSigned));
    assert!(matches!(tls_source(false, true, false, false, false), TlsSource::Plain));
    assert_eq!(self_signed_names(), vec!["localhost", "127.0.0.1", "::1"]);
}

#[test]
fn alpn_order() {
    let all = alpn_protocols(true, true, true);
    assert_eq!(all, vec![b"h3".to_vec(), b"h2".to_vec(), b"http/1.1".to_vec(), b"sharetty".to_vec()]);
    let h1 = alpn_protocols(true, false, false);
    assert_eq!(h1, vec![b"http/1.1".to_vec(), b"sharetty".to_vec()]);
}

#[test]
fn small_settings() {
    assert_eq!(log_level(0), "info");
    assert_eq!(log_level(1), "debug");
    assert_eq!(log_level(5), "trace");
    assert_eq!(session_mode(true), "independent");
    assert_eq!(session_mode(false), "broadcast");
    assert!(is_broadcast("broadcast"));
    assert!(!is_broadcast("independent"));
    assert_eq!(websocket_scheme("https").as_deref(), Some("wss"));
    assert_eq!(websocket_scheme("http").as_deref(), Some("ws"));
    assert_eq!(websocket_scheme("ws"), None);
    assert_eq!(directory_path("/relay"), "/relay/");
    assert_eq!(directory_path("/relay/"), "/relay/");
    assert_eq!(quic_port(None), 443);
    assert_eq!(quic_port(Some(3019)), 3019);
    assert_eq!(target_command(""), "bash");
    assert_eq!(target_command("zsh"), "zsh");
}

#[test]
fn relay_urls() {
    assert_eq!(relay_url("http://localhost:3009/relay").as_deref(), Some("ws://localhost:3009/relay"));
    assert_eq!(relay_url("https://example.com/r").as_deref(), Some("wss://example.com/r"));
    assert_eq!(relay_url("not a url"), None);
    let base = "ws://localhost:3009/relay";
    assert_eq!(
        endpoint_url(base, "_sharetty/control", &vec![]).as_deref(),
        Some("ws://localhost:3009/relay/_sharetty/control")
    );
    assert_eq!(
        endpoint_url(
            base,
            "_sharetty/data",
            &vec![("session_id".to_string(), "abc".to_string()), ("viewer_id".to_string(), "x y".to_string())]
        )
        .as_deref(),
        Some("ws://localhost:3009/relay/_sharetty/data?session_id=abc&viewer_id=x+y")
    );
    let t = quic_target("https://127.0.0.1:3019/sharetty").unwrap();
    assert_eq!(t.host.as_deref(), Some("127.0.0.1"));
    assert_eq!(t.port, 3019);
    assert_eq!(t.path, "/sharetty");
    let t = quic_target("https://example.com/x").unwrap();
    assert_eq!(t.port, 443);
}

fn written(a: PtyAction) -> Option<Vec<u8>> {
    match a {
        PtyAction::Write(b) => Some(b),
        _ => None,
    }
}

#[test]
fn viewer_messages() {
    let input = Some(ClientMessage::Input { data: "ls\n".to_string() });
    assert_eq!(written(viewer_action(Message::Text("{}".to_string()), input, true)), Some(b"ls\n".to_vec()));
    let input = Some(ClientMessage::Input { data: "ls\n".to_string() });
    assert!(matches!(viewer_action(Message::Text("{}".to_string()), input, false), PtyAction::Ignore));
    let resize = Some(ClientMessage::Resize { rows: 24, cols: 80 });
    assert!(matches!(
        viewer_action(Message::Text("{}".to_string()), resize, false),
        PtyAction::Resize { rows: 24, cols: 80 }
    ));
    assert_eq!(written(viewer_action(Message::Text("raw".to_string()), None, true)), Some(b"raw".to_vec()));
    assert!(matches!(viewer_action(Message::Binary(vec![1]), None, false), PtyAction::Ignore));
    assert_eq!(written(viewer_action(Message::Binary(vec![1]), None, true)), Some(vec![1]));
    assert!(matches!(viewer_action(Message::Close, None, true), PtyAction::Stop));
    assert!(matches!(viewer_action(Message::Ping(vec![]), None, true), PtyAction::Ignore));
}

#[test]
fn target_data_messages() {
    assert!(matches!(data_action(Message::Binary(vec![7]), None, false), PtyAction::Ignore));
    assert_eq!(written(data_action(Message::Binary(vec![7]), None, true)), Some(vec![7]));
    let input = Some(ClientMessage::Input { data: "x".to_string() });
    assert!(matches!(data_action(Message::Text("{}".to_string()), input, false), PtyAction::Ignore));
    assert_eq!(written(data_action(Message::Text("raw".to_string()), None, true)), Some(b"raw".to_vec()));
    assert!(matches!(data_action(Message::Close, None, true), PtyAction::Ignore));
}

#[test]
fn once_gate() {
    let mut g = ConnectionGate::new(true);
    assert!(g.accept_connection());
    assert!(!g.accept_connection());
    assert!(!g.accept_connection());
    let mut g = ConnectionGate::new(false);
    assert!(g.accept_connection());
    assert!(g.accept_connection());
    assert_eq!(g.count, 0);
}

#[test]
fn metadata_wait() {
    assert!(matches!(metadata_step(TunnelRead::Received(Message::Text("{}".to_string()))), MetaStep::Metadata(m) if m == "{}"));
    assert!(matches!(metadata_step(TunnelRead::Received(Message::Ping(vec![]))), MetaStep::Wait));
    assert!(matches!(metadata_step(TunnelRead::Received(Message::Binary(vec![]))), MetaStep::Fail { status: 502, body } if body == "Unexpected message before metadata"));
    assert!(matches!(metadata_step(TunnelRead::Failed), MetaStep::Fail { status: 502, body } if body == "Tunnel error"));
    assert!(matches!(metadata_step(TunnelRead::Closed), MetaStep::Fail { status: 502, body } if body == "Stream closed before metadata"));
}

#[test]
fn statuses() {
    assert_eq!(response_status(200), 200);
    assert_eq!(response_status(99), 500);
    assert_eq!(response_status(1000), 500);
    assert_eq!(response_status(999), 999);
    assert_eq!(failure_response(&ProxyFailure::NoSession), (404, "Session not found".to_string()));
    assert_eq!(failure_response(&ProxyFailure::TargetUnreachable), (502, "Failed to contact target".to_string()));
    assert_eq!(failure_response(&ProxyFailure::TargetTimedOut), (504, "Target timed out".to_string()));
    assert_eq!(failure_response(&ProxyFailure::InvalidMetadata), (502, "Invalid response from target".to_string()));
    assert_eq!(download_request_uri("a/b.txt"), "/download/a/b.txt");
    assert_eq!(upload_request_uri(), "/upload");
}

#[test]
fn control_messages() {
    let a = control_action(ServerMessage::Registered { id: "s1".to_string() }, false, false);
    assert!(matches!(a, ControlAction::Registered { id, open_data: true } if id == "s1"));
    let a = control_action(ServerMessage::Registered { id: "s1".to_string() }, false, true);
    assert!(matches!(a, ControlAction::Registered { open_data: false, .. }));
    let a = control_action(ServerMessage::Error { message: "no".to_string() }, false, true);
    assert!(matches!(a, ControlAction::Refused { message } if message == "no"));
    let a = control_action(ServerMessage::Spawn { viewer_id: "v".to_string() }, true, true);
    assert!(matches!(a, ControlAction::OpenData { viewer_id } if viewer_id == "v"));
    let a = control_action(ServerMessage::Spawn { viewer_id: "v".to_string() }, true, false);
    assert!(matches!(a, ControlAction::Ignore));
    let a = quic_control_action(ServerMessage::Spawn { viewer_id: "v".to_string() }, true, true);
    assert!(matches!(a, ControlAction::OpenData { viewer_id } if viewer_id == "v"));
    let a = quic_control_action(ServerMessage::Spawn { viewer_id: "v".to_string() }, true, false);
    assert!(matches!(a, ControlAction::Ignore));
    let a = quic_control_action(ServerMessage::Registered { id: "q".to_string() }, false, false);
    assert!(matches!(a, ControlAction::Registered { id, open_data: true } if id == "q"));
    let a = quic_control_action(ServerMessage::Registered { id: "q".to_string() }, false, true);
    assert!(matches!(a, ControlAction::Registered { open_data: false, .. }));
    let a = quic_control_action(ServerMessage::Error { message: "x".to_string() }, false, false);
    assert!(matches!(a, ControlAction::Ignore));
    let pr = ServerMessage::ProxyRequest { req_id: "r".to_string(), method: "GET".to_string(), uri: "/upload".to_string(), headers: vec![] };
    assert!(matches!(quic_control_action(pr, true, false), ControlAction::Proxy { req_id, .. } if req_id == "r"));
}

#[test]
fn registration() {
    let reg = Some(Register { id: None, mode: "broadcast".to_string() });
    assert!(matches!(registration_step(TunnelRead::Received(Message::Text("{}".to_string())), reg), RegistrationStep::Register(_)));
    assert!(matches!(registration_step(TunnelRead::Received(Message::Text("x".to_string())), None), RegistrationStep::Wait));
    assert!(matches!(registration_step(TunnelRead::Received(Message::Pong(vec![])), None), RegistrationStep::Wait));
    assert!(matches!(registration_step(TunnelRead::Closed, None), RegistrationStep::End));
}

#[test]
fn proxy_filters() {
    assert_eq!(request_method("POST"), "POST");
    assert_eq!(request_method("BAD METHOD"), "GET");
    assert_eq!(request_method(""), "GET");
    assert_eq!(request_method("purge"), "purge");
    assert_eq!(request_method("M-SEARCH"), "M-SEARCH");
    assert_eq!(request_method("GET(1)"), "GET");
    assert_eq!(request_method("VERYLONGEXTENSIONMETHOD"), "VERYLONGEXTENSIONMETHOD");
    let kept = forwardable_headers(&vec![
        ("content-type".to_string(), "text/plain".to_string()),
        ("bad header".to_string(), "x".to_string()),
        ("x-ok".to_string(), "line\nbreak".to_string()),
        ("x-tab".to_string(), "a\tb".to_string()),
        ("X-Upper".to_string(), "v".to_string()),
        ("x:colon".to_string(), "v".to_string()),
    ]);
    assert_eq!(kept, vec![("content-type".to_string(), "text/plain".to_string()), ("x-tab".to_string(), "a\tb".to_string()), ("X-Upper".to_string(), "v".to_string())]);
    assert_eq!(body_chunk(Message::Binary(vec![1, 2])), Some(vec![1, 2]));
    assert_eq!(body_chunk(Message::Text("x".to_string())), None);
    assert!(forwarded_to_viewers(&Message::Binary(vec![])));
    assert!(!forwarded_to_viewers(&Message::Text("t".to_string())));
    assert!(is_direct_protocol(b"sharetty"));
    assert!(!is_direct_protocol(b"h3"));
}

#[test]
fn read_buffer_keeps_rest() {
    let mut b = ReadBuffer::new();
    let out = b.read_chunk(vec![1, 2, 3, 4, 5], 2);
    assert_eq!(out, vec![1, 2]);
    assert!(b.has_pending());
    assert_eq!(b.read_pending(2), vec![3, 4]);
    assert_eq!(b.read_pending(10), vec![5]);
    assert!(!b.has_pending());
    assert_eq!(b.read_chunk(vec![9], 4096), vec![9]);
    assert!(!b.has_pending());
}

#[test]
fn windows_command_line() {
    assert_eq!(command_line("cmd.exe", &[]), "cmd.exe");
    assert_eq!(command_line("bash", &["-c".to_string(), "ls".to_string()]), "bash -c ls");
}

#[test]
fn reads_return_chunks_in_order() {
    let chunks: Vec<Vec<u8>> = vec![vec![1, 2, 3, 4, 5], vec![6], vec![7, 8, 9]];
    let rooms = [2usize, 1, 4, 3, 3, 3, 3];
    let mut b = ReadBuffer::new();
    let mut next = chunks.into_iter();
    let mut all: Vec<u8> = Vec::new();
    for room in rooms {
        let out = if b.has_pending() {
            b.read_pending(room)
        } else {
            match next.next() {
                Some(c) => b.read_chunk(c, room),
                None => Vec::new(),
            }
        };
        assert!(out.len() <= room);
        all.extend(out);
    }
    assert_eq!(all, vec![1, 2, 3, 4, 5, 6, 7, 8, 9]);
    assert!(!b.has_pending());
}
