//! What each side does with the messages of its connections: viewer input
//! to the terminal, the relay's control messages to a target, the
//! `--once` limit, and the relay's handling of proxied requests.
use vstd::prelude::*;
use vstd::utf8::encode_utf8;
use crate::frame::{Message, MessageView};
use crate::text::string_from;

verus! {

/// A message a viewer sends as JSON text.
pub enum ClientMessage {
    Input { data: String },
    Resize { rows: u16, cols: u16 },
}

/// What is done to the terminal for a viewer's message.
pub enum PtyAction {
    /// Write these bytes to the terminal.
    Write(Vec<u8>),
    /// Resize the terminal.
    Resize { rows: u16, cols: u16 },
    /// Nothing.
    Ignore,
    /// The viewer left: stop reading.
    Stop,
}

pub enum PtyActionView {
    Write(Seq<u8>),
    Resize { rows: u16, cols: u16 },
    Ignore,
    Stop,
}

impl View for PtyAction {
    type V = PtyActionView;

    open spec fn view(&self) -> PtyActionView {
        match self {
            PtyAction::Write(b) => PtyActionView::Write(b@),
            PtyAction::Resize { rows, cols } => PtyActionView::Resize { rows: *rows, cols: *cols },
            PtyAction::Ignore => PtyActionView::Ignore,
            PtyAction::Stop => PtyActionView::Stop,
        }
    }
}

/// What the local server does with a viewer's message, `parsed` being what
/// a text message parses to as a [`ClientMessage`]. Input and raw text are
/// written only when writing is permitted; binary data likewise; a resize
/// always applies; a close ends the session.
pub open spec fn viewer_action_spec(
    msg: MessageView,
    parsed: Option<ClientMessage>,
    permit_write: bool,
) -> PtyActionView {
    match msg {
        MessageView::Text(text) => match parsed {
            Some(ClientMessage::Input { data }) => if permit_write {
                PtyActionView::Write(encode_utf8(data@))
            } else {
                PtyActionView::Ignore
            },
            Some(ClientMessage::Resize { rows, cols }) => PtyActionView::Resize { rows, cols },
            None => if permit_write {
                PtyActionView::Write(encode_utf8(text))
            } else {
                PtyActionView::Ignore
            },
        },
        MessageView::Binary(data) => if permit_write {
            PtyActionView::Write(data)
        } else {
            PtyActionView::Ignore
        },
        MessageView::Close => PtyActionView::Stop,
        _ => PtyActionView::Ignore,
    }
}

fn bytes_of_str(s: &str) -> (v: Vec<u8>)
    ensures
        v@ == encode_utf8(s@),
{
    let b = s.as_bytes();
    let mut v: Vec<u8> = Vec::new();
    let mut i: usize = 0;
    while i < b.len()
        invariant
            i <= b@.len(),
            v@ == b@.take(i as int),
        decreases b@.len() - i,
    {
        v.push(b[i]);
        assert(b@.take(i + 1) == b@.take(i as int).push(b@[i as int]));
        i = i + 1;
    }
    assert(b@.take(b@.len() as int) == b@);
    v
}

/// What the local server does with a viewer's message.
pub fn viewer_action(msg: Message, parsed: Option<ClientMessage>, permit_write: bool) -> (a:
    PtyAction)
    ensures
        a@ == viewer_action_spec(msg@, parsed, permit_write),
{
    match msg {
        Message::Text(text) => match parsed {
            Some(ClientMessage::Input { data }) => if permit_write {
                PtyAction::Write(bytes_of_str(data.as_str()))
            } else {
                PtyAction::Ignore
            },
            Some(ClientMessage::Resize { rows, cols }) => PtyAction::Resize { rows, cols },
            None => if permit_write {
                PtyAction::Write(bytes_of_str(text.as_str()))
            } else {
                PtyAction::Ignore
            },
        },
        Message::Binary(data) => if permit_write {
            PtyAction::Write(data)
        } else {
            PtyAction::Ignore
        },
        Message::Close => PtyAction::Stop,
        _ => PtyAction::Ignore,
    }
}

/// What a target does with a message on its data connection to the relay:
/// a resize always applies; binary data, input and raw text are written
/// only when writing is permitted, as for a viewer of the local server.
pub open spec fn data_action_spec(
    msg: MessageView,
    parsed: Option<ClientMessage>,
    permit_write: bool,
) -> PtyActionView {
    match msg {
        MessageView::Binary(data) => if permit_write {
            PtyActionView::Write(data)
        } else {
            PtyActionView::Ignore
        },
        MessageView::Text(text) => match parsed {
            Some(ClientMessage::Resize { rows, cols }) => PtyActionView::Resize { rows, cols },
            Some(ClientMessage::Input { data }) => if permit_write {
                PtyActionView::Write(encode_utf8(data@))
            } else {
                PtyActionView::Ignore
            },
            None => if permit_write {
                PtyActionView::Write(encode_utf8(text))
            } else {
                PtyActionView::Ignore
            },
        },
        _ => PtyActionView::Ignore,
    }
}

/// What a target does with a message on its data connection.
pub fn data_action(msg: Message, parsed: Option<ClientMessage>, permit_write: bool) -> (a:
    PtyAction)
    ensures
        a@ == data_action_spec(msg@, parsed, permit_write),
{
    match msg {
        Message::Binary(data) => if permit_write {
            PtyAction::Write(data)
        } else {
            PtyAction::Ignore
        },
        Message::Text(text) => match parsed {
            Some(ClientMessage::Resize { rows, cols }) => PtyAction::Resize { rows, cols },
            Some(ClientMessage::Input { data }) => if permit_write {
                PtyAction::Write(bytes_of_str(data.as_str()))
            } else {
                PtyAction::Ignore
            },
            None => if permit_write {
                PtyAction::Write(bytes_of_str(text.as_str()))
            } else {
                PtyAction::Ignore
            },
        },
        _ => PtyAction::Ignore,
    }
}

/// A read-only session never writes to the terminal, whatever a viewer
/// sends.
pub proof fn lemma_read_only_viewer(msg: MessageView, parsed: Option<ClientMessage>)
    ensures
        !(viewer_action_spec(msg, parsed, false) is Write),
{
}

/// A target whose writing is not permitted never writes to its terminal,
/// whatever the relay passes on.
pub proof fn lemma_read_only_target(msg: MessageView, parsed: Option<ClientMessage>)
    ensures
        !(data_action_spec(msg, parsed, false) is Write),
{
}

/// What a viewer's message does on the local server: a parsed resize
/// resizes the terminal to the size it carries, whatever the write
/// permission; with writing permitted, parsed input writes exactly the
/// UTF-8 bytes of the data it carries (not the text around it), unparsed
/// text writes its own bytes and binary data writes itself; a close stops.
pub proof fn lemma_viewer_action_meaning(
    text: Seq<char>,
    data: String,
    rows: u16,
    cols: u16,
    bytes: Seq<u8>,
    parsed: Option<ClientMessage>,
    permit_write: bool,
)
    ensures
        viewer_action_spec(
            MessageView::Text(text),
            Some(ClientMessage::Resize { rows, cols }),
            permit_write,
        ) == (PtyActionView::Resize { rows, cols }),
        viewer_action_spec(MessageView::Text(text), Some(ClientMessage::Input { data }), true)
            == PtyActionView::Write(encode_utf8(data@)),
        viewer_action_spec(MessageView::Text(text), None, true) == PtyActionView::Write(
            encode_utf8(text),
        ),
        viewer_action_spec(MessageView::Binary(bytes), parsed, true) == PtyActionView::Write(bytes),
        viewer_action_spec(MessageView::Close, parsed, permit_write) == PtyActionView::Stop,
{
}

/// The write permission changes nothing but writes: without it, a message
/// that would write does nothing, and every other message does what it
/// does with the permission.
pub proof fn lemma_viewer_permission_gates_only_writes(
    msg: MessageView,
    parsed: Option<ClientMessage>,
)
    ensures
        viewer_action_spec(msg, parsed, false) == if viewer_action_spec(msg, parsed, true) is Write {
            PtyActionView::Ignore
        } else {
            viewer_action_spec(msg, parsed, true)
        },
{
}

/// What a message on a target's data connection does: a parsed resize
/// resizes the terminal to the size it carries, whatever the write
/// permission; with writing permitted, parsed input writes exactly the
/// UTF-8 bytes of the data it carries (not the text around it), unparsed
/// text writes its own bytes and binary data writes itself; anything else
/// does nothing.
pub proof fn lemma_data_action_meaning(
    text: Seq<char>,
    data: String,
    rows: u16,
    cols: u16,
    bytes: Seq<u8>,
    parsed: Option<ClientMessage>,
    permit_write: bool,
)
    ensures
        data_action_spec(
            MessageView::Text(text),
            Some(ClientMessage::Resize { rows, cols }),
            permit_write,
        ) == (PtyActionView::Resize { rows, cols }),
        data_action_spec(MessageView::Text(text), Some(ClientMessage::Input { data }), true)
            == PtyActionView::Write(encode_utf8(data@)),
        data_action_spec(MessageView::Text(text), None, true) == PtyActionView::Write(
            encode_utf8(text),
        ),
        data_action_spec(MessageView::Binary(bytes), parsed, true) == PtyActionView::Write(bytes),
        data_action_spec(MessageView::Close, parsed, permit_write) == PtyActionView::Ignore,
        data_action_spec(MessageView::Ping(bytes), parsed, permit_write) == PtyActionView::Ignore,
        data_action_spec(MessageView::Pong(bytes), parsed, permit_write) == PtyActionView::Ignore,
{
}

/// On a target's data connection too, the write permission changes nothing
/// but writes.
pub proof fn lemma_data_permission_gates_only_writes(msg: MessageView, parsed: Option<ClientMessage>)
    ensures
        data_action_spec(msg, parsed, false) == if data_action_spec(msg, parsed, true) is Write {
            PtyActionView::Ignore
        } else {
            data_action_spec(msg, parsed, true)
        },
{
}

/// The count of viewer connections under `--once`, and the decision to
/// admit one more.
pub struct ConnectionGate {
    pub once: bool,
    pub count: usize,
}

/// Whether a connection is served, and the count after it, for a gate with
/// the given setting and count.
pub open spec fn gate_step(once: bool, count: usize) -> (bool, usize) {
    if !once {
        (true, count)
    } else {
        (count == 0, if count == usize::MAX {
            0
        } else {
            (count + 1) as usize
        })
    }
}

/// Which of `n` connections in a row are served, from the given count.
pub open spec fn gate_run(once: bool, count: usize, n: nat) -> Seq<bool>
    decreases n,
{
    if n == 0 {
        Seq::empty()
    } else {
        let (ok, next) = gate_step(once, count);
        seq![ok] + gate_run(once, next, (n - 1) as nat)
    }
}

impl ConnectionGate {
    /// A gate that has admitted no one.
    pub fn new(once: bool) -> (g: ConnectionGate)
        ensures
            g.once == once,
            g.count == 0,
    {
        ConnectionGate { once, count: 0 }
    }

    /// Whether a new viewer connection is served. Without `--once` every
    /// connection is, and nothing is counted. With it, the count goes up by
    /// one (wrapping, as an atomic counter does) and the connection is
    /// served only when none was counted before.
    pub fn accept_connection(&mut self) -> (ok: bool)
        ensures
            final(self).once == old(self).once,
            (ok, final(self).count) == gate_step(old(self).once, old(self).count),
    {
        if !self.once {
            return true;
        }
        let previous = self.count;
        self.count = if previous == usize::MAX {
            0
        } else {
            previous + 1
        };
        previous < 1
    }
}

/// Under `--once`, of the connections that come to a fresh gate (fewer than
/// the counter can count) only the first is served; without it, all are.
pub proof fn lemma_once_serves_first_only(n: nat)
    requires
        n <= usize::MAX,
    ensures
        forall|i: int| 0 <= i < n ==> #[trigger] gate_run(true, 0, n)[i] == (i == 0),
        forall|i: int| 0 <= i < n ==> #[trigger] gate_run(false, 0, n)[i],
{
    if n > 0 {
        lemma_once_refuses_after_first((n - 1) as nat, 1);
        lemma_open_serves_all((n - 1) as nat, 0);
        assert forall|i: int| 0 <= i < n implies #[trigger] gate_run(true, 0, n)[i] == (i == 0) by {
            if i > 0 {
                assert(gate_run(true, 0, n)[i] == gate_run(true, 1, (n - 1) as nat)[i - 1]);
            }
        }
        assert forall|i: int| 0 <= i < n implies #[trigger] gate_run(false, 0, n)[i] by {
            if i > 0 {
                assert(gate_run(false, 0, n)[i] == gate_run(false, 0, (n - 1) as nat)[i - 1]);
            }
        }
    }
}

proof fn lemma_once_refuses_after_first(n: nat, count: usize)
    requires
        count >= 1,
        count + n <= usize::MAX,
    ensures
        gate_run(true, count, n).len() == n,
        forall|i: int| 0 <= i < n ==> !#[trigger] gate_run(true, count, n)[i],
    decreases n,
{
    if n > 0 {
        lemma_once_refuses_after_first((n - 1) as nat, (count + 1) as usize);
        assert forall|i: int| 0 <= i < n implies !#[trigger] gate_run(true, count, n)[i] by {
            if i > 0 {
                assert(gate_run(true, count, n)[i] == gate_run(true, (count + 1) as usize, (n
                    - 1) as nat)[i - 1]);
            }
        }
    }
}

proof fn lemma_open_serves_all(n: nat, count: usize)
    ensures
        gate_run(false, count, n).len() == n,
        forall|i: int| 0 <= i < n ==> #[trigger] gate_run(false, count, n)[i],
    decreases n,
{
    if n > 0 {
        lemma_open_serves_all((n - 1) as nat, count);
        assert forall|i: int| 0 <= i < n implies #[trigger] gate_run(false, count, n)[i] by {
            if i > 0 {
                assert(gate_run(false, count, n)[i] == gate_run(false, count, (n - 1) as nat)[i
                    - 1]);
            }
        }
    }
}

/// What a relay reads from a tunnel while it waits for a response's
/// metadata.
pub enum TunnelRead {
    Received(Message),
    Failed,
    Closed,
}

/// The next step of waiting for a response's metadata.
pub enum MetaStep {
    /// The metadata, as JSON text.
    Metadata(String),
    /// A ping or pong: keep waiting.
    Wait,
    /// Answer the viewer with this status and body.
    Fail { status: u16, body: String },
}

/// Whether a step fails with this status and body.
pub open spec fn fails_with(step: MetaStep, status: u16, body: Seq<char>) -> bool {
    match step {
        MetaStep::Fail { status: s, body: b } => s == status && b@ == body,
        _ => false,
    }
}

/// The next step of waiting for metadata: the first text message is the
/// metadata; pings and pongs are passed over; an error, the end of the
/// stream or any other message fails with 502.
pub fn metadata_step(read: TunnelRead) -> (step: MetaStep)
    ensures
        read matches TunnelRead::Received(Message::Text(t)) ==> (step matches MetaStep::Metadata(m)
            && m@ == t@),
        read matches TunnelRead::Received(Message::Ping(_)) ==> step is Wait,
        read matches TunnelRead::Received(Message::Pong(_)) ==> step is Wait,
        read matches TunnelRead::Received(Message::Binary(_)) ==> fails_with(
            step,
            502,
            "Unexpected message before metadata"@,
        ),
        read matches TunnelRead::Received(Message::Close) ==> fails_with(
            step,
            502,
            "Unexpected message before metadata"@,
        ),
        read is Failed ==> fails_with(step, 502, "Tunnel error"@),
        read is Closed ==> fails_with(step, 502, "Stream closed before metadata"@),
{
    match read {
        TunnelRead::Received(Message::Text(t)) => MetaStep::Metadata(t),
        TunnelRead::Received(Message::Ping(_)) => MetaStep::Wait,
        TunnelRead::Received(Message::Pong(_)) => MetaStep::Wait,
        TunnelRead::Received(_) => MetaStep::Fail {
            status: 502,
            body: string_from("Unexpected message before metadata"),
        },
        TunnelRead::Failed => MetaStep::Fail { status: 502, body: string_from("Tunnel error") },
        TunnelRead::Closed => MetaStep::Fail {
            status: 502,
            body: string_from("Stream closed before metadata"),
        },
    }
}

/// The status a proxied response is given: the target's status where it
/// is a valid HTTP status code (100 to 999), else 500. This is what
/// `http::StatusCode::from_u16` accepts.
pub fn response_status(status: u16) -> (s: u16)
    ensures
        100 <= status < 1000 ==> s == status,
        !(100 <= status < 1000) ==> s == 500,
{
    if 100 <= status && status < 1000 {
        status
    } else {
        500
    }
}

/// Why a proxied request is answered by the relay itself.
pub enum ProxyFailure {
    /// No session has the requested id.
    NoSession,
    /// The request could not be passed to the target.
    TargetUnreachable,
    /// The target did not open a tunnel within ten seconds.
    TargetTimedOut,
    /// The target's metadata is not valid.
    InvalidMetadata,
}

/// The status and body the relay answers with when a proxied request
/// fails.
pub fn failure_response(f: &ProxyFailure) -> (r: (u16, String))
    ensures
        *f is NoSession ==> r.0 == 404 && r.1@ == "Session not found"@,
        *f is TargetUnreachable ==> r.0 == 502 && r.1@ == "Failed to contact target"@,
        *f is TargetTimedOut ==> r.0 == 504 && r.1@ == "Target timed out"@,
        *f is InvalidMetadata ==> r.0 == 502 && r.1@ == "Invalid response from target"@,
{
    match f {
        ProxyFailure::NoSession => (404, string_from("Session not found")),
        ProxyFailure::TargetUnreachable => (502, string_from("Failed to contact target")),
        ProxyFailure::TargetTimedOut => (504, string_from("Target timed out")),
        ProxyFailure::InvalidMetadata => (502, string_from("Invalid response from target")),
    }
}

/// How long the relay waits for a target's tunnel, in seconds.
pub const TUNNEL_TIMEOUT_SECS: u64 = 10;

/// A message the relay sends to a target on its control channel.
pub enum ServerMessage {
    Registered { id: String },
    Spawn { viewer_id: String },
    Error { message: String },
    ProxyRequest { req_id: String, method: String, uri: String, headers: Vec<(String, String)> },
}

/// What a target does with a control message.
pub enum ControlAction {
    /// The session is registered under this id; `open_data` tells whether a
    /// data connection is opened at once.
    Registered { id: String, open_data: bool },
    /// The relay refused the registration: give up.
    Refused { message: String },
    /// Open a data connection with a new terminal for this viewer.
    OpenData { viewer_id: String },
    /// Answer a request of a viewer through a tunnel.
    Proxy { req_id: String, method: String, uri: String, headers: Vec<(String, String)> },
    /// Nothing.
    Ignore,
}

/// What a target connected over WebSocket does with a control message:
/// while it waits to be registered (`registered` false) only `Registered`
/// and `Error` count; a broadcast session opens its one data connection on
/// registration. Once registered, `Spawn` opens a data connection in an
/// independent session, and a proxy request is served.
pub fn control_action(msg: ServerMessage, registered: bool, independent: bool) -> (a:
    ControlAction)
    ensures
        !registered ==> match msg {
            ServerMessage::Registered { id } => (a matches ControlAction::Registered {
                id: i,
                open_data,
            } && i@ == id@ && open_data == !independent),
            ServerMessage::Error { message } => (a matches ControlAction::Refused { message: m }
                && m@ == message@),
            _ => a is Ignore,
        },
        registered ==> match msg {
            ServerMessage::Spawn { viewer_id } => if independent {
                (a matches ControlAction::OpenData { viewer_id: v } && v@ == viewer_id@)
            } else {
                a is Ignore
            },
            ServerMessage::ProxyRequest { req_id, method, uri, headers } => (a matches ControlAction::Proxy {
                req_id: r,
                method: m,
                uri: u,
                headers: h,
            } && r@ == req_id@ && m@ == method@ && u@ == uri@ && h@ == headers@),
            _ => a is Ignore,
        },
{
    if !registered {
        match msg {
            ServerMessage::Registered { id } => ControlAction::Registered {
                id,
                open_data: !independent,
            },
            ServerMessage::Error { message } => ControlAction::Refused { message },
            _ => ControlAction::Ignore,
        }
    } else {
        match msg {
            ServerMessage::Spawn { viewer_id } => if independent {
                ControlAction::OpenData { viewer_id }
            } else {
                ControlAction::Ignore
            },
            ServerMessage::ProxyRequest { req_id, method, uri, headers } => ControlAction::Proxy {
                req_id,
                method,
                uri,
                headers,
            },
            _ => ControlAction::Ignore,
        }
    }
}

/// What a target connected over QUIC does with a control message: while it
/// waits to be registered only `Registered` counts, and a broadcast session
/// opens its one data connection on registration; once registered, `Spawn`
/// opens a data connection in an independent session and a proxy request is
/// served, as over WebSocket.
pub fn quic_control_action(msg: ServerMessage, registered: bool, independent: bool) -> (a:
    ControlAction)
    ensures
        !registered ==> match msg {
            ServerMessage::Registered { id } => (a matches ControlAction::Registered {
                id: i,
                open_data,
            } && i@ == id@ && open_data == !independent),
            _ => a is Ignore,
        },
        registered ==> match msg {
            ServerMessage::Spawn { viewer_id } => if independent {
                (a matches ControlAction::OpenData { viewer_id: v } && v@ == viewer_id@)
            } else {
                a is Ignore
            },
            ServerMessage::ProxyRequest { req_id, method, uri, headers } => (a matches ControlAction::Proxy {
                req_id: r,
                method: m,
                uri: u,
                headers: h,
            } && r@ == req_id@ && m@ == method@ && u@ == uri@ && h@ == headers@),
            _ => a is Ignore,
        },
{
    if !registered {
        match msg {
            ServerMessage::Registered { id } => ControlAction::Registered {
                id,
                open_data: !independent,
            },
            _ => ControlAction::Ignore,
        }
    } else {
        control_action(msg, true, independent)
    }
}

/// The path a download request is passed to the target under.
pub fn download_request_uri(path: &str) -> (uri: String)
    ensures
        uri@ == "/download/"@ + path@,
{
    crate::text::concat("/download/", path)
}

/// The path an upload request is passed to the target under.
pub fn upload_request_uri() -> (uri: String)
    ensures
        uri@ == "/upload"@,
{
    string_from("/upload")
}

/// A target's request to register a session.
pub struct Register {
    pub id: Option<String>,
    pub mode: String,
}

/// What the relay does with a message while a QUIC target registers.
pub enum RegistrationStep {
    /// Register the session.
    Register(Register),
    /// Keep reading.
    Wait,
    /// Stop: the target is gone or sent something else.
    End,
}

/// What the relay does with a message while a QUIC target registers,
/// `parsed` being what a text message parses to as a registration: a text
/// registration is taken; other text, pings and pongs are passed over;
/// anything else, an error or the end of the stream ends the connection.
pub fn registration_step(read: TunnelRead, parsed: Option<Register>) -> (step: RegistrationStep)
    ensures
        read matches TunnelRead::Received(Message::Text(_)) ==> (match parsed {
            Some(r) => step == RegistrationStep::Register(r),
            None => step is Wait,
        }),
        read matches TunnelRead::Received(Message::Ping(_)) ==> step is Wait,
        read matches TunnelRead::Received(Message::Pong(_)) ==> step is Wait,
        read matches TunnelRead::Received(Message::Binary(_)) ==> step is End,
        read matches TunnelRead::Received(Message::Close) ==> step is End,
        read is Failed || read is Closed ==> step is End,
{
    match read {
        TunnelRead::Received(Message::Text(_)) => match parsed {
            Some(r) => RegistrationStep::Register(r),
            None => RegistrationStep::Wait,
        },
        TunnelRead::Received(Message::Ping(_)) => RegistrationStep::Wait,
        TunnelRead::Received(Message::Pong(_)) => RegistrationStep::Wait,
        _ => RegistrationStep::End,
    }
}

} // verus!
