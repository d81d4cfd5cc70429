//! Decisions taken from the command-line configuration: where the server
//! serves, how it listens, which protocols it offers, how verbose it logs
//! and how a target reaches a relay.
use vstd::prelude::*;
use vstd::string::StringExecFns;
use crate::ids::{is_alphanumeric, random_url_path};
use crate::protocol::{alpn_sharetty, alpn_sharetty_spec, handshake_status, same_optional, HandshakeRequest};
use crate::text::{concat, ends_with, has_prefix, has_suffix, starts_with, string_from, trim_end_char, trim_end_spec};

verus! {

/// The path the server serves under, and the URL path setting it runs
/// with afterwards.
pub struct ServePath {
    pub prefix: String,
    pub url: Option<String>,
}

/// The prefix for a configured URL path: the path itself where it starts
/// with a slash, otherwise a slash and the path.
pub open spec fn rooted(url: Seq<char>) -> Seq<char> {
    if has_prefix(url, "/"@) {
        url
    } else {
        "/"@ + url
    }
}

/// The path the server serves under: the configured URL path made to start
/// with a slash; else, when a random path is asked for, a slash and
/// `random_len` random letters and digits; else the root. Where a path is
/// served other than the root, that path also becomes the URL path setting
/// against which handshakes are checked.
pub fn serve_path(url: &Option<String>, random_url: bool, random_len: usize) -> (sp: ServePath)
    ensures
        url matches Some(u) ==> (sp.prefix@ == rooted(u@) && (sp.url matches Some(v) && v@ == rooted(u@))),
        url is None && random_url ==> sp.prefix@.len() == random_len + 1 && sp.prefix@[0] == '/'
            && (forall|i: int| 1 <= i <= random_len ==> is_alphanumeric(#[trigger] sp.prefix@[i]))
            && (sp.url matches Some(v) && v@ == sp.prefix@),
        url is None && !random_url ==> sp.prefix@ == "/"@ && sp.url is None,
{
    match url {
        Some(u) => {
            let prefix = if starts_with(u.as_str(), "/") {
                string_from(u.as_str())
            } else {
                concat("/", u.as_str())
            };
            let setting = string_from(prefix.as_str());
            ServePath { prefix, url: Some(setting) }
        },
        None => {
            if random_url {
                let p = random_url_path(random_len);
                let setting = string_from(p.as_str());
                ServePath { prefix: p, url: Some(setting) }
            } else {
                ServePath { prefix: string_from("/"), url: None }
            }
        },
    }
}

/// Where the application is mounted under a prefix other than the root:
/// the prefix without trailing slashes, which redirects, and that with one
/// slash, under which the application is nested.
pub struct MountPoints {
    pub redirect_from: String,
    pub nest_at: String,
}

/// The mount points for a prefix; `None` for the root.
pub fn mount_points(prefix: &str) -> (m: Option<MountPoints>)
    ensures
        m is None <==> prefix@ == "/"@,
        m matches Some(mp) ==> mp.redirect_from@ == trim_end_spec(prefix@, '/')
            && mp.nest_at@ == trim_end_spec(prefix@, '/') + "/"@,
{
    let root = string_from("/");
    let p = string_from(prefix);
    if p.eq(&root) {
        return None;
    }
    let trimmed = trim_end_char(prefix, '/');
    let nest_at = concat(trimmed.as_str(), "/");
    Some(MountPoints { redirect_from: trimmed, nest_at })
}

/// Whether the server listens on the IPv6 unspecified address in place of
/// the configured one: when IPv6 is asked for and the configured address
/// is the IPv4 unspecified address `0.0.0.0`.
pub fn listen_on_ipv6_any(ipv6: bool, address_is_ipv4_unspecified: bool) -> (r: bool)
    ensures
        r == (ipv6 && address_is_ipv4_unspecified),
{
    ipv6 && address_is_ipv4_unspecified
}

/// Where the server's TLS certificate comes from.
pub enum TlsSource {
    /// The certificate and key files that were given.
    Files,
    /// A self-signed certificate generated at start.
    SelfSigned,
    /// No TLS: plain HTTP/1.1.
    Plain,
}

/// The certificate source: the given files when both a certificate and a
/// key are given; else a generated one when TLS, HTTP/2 or HTTP/3 is asked
/// for; else none.
pub fn tls_source(cert_given: bool, key_given: bool, tls: bool, http2: bool, http3: bool) -> (s:
    TlsSource)
    ensures
        s is Files <==> cert_given && key_given,
        s is SelfSigned <==> !(cert_given && key_given) && (tls || http2 || http3),
        s is Plain <==> !(cert_given && key_given) && !(tls || http2 || http3),
{
    if cert_given && key_given {
        TlsSource::Files
    } else if tls || http2 || http3 {
        TlsSource::SelfSigned
    } else {
        TlsSource::Plain
    }
}

/// The names a generated certificate is made for.
pub fn self_signed_names() -> (names: Vec<String>)
    ensures
        names@.len() == 3,
        names@[0]@ == "localhost"@,
        names@[1]@ == "127.0.0.1"@,
        names@[2]@ == "::1"@,
{
    let mut names: Vec<String> = Vec::new();
    names.push(string_from("localhost"));
    names.push(string_from("127.0.0.1"));
    names.push(string_from("::1"));
    names
}

/// The ALPN identifiers the TLS server offers, most preferred first: `h3`
/// when HTTP/3 is on, `h2` when HTTP/2 is on, `http/1.1` when HTTP/1.1 is
/// on, and always the direct QUIC protocol last.
pub open spec fn alpn_list(http1: bool, http2: bool, http3: bool) -> Seq<Seq<u8>> {
    (if http3 {
        seq![seq![104u8, 51u8]]
    } else {
        Seq::empty()
    }) + (if http2 {
        seq![seq![104u8, 50u8]]
    } else {
        Seq::empty()
    }) + (if http1 {
        seq![seq![104u8, 116u8, 116u8, 112u8, 47u8, 49u8, 46u8, 49u8]]
    } else {
        Seq::empty()
    }) + seq![alpn_sharetty_spec()]
}

/// The views of a list of byte strings.
pub open spec fn bytes_list_view(v: Seq<Vec<u8>>) -> Seq<Seq<u8>> {
    v.map_values(|b: Vec<u8>| b@)
}

fn bytes_of(b: &[u8]) -> (v: Vec<u8>)
    ensures
        v@ == b@,
{
    let mut v: Vec<u8> = Vec::new();
    let mut i: usize = 0;
    while i < b.len()
        invariant
            i <= b@.len(),
            v@ == b@.take(i as int),
        decreases b@.len() - i,
    {
        v.push(b[i]);
        assert(b@.take(i + 1) == b@.take(i as int).push(b@[i as int]));
        i = i + 1;
    }
    assert(b@.take(b@.len() as int) == b@);
    v
}

/// The ALPN identifiers the TLS server offers.
pub fn alpn_protocols(http1: bool, http2: bool, http3: bool) -> (list: Vec<Vec<u8>>)
    ensures
        bytes_list_view(list@) == alpn_list(http1, http2, http3),
{
    let mut list: Vec<Vec<u8>> = Vec::new();
    let ghost mut expect: Seq<Seq<u8>> = Seq::empty();
    if http3 {
        list.push(bytes_of(&[104u8, 51u8]));
        proof {
            expect = expect + seq![seq![104u8, 51u8]];
        }
    }
    assert(bytes_list_view(list@) =~= expect);
    if http2 {
        list.push(bytes_of(&[104u8, 50u8]));
        proof {
            expect = expect + seq![seq![104u8, 50u8]];
        }
    }
    assert(bytes_list_view(list@) =~= expect);
    if http1 {
        list.push(bytes_of(&[104u8, 116u8, 116u8, 112u8, 47u8, 49u8, 46u8, 49u8]));
        proof {
            expect = expect + seq![seq![104u8, 116u8, 116u8, 112u8, 47u8, 49u8, 46u8, 49u8]];
        }
    }
    assert(bytes_list_view(list@) =~= expect);
    list.push(alpn_sharetty());
    proof {
        expect = expect + seq![alpn_sharetty_spec()];
    }
    assert(bytes_list_view(list@) =~= expect);
    assert(expect =~= alpn_list(http1, http2, http3));
    list
}

/// The ALPN identifiers offered: `h3` exactly when HTTP/3 is on, and then
/// first; `h2` exactly when HTTP/2 is on; `http/1.1` exactly when HTTP/1.1
/// is on; the direct protocol always, last. Each switch adds its own
/// identifier whatever the others are.
pub proof fn lemma_alpn_offers_what_is_on(http1: bool, http2: bool, http3: bool)
    ensures
        alpn_list(http1, http2, http3).contains(seq![104u8, 51u8]) <==> http3,
        http3 ==> alpn_list(http1, http2, http3)[0] == seq![104u8, 51u8],
        alpn_list(http1, http2, http3).contains(seq![104u8, 50u8]) <==> http2,
        alpn_list(http1, http2, http3).contains(
            seq![104u8, 116u8, 116u8, 112u8, 47u8, 49u8, 46u8, 49u8],
        ) <==> http1,
        alpn_list(http1, http2, http3).last() == alpn_sharetty_spec(),
        alpn_list(http1, http2, http3).len() == 1 + (if http1 { 1int } else { 0 }) + (if http2 {
            1int
        } else {
            0
        }) + (if http3 { 1int } else { 0 }),
{
    let l = alpn_list(http1, http2, http3);
    let h3 = seq![104u8, 51u8];
    let h2 = seq![104u8, 50u8];
    let h1 = seq![104u8, 116u8, 116u8, 112u8, 47u8, 49u8, 46u8, 49u8];
    let d = alpn_sharetty_spec();
    assert(h3 != h2 && h3 != h1 && h2 != h1 && d != h1 && d != h2 && d != h3) by {
        assert(h3[1] != h2[1]);
        assert(h3.len() != h1.len());
        assert(h2.len() != h1.len());
        assert(d[0] != h1[0]);
        assert(d.len() != h2.len());
    }
    assert forall|x: Seq<u8>| l.contains(x) <==> (x == d || (http3 && x == h3) || (http2 && x == h2)
        || (http1 && x == h1)) by {
        if l.contains(x) {
            let i = choose|i: int| 0 <= i < l.len() && l[i] == x;
        }
        if x == d {
            assert(l[l.len() - 1] == d);
        }
        if http3 && x == h3 {
            assert(l[0] == h3);
        }
        if http2 && x == h2 {
            let i = if http3 { 1int } else { 0int };
            assert(l[i] == h2);
        }
        if http1 && x == h1 {
            let i = (if http3 { 1int } else { 0int }) + (if http2 { 1int } else { 0int });
            assert(l[i] == h1);
        }
    }
}

/// The log filter for a verbosity count: `info`, `debug` from one `-v`,
/// `trace` from two.
pub fn log_level(verbose: u8) -> (level: String)
    ensures
        verbose == 0 ==> level@ == "info"@,
        verbose == 1 ==> level@ == "debug"@,
        verbose >= 2 ==> level@ == "trace"@,
{
    if verbose == 0 {
        string_from("info")
    } else if verbose == 1 {
        string_from("debug")
    } else {
        string_from("trace")
    }
}

/// The session mode a target registers: `independent` (a terminal per
/// viewer) or `broadcast` (one shared terminal).
pub fn session_mode(independent: bool) -> (mode: String)
    ensures
        independent ==> mode@ == "independent"@,
        !independent ==> mode@ == "broadcast"@,
{
    if independent {
        string_from("independent")
    } else {
        string_from("broadcast")
    }
}

/// Whether a session mode is the shared-terminal mode.
pub fn is_broadcast(mode: &str) -> (b: bool)
    ensures
        b == (mode@ == "broadcast"@),
{
    let m = string_from(mode);
    let b = string_from("broadcast");
    m.eq(&b)
}

/// The WebSocket scheme a relay URL is switched to: `wss` for `https`, `ws`
/// for any other scheme that starts with `http`; `None` (the scheme stays)
/// for the rest.
pub fn websocket_scheme(scheme: &str) -> (ws: Option<String>)
    ensures
        !has_prefix(scheme@, "http"@) <==> ws is None,
        ws matches Some(w) ==> (scheme@ == "https"@ ==> w@ == "wss"@) && (scheme@ != "https"@
            ==> w@ == "ws"@),
{
    if !starts_with(scheme, "http") {
        return None;
    }
    let s = string_from(scheme);
    let https = string_from("https");
    if s.eq(&https) {
        Some(string_from("wss"))
    } else {
        Some(string_from("ws"))
    }
}

/// A URL path made to end with a slash, so that relay endpoints are joined
/// below it.
pub fn directory_path(path: &str) -> (p: String)
    ensures
        has_suffix(path@, "/"@) ==> p@ == path@,
        !has_suffix(path@, "/"@) ==> p@ == path@ + "/"@,
{
    if ends_with(path, "/") {
        string_from(path)
    } else {
        concat(path, "/")
    }
}

/// The port a direct QUIC connection goes to: the URL's, else 443.
pub fn quic_port(port: Option<u16>) -> (p: u16)
    ensures
        port matches Some(q) ==> p == q,
        port is None ==> p == 443,
{
    match port {
        Some(q) => q,
        None => 443,
    }
}

/// The command a target runs for a viewer: the configured one, or `bash`
/// where it is empty.
pub fn target_command(command: &str) -> (c: String)
    ensures
        command@.len() == 0 ==> c@ == "bash"@,
        command@.len() != 0 ==> c@ == command@,
{
    if command.is_empty() {
        string_from("bash")
    } else {
        string_from(command)
    }
}

/// The command line a Windows terminal is started with: the command, then
/// each argument after a space.
pub open spec fn command_line_spec(cmd: Seq<char>, args: Seq<Seq<char>>) -> Seq<char>
    decreases args.len(),
{
    if args.len() == 0 {
        cmd
    } else {
        command_line_spec(cmd, args.drop_last()) + " "@ + args.last()
    }
}

/// The views of a list of strings.
pub open spec fn strings_view(v: Seq<String>) -> Seq<Seq<char>> {
    v.map_values(|s: String| s@)
}

/// The command line a Windows terminal is started with.
pub fn command_line(cmd: &str, args: &[String]) -> (line: String)
    ensures
        line@ == command_line_spec(cmd@, strings_view(args@)),
{
    let mut line = string_from(cmd);
    let ghost a = strings_view(args@);
    let mut i: usize = 0;
    while i < args.len()
        invariant
            i <= args@.len(),
            a == strings_view(args@),
            line@ == command_line_spec(cmd@, a.take(i as int)),
        decreases args@.len() - i,
    {
        line.append(" ");
        line.append(args[i].as_str());
        assert(a.take(i + 1).drop_last() == a.take(i as int));
        assert(a.take(i + 1).last() == args@[i as int]@);
        i = i + 1;
    }
    assert(a.take(args@.len() as int) == a);
    line
}

/// The served path always starts with a slash.
pub proof fn lemma_rooted_starts_with_slash(url: Seq<char>)
    ensures
        has_prefix(rooted(url), "/"@),
{
    reveal_strlit("/");
    if !has_prefix(url, "/"@) {
        assert(("/"@ + url).take(1) =~= "/"@);
    }
}

/// A target that connects to the path a server serves under, given with
/// `--url` with or without its leading slash, passes the relay's path check:
/// with the URL path setting `serve_path` leaves, a handshake whose path
/// starts with the served prefix, and that carries the configured
/// credential if there is one, is answered 200.
pub proof fn lemma_served_prefix_accepted(
    u: Seq<char>,
    setting: String,
    req: HandshakeRequest,
    credential: Option<String>,
)
    requires
        setting@ == rooted(u),
        has_prefix(req.path@, rooted(u)),
        credential is Some ==> same_optional(req.auth, credential),
    ensures
        handshake_status(Some(req), Some(setting), credential) == 200,
{
}

} // verus!
