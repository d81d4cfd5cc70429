//! The URLs a target uses to reach a relay. A URL is held as its
//! serialization; each step parses it with the `url` crate, changes it and
//! serializes it again.
use vstd::prelude::*;
use crate::settings::{directory_path, quic_port, websocket_scheme};
use crate::text::{ends_with, has_prefix, has_suffix};

verus! {

/// The serialization of what `url::Url::parse` makes of a text; `None`
/// where it refuses it.
pub uninterp spec fn url_parse(s: Seq<char>) -> Option<Seq<char>>;

/// `url::Url::scheme` of the URL that a text parses to.
pub uninterp spec fn url_scheme(u: Seq<char>) -> Seq<char>;

/// `url::Url::path` of the URL that a text parses to.
pub uninterp spec fn url_path(u: Seq<char>) -> Seq<char>;

/// `url::Url::host_str` of the URL that a text parses to.
pub uninterp spec fn url_host(u: Seq<char>) -> Option<Seq<char>>;

/// `url::Url::port` of the URL that a text parses to.
pub uninterp spec fn url_port(u: Seq<char>) -> Option<u16>;

/// The serialization after `url::Url::set_scheme`; `None` where the
/// scheme change is refused.
pub uninterp spec fn url_set_scheme(u: Seq<char>, scheme: Seq<char>) -> Option<Seq<char>>;

/// The serialization after `url::Url::set_path`.
pub uninterp spec fn url_set_path(u: Seq<char>, path: Seq<char>) -> Seq<char>;

/// The serialization of `url::Url::join`; `None` where it fails.
pub uninterp spec fn url_join(u: Seq<char>, relative: Seq<char>) -> Option<Seq<char>>;

/// The serialization after `url::Url::query_pairs_mut().append_pair`.
pub uninterp spec fn url_append_pair(u: Seq<char>, key: Seq<char>, value: Seq<char>) -> Seq<char>;

/// The views of an optional string.
pub open spec fn opt_view(s: Option<String>) -> Option<Seq<char>> {
    match s {
        Some(t) => Some(t@),
        None => None,
    }
}

/// `url::Url::parse`, serialized; named [`url_parse`].
#[verifier::external_body]
fn parse(s: &str) -> (u: Option<String>)
    ensures
        opt_view(u) == url_parse(s@),
{
    match url::Url::parse(s) {
        Ok(u) => Some(u.to_string()),
        Err(_) => None,
    }
}

/// `url::Url::scheme`; named [`url_scheme`]. `None` where the text does
/// not parse.
#[verifier::external_body]
fn scheme_of(u: &str) -> (s: Option<String>)
    ensures
        url_parse(u@) is None ==> s is None,
        url_parse(u@) is Some ==> opt_view(s) == Some(url_scheme(u@)),
{
    match url::Url::parse(u) {
        Ok(p) => Some(p.scheme().to_string()),
        Err(_) => None,
    }
}

/// `url::Url::path`; named [`url_path`]. `None` where the text does not
/// parse.
#[verifier::external_body]
fn path_of(u: &str) -> (s: Option<String>)
    ensures
        url_parse(u@) is None ==> s is None,
        url_parse(u@) is Some ==> opt_view(s) == Some(url_path(u@)),
{
    match url::Url::parse(u) {
        Ok(p) => Some(p.path().to_string()),
        Err(_) => None,
    }
}

/// `url::Url::host_str`; named [`url_host`]. `None` where the text does
/// not parse.
#[verifier::external_body]
fn host_of(u: &str) -> (h: Option<Option<String>>)
    ensures
        url_parse(u@) is None ==> h is None,
        url_parse(u@) is Some ==> h is Some && opt_view(h->0) == url_host(u@),
{
    match url::Url::parse(u) {
        Ok(p) => Some(p.host_str().map(String::from)),
        Err(_) => None,
    }
}

/// `url::Url::port`; named [`url_port`]. `None` where the text does not
/// parse.
#[verifier::external_body]
fn port_of(u: &str) -> (p: Option<Option<u16>>)
    ensures
        url_parse(u@) is None ==> p is None,
        url_parse(u@) is Some ==> p == Some(url_port(u@)),
{
    match url::Url::parse(u) {
        Ok(x) => Some(x.port()),
        Err(_) => None,
    }
}

/// `url::Url::set_scheme`, serialized; named [`url_set_scheme`]. `None`
/// where the text does not parse.
#[verifier::external_body]
fn with_scheme(u: &str, scheme: &str) -> (r: Option<String>)
    ensures
        url_parse(u@) is None ==> r is None,
        url_parse(u@) is Some ==> opt_view(r) == url_set_scheme(u@, scheme@),
{
    match url::Url::parse(u) {
        Ok(mut x) => match x.set_scheme(scheme) {
            Ok(()) => Some(x.to_string()),
            Err(()) => None,
        },
        Err(_) => None,
    }
}

/// `url::Url::set_path`, serialized; named [`url_set_path`]. `None` where
/// the text does not parse.
#[verifier::external_body]
fn with_path(u: &str, path: &str) -> (r: Option<String>)
    ensures
        url_parse(u@) is None ==> r is None,
        url_parse(u@) is Some ==> opt_view(r) == Some(url_set_path(u@, path@)),
{
    match url::Url::parse(u) {
        Ok(mut x) => {
            x.set_path(path);
            Some(x.to_string())
        },
        Err(_) => None,
    }
}

/// `url::Url::join`, serialized; named [`url_join`]. `None` where the text
/// does not parse.
#[verifier::external_body]
fn join(u: &str, relative: &str) -> (r: Option<String>)
    ensures
        url_parse(u@) is None ==> r is None,
        url_parse(u@) is Some ==> opt_view(r) == url_join(u@, relative@),
{
    match url::Url::parse(u) {
        Ok(x) => match x.join(relative) {
            Ok(j) => Some(j.to_string()),
            Err(_) => None,
        },
        Err(_) => None,
    }
}

/// `url::Url::query_pairs_mut().append_pair`, serialized; named
/// [`url_append_pair`]. `None` where the text does not parse.
#[verifier::external_body]
fn with_pair(u: &str, key: &str, value: &str) -> (r: Option<String>)
    ensures
        url_parse(u@) is None ==> r is None,
        url_parse(u@) is Some ==> opt_view(r) == Some(url_append_pair(u@, key@, value@)),
{
    match url::Url::parse(u) {
        Ok(mut x) => {
            x.query_pairs_mut().append_pair(key, value);
            Some(x.to_string())
        },
        Err(_) => None,
    }
}

/// The WebSocket URL of a relay given by its `http` or `https` URL: the
/// parsed URL with its scheme switched to `ws` or `wss`; a URL whose
/// scheme does not start with `http` keeps it. `None` where the text does
/// not parse or the scheme cannot be switched.
pub open spec fn relay_url_spec(connect: Seq<char>) -> Option<Seq<char>> {
    match url_parse(connect) {
        None => None,
        Some(u) => if url_parse(u) is None {
            None
        } else {
            let scheme = url_scheme(u);
            if has_prefix(scheme, "http"@) {
                url_set_scheme(
                    u,
                    if scheme == "https"@ {
                        "wss"@
                    } else {
                        "ws"@
                    },
                )
            } else {
                Some(u)
            }
        },
    }
}

/// The WebSocket URL of a relay.
pub fn relay_url(connect: &str) -> (u: Option<String>)
    ensures
        opt_view(u) == relay_url_spec(connect@),
{
    let parsed = match parse(connect) {
        Some(p) => p,
        None => return None,
    };
    let scheme = match scheme_of(parsed.as_str()) {
        Some(s) => s,
        None => return None,
    };
    match websocket_scheme(scheme.as_str()) {
        Some(ws) => with_scheme(parsed.as_str(), ws.as_str()),
        None => Some(parsed),
    }
}

/// The URL of an endpoint of the relay below a relay URL: the URL's path
/// made to end with a slash, the endpoint joined to it, then each query
/// pair appended in order.
pub open spec fn endpoint_spec(
    base: Seq<char>,
    endpoint: Seq<char>,
    query: Seq<(Seq<char>, Seq<char>)>,
) -> Option<Seq<char>> {
    if url_parse(base) is None {
        None
    } else {
        let path = url_path(base);
        let dir = if has_suffix(path, "/"@) {
            Some(base)
        } else {
            Some(url_set_path(base, path + "/"@))
        };
        match dir {
            None => None,
            Some(d) => if url_parse(d) is None {
                None
            } else {
                match url_join(d, endpoint) {
                    None => None,
                    Some(j) => with_pairs(j, query),
                }
            },
        }
    }
}

/// A URL with query pairs appended in order; `None` where a step does not
/// parse.
pub open spec fn with_pairs(u: Seq<char>, query: Seq<(Seq<char>, Seq<char>)>) -> Option<Seq<char>>
    decreases query.len(),
{
    if query.len() == 0 {
        Some(u)
    } else {
        match with_pairs(u, query.drop_last()) {
            None => None,
            Some(v) => if url_parse(v) is None {
                None
            } else {
                Some(url_append_pair(v, query.last().0, query.last().1))
            },
        }
    }
}

proof fn lemma_pairs_fail_stays(u: Seq<char>, q: Seq<(Seq<char>, Seq<char>)>, k: int)
    requires
        0 <= k <= q.len(),
        with_pairs(u, q.take(k)) is None,
    ensures
        with_pairs(u, q) is None,
    decreases q.len() - k,
{
    if k < q.len() {
        assert(q.take(k + 1).drop_last() == q.take(k));
        lemma_pairs_fail_stays(u, q, k + 1);
    } else {
        assert(q.take(k) == q);
    }
}

/// An endpoint below a relay URL whose path already ends with a slash is
/// joined to that URL as it is, with no slash added; the query pairs are
/// then appended. With no query, the endpoint URL is the join itself.
pub proof fn lemma_endpoint_of_slashed_base(
    base: Seq<char>,
    endpoint: Seq<char>,
    query: Seq<(Seq<char>, Seq<char>)>,
)
    requires
        url_parse(base) is Some,
        has_suffix(url_path(base), "/"@),
    ensures
        endpoint_spec(base, endpoint, query) == match url_join(base, endpoint) {
            Some(j) => with_pairs(j, query),
            None => None,
        },
        endpoint_spec(base, endpoint, Seq::empty()) == url_join(base, endpoint),
{
}

/// An endpoint below a relay URL whose path does not end with a slash is
/// joined to the URL with one slash added to its path, so that the endpoint
/// lands below the relay's path rather than beside it.
pub proof fn lemma_endpoint_of_unslashed_base(base: Seq<char>, endpoint: Seq<char>)
    requires
        url_parse(base) is Some,
        !has_suffix(url_path(base), "/"@),
        url_parse(url_set_path(base, url_path(base) + "/"@)) is Some,
    ensures
        endpoint_spec(base, endpoint, Seq::empty()) == url_join(
            url_set_path(base, url_path(base) + "/"@),
            endpoint,
        ),
{
}

/// The views of query pairs.
pub open spec fn pairs_view(q: Seq<(String, String)>) -> Seq<(Seq<char>, Seq<char>)> {
    q.map_values(|p: (String, String)| (p.0@, p.1@))
}

/// The URL of an endpoint of the relay, such as `_sharetty/control`.
pub fn endpoint_url(base: &str, endpoint: &str, query: &Vec<(String, String)>) -> (u: Option<
    String,
>)
    ensures
        opt_view(u) == endpoint_spec(base@, endpoint@, pairs_view(query@)),
{
    let path = match path_of(base) {
        Some(p) => p,
        None => return None,
    };
    let dir = if ends_with(path.as_str(), "/") {
        crate::text::string_from(base)
    } else {
        let p = directory_path(path.as_str());
        match with_path(base, p.as_str()) {
            Some(d) => d,
            None => return None,
        }
    };
    let mut cur = match join(dir.as_str(), endpoint) {
        Some(j) => j,
        None => return None,
    };
    let ghost q = pairs_view(query@);
    let mut i: usize = 0;
    assert(q.take(0) =~= Seq::<(Seq<char>, Seq<char>)>::empty());
    while i < query.len()
        invariant
            i <= query@.len(),
            q == pairs_view(query@),
            with_pairs(url_join(dir@, endpoint@)->0, q.take(i as int)) == Some(cur@),
            url_join(dir@, endpoint@) is Some,
            endpoint_spec(base@, endpoint@, q) == with_pairs(url_join(dir@, endpoint@)->0, q),
        decreases query@.len() - i,
    {
        assert(q.take(i + 1).drop_last() == q.take(i as int));
        assert(q.take(i + 1).last() == (query@[i as int].0@, query@[i as int].1@));
        match with_pair(cur.as_str(), query[i].0.as_str(), query[i].1.as_str()) {
            Some(next) => {
                cur = next;
            },
            None => {
                proof {
                    lemma_pairs_fail_stays(url_join(dir@, endpoint@)->0, q, i + 1);
                }
                return None;
            },
        }
        i = i + 1;
    }
    assert(q.take(query@.len() as int) == q);
    Some(cur)
}

/// Where a direct QUIC connection goes: host, port (443 by default) and
/// the path sent in the handshake.
pub struct QuicTarget {
    pub host: Option<String>,
    pub port: u16,
    pub path: String,
}

/// The host, port and path of a relay URL for a direct QUIC connection;
/// `None` where the URL does not parse.
pub fn quic_target(connect: &str) -> (t: Option<QuicTarget>)
    ensures
        url_parse(connect@) is None <==> t is None,
        t matches Some(x) ==> opt_view(x.host) == url_host(connect@) && x.path@ == url_path(
            connect@,
        ) && x.port == match url_port(connect@) {
            Some(p) => p,
            None => 443u16,
        },
{
    let host = match host_of(connect) {
        Some(h) => h,
        None => return None,
    };
    let port = match port_of(connect) {
        Some(p) => quic_port(p),
        None => return None,
    };
    let path = match path_of(connect) {
        Some(p) => p,
        None => return None,
    };
    Some(QuicTarget { host, port, path })
}

} // verus!
