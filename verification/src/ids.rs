//! Random identifiers: session ids, request ids, viewer ids and URL paths.
use vstd::prelude::*;
use crate::text::{push_char, string_from};
use rand::RngExt;
use vstd::string::StringExecFns;

verus! {

/// `rand::random_range(0..n)`: a number below `n`, drawn from the
/// thread-local generator. Which number comes is left open. The crate
/// panics where the operating system's generator fails to seed it, which
/// no argument can rule out.
#[verifier::external_body]
fn random_below(n: usize) -> (r: usize)
    requires
        n > 0,
    ensures
        r < n,
{
    rand::random_range(0..n)
}

/// One draw of the `rand::distr::Alphanumeric` distribution from the
/// thread-local generator: an ASCII letter or digit. Which one is left
/// open. The crate panics where the operating system's generator fails to
/// seed it.
#[verifier::external_body]
fn random_alphanumeric() -> (b: u8)
    ensures
        is_alphanumeric_byte(b),
{
    rand::rng().sample(rand::distr::Alphanumeric)
}

/// An ASCII letter or digit.
pub open spec fn is_alphanumeric_byte(b: u8) -> bool {
    (65 <= b <= 90) || (97 <= b <= 122) || (48 <= b <= 57)
}

/// A lower-case ASCII letter or a digit: the alphabet of session and
/// request ids.
pub open spec fn is_lower_alphanumeric(c: char) -> bool {
    ('a' <= c && c <= 'z') || ('0' <= c && c <= '9')
}

/// An ASCII letter or digit: the alphabet of random URL paths and viewer ids.
pub open spec fn is_alphanumeric(c: char) -> bool {
    ('A' <= c && c <= 'Z') || ('a' <= c && c <= 'z') || ('0' <= c && c <= '9')
}

/// The `i`-th character of `abcdefghijklmnopqrstuvwxyz0123456789`.
pub open spec fn lower_alphanumeric_at(i: int) -> char {
    if i < 26 {
        (97 + i) as char
    } else {
        (48 + i - 26) as char
    }
}

/// The `i`-th character of
/// `ABCDEFGHIJKLMNOPQRSTUVWXYZabcdefghijklmnopqrstuvwxyz0123456789`.
pub open spec fn alphanumeric_at(i: int) -> char {
    if i < 26 {
        (65 + i) as char
    } else if i < 52 {
        (97 + i - 26) as char
    } else {
        (48 + i - 52) as char
    }
}

/// The `i`-th character of the lower-case alphabet of ids.
pub fn lower_alphanumeric_char(i: usize) -> (c: char)
    requires
        i < 36,
    ensures
        c == lower_alphanumeric_at(i as int),
        is_lower_alphanumeric(c),
{
    let b: u8 = if i < 26 {
        97u8 + i as u8
    } else {
        48u8 + (i - 26) as u8
    };
    b as char
}

/// The `i`-th character of the alphabet of random URL paths.
pub fn alphanumeric_char(i: usize) -> (c: char)
    requires
        i < 62,
    ensures
        c == alphanumeric_at(i as int),
        is_alphanumeric(c),
{
    let b: u8 = if i < 26 {
        65u8 + i as u8
    } else if i < 52 {
        97u8 + (i - 26) as u8
    } else {
        48u8 + (i - 52) as u8
    };
    b as char
}

/// `len` random characters, each a lower-case letter or a digit.
pub fn random_lower_alphanumeric(len: usize) -> (s: String)
    ensures
        s@.len() == len,
        forall|i: int| 0 <= i < len ==> is_lower_alphanumeric(#[trigger] s@[i]),
{
    let mut s = String::new();
    let mut k: usize = 0;
    while k < len
        invariant
            k <= len,
            s@.len() == k,
            forall|i: int| 0 <= i < k ==> is_lower_alphanumeric(#[trigger] s@[i]),
        decreases len - k,
    {
        let c = lower_alphanumeric_char(random_below(36));
        push_char(&mut s, c);
        k = k + 1;
    }
    s
}

/// `len` random characters, each an ASCII letter or digit, drawn by index
/// into the alphabet of random URL paths.
pub fn random_alphanumeric_string(len: usize) -> (s: String)
    ensures
        s@.len() == len,
        forall|i: int| 0 <= i < len ==> is_alphanumeric(#[trigger] s@[i]),
{
    let mut s = String::new();
    let mut k: usize = 0;
    while k < len
        invariant
            k <= len,
            s@.len() == k,
            forall|i: int| 0 <= i < k ==> is_alphanumeric(#[trigger] s@[i]),
        decreases len - k,
    {
        let c = alphanumeric_char(random_below(62));
        push_char(&mut s, c);
        k = k + 1;
    }
    s
}

/// The id of a newly registered session: the one the target asked for, or
/// eight random lower-case letters and digits.
pub fn session_id(requested: Option<String>) -> (id: String)
    ensures
        requested matches Some(r) ==> id@ == r@,
        requested is None ==> id@.len() == 8 && forall|i: int|
            0 <= i < 8 ==> is_lower_alphanumeric(#[trigger] id@[i]),
{
    match requested {
        Some(r) => r,
        None => random_lower_alphanumeric(8),
    }
}

/// The id of a proxied request: sixteen random lower-case letters and
/// digits.
pub fn request_id() -> (id: String)
    ensures
        id@.len() == 16,
        forall|i: int| 0 <= i < 16 ==> is_lower_alphanumeric(#[trigger] id@[i]),
{
    random_lower_alphanumeric(16)
}

/// The id of a viewer of an independent session: eight characters of the
/// alphanumeric distribution.
pub fn viewer_id() -> (id: String)
    ensures
        id@.len() == 8,
        forall|i: int| 0 <= i < 8 ==> is_alphanumeric(#[trigger] id@[i]),
{
    let mut s = String::new();
    let mut k: usize = 0;
    while k < 8
        invariant
            k <= 8,
            s@.len() == k,
            forall|i: int| 0 <= i < k ==> is_alphanumeric(#[trigger] s@[i]),
        decreases 8 - k,
    {
        let b = random_alphanumeric();
        push_char(&mut s, b as char);
        k = k + 1;
    }
    s
}

/// The path under which the server serves when it is asked for a random
/// one: a slash and `len` random letters and digits.
pub fn random_url_path(len: usize) -> (p: String)
    ensures
        p@.len() == len + 1,
        p@[0] == '/',
        forall|i: int| 1 <= i <= len ==> is_alphanumeric(#[trigger] p@[i]),
{
    let body = random_alphanumeric_string(len);
    let mut p = string_from("/");
    proof {
        reveal_strlit("/");
    }
    let ghost slash = p@;
    p.append(body.as_str());
    assert(p@ == slash + body@);
    assert forall|i: int| 1 <= i <= len implies is_alphanumeric(#[trigger] p@[i]) by {
        assert(p@[i] == body@[i - 1]);
    }
    p
}

} // verus!
