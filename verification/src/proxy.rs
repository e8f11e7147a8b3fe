//! The relay's upstream: which origins it may connect to, and the upstream
//! URL a client's request becomes.

use vstd::prelude::*;
use crate::text::{all_digits, digits_value, first_index};
use crate::websocket::{UrlParts, UrlView, parsed_url, url_error, ws_scheme};

verus! {

/// An octet of a dotted IPv4 address: one to three digits, no leading zero,
/// at most 255.
pub open spec fn octet_of(s: Seq<u8>) -> Option<u8> {
    if 1 <= s.len() <= 3 && all_digits(s) && (s.len() == 1 || s[0] != 0x30) && digits_value(s) <= 255 {
        Some(digits_value(s) as u8)
    } else {
        None
    }
}

/// The first `n` octets of a dotted IPv4 address, the last of which ends
/// the text.
pub open spec fn octets(b: Seq<u8>, n: nat) -> Option<Seq<u8>>
    decreases n,
{
    if n <= 1 {
        match octet_of(b) {
            Some(o) => Some(seq![o]),
            None => None,
        }
    } else {
        match first_index(b, 0x2e) {
            Some(i) => match (octet_of(b.take(i)), octets(b.skip(i + 1), (n - 1) as nat)) {
                (Some(o), Some(rest)) => Some(seq![o] + rest),
                _ => None,
            },
            None => None,
        }
    }
}

/// Whether a host is a loopback host: `localhost` in any case, or a dotted
/// IPv4 address whose first octet is 127. (A parsed URL writes an IPv6 host
/// in brackets, which never reads as an address.)
pub open spec fn loopback_host(h: Seq<char>) -> bool {
    h.map_values(crate::text::lower_char()) == "localhost"@ || match octets(
        vstd::utf8::encode_utf8(h),
        4,
    ) {
        Some(o) => o[0] == 127,
        None => false,
    }
}

fn octet_value(s: &[u8]) -> (r: Option<u8>)
    ensures
        r == octet_of(s@),
{
    if s.len() < 1 || s.len() > 3 {
        return None;
    }
    if s.len() > 1 && s[0] == 0x30 {
        return None;
    }
    let mut v: u32 = 0;
    let mut i: usize = 0;
    while i < s.len()
        invariant
            1 <= s@.len() <= 3,
            i <= s@.len(),
            all_digits(s@.take(i as int)),
            v == digits_value(s@.take(i as int)),
            v <= 999,
        decreases s@.len() - i,
    {
        proof {
            assert(s@.take(i + 1).drop_last() =~= s@.take(i as int));
            assert(s@.take(i + 1).last() == s@[i as int]);
        }
        if s[i] < 0x30 || s[i] > 0x39 {
            proof {
                assert(!all_digits(s@)) by {
                    assert(!crate::text::is_digit(s@[i as int]));
                }
            }
            return None;
        }
        proof {
            assert(v < 100) by {
                lemma_small_value(s@.take(i as int));
            }
        }
        v = v * 10 + (s[i] - 0x30) as u32;
        i = i + 1;
    }
    assert(s@.take(s@.len() as int) =~= s@);
    if v > 255 {
        return None;
    }
    Some(v as u8)
}

proof fn lemma_small_value(s: Seq<u8>)
    requires
        s.len() <= 2,
        all_digits(s),
    ensures
        digits_value(s) < 100,
{
    if s.len() >= 1 {
        assert(crate::text::is_digit(s[0]));
        let t = s.take(1);
        assert(t.drop_last().len() == 0);
        assert(digits_value(t.drop_last()) == 0);
        assert(t.last() == s[0]);
        assert(digits_value(t) < 10);
        if s.len() == 2 {
            assert(crate::text::is_digit(s[1]));
            assert(s.drop_last() =~= t);
            assert(s.last() == s[1]);
        } else {
            assert(s =~= t);
        }
    }
}

fn octets_of(b: &[u8], n: u32) -> (r: Option<Vec<u8>>)
    requires
        1 <= n <= 4,
    ensures
        match octets(b@, n as nat) {
            Some(o) => r matches Some(v) && v@ == o,
            None => r is None,
        },
    decreases n,
{
    if n <= 1 {
        return match octet_value(b) {
            Some(o) => {
                let mut v: Vec<u8> = Vec::new();
                v.push(o);
                assert(v@ =~= seq![o]);
                Some(v)
            },
            None => None,
        };
    }
    match crate::text::find_byte(b, 0x2e) {
        Some(i) => {
            proof {
                crate::text::lemma_first_index(b@, 0x2e);
            }
            assert(i < b.len());
            let head = crate::text::slice_between(b, 0, i);
            let tail = crate::text::slice_between(b, i + 1, b.len());
            assert(head@ =~= b@.take(i as int));
            assert(tail@ =~= b@.skip(i + 1));
            match (octet_value(head.as_slice()), octets_of(tail.as_slice(), n - 1)) {
                (Some(o), Some(rest)) => {
                    let mut v: Vec<u8> = Vec::new();
                    v.push(o);
                    let mut k: usize = 0;
                    while k < rest.len()
                        invariant
                            k <= rest@.len(),
                            v@ == seq![o] + rest@.take(k as int),
                        decreases rest@.len() - k,
                    {
                        v.push(rest[k]);
                        k = k + 1;
                        assert(v@ =~= seq![o] + rest@.take(k as int));
                    }
                    assert(rest@.take(rest@.len() as int) =~= rest@);
                    Some(v)
                },
                _ => None,
            }
        },
        None => None,
    }
}

/// Whether a host is a loopback host.
pub fn is_loopback_host(host: &str) -> (r: bool)
    ensures
        r == loopback_host(host@),
{
    let lower = crate::text::to_ascii_lowercase(host);
    if crate::protocol::str_eq(lower.as_str(), "localhost") {
        return true;
    }
    proof {
        vstd::utf8::encode_utf8_decode_utf8(host@);
    }
    let b = host.as_bytes();
    match octets_of(b, 4) {
        Some(o) => {
            proof {
                assert(o@.len() >= 1) by {
                    lemma_octets_len(b@, 4);
                }
            }
            o[0] == 127
        },
        None => false,
    }
}

proof fn lemma_octets_len(b: Seq<u8>, n: nat)
    requires
        n >= 1,
    ensures
        octets(b, n) matches Some(o) ==> o.len() == n,
    decreases n,
{
    if n > 1 {
        if let Some(i) = first_index(b, 0x2e) {
            lemma_octets_len(b.skip(i + 1), (n - 1) as nat);
        }
    }
}

/// Why an origin cannot be the relay's upstream, if it cannot: it must use
/// a WebSocket scheme, name a host, carry no credentials and no query or
/// fragment, and a plain `ws://` origin must be a loopback host.
pub open spec fn upstream_problem(v: UrlView) -> Option<Seq<char>> {
    if !ws_scheme(v.scheme) {
        Some("upstream origin must use ws:// or wss://"@)
    } else if v.host is None {
        Some("upstream origin must include a host"@)
    } else if v.username != Seq::<char>::empty() || v.password is Some {
        Some("upstream origin must not contain credentials"@)
    } else if v.query is Some || v.fragment is Some {
        Some("upstream origin must not contain a query or fragment"@)
    } else if v.scheme == "ws"@ && !loopback_host(v.host.unwrap()) {
        Some("remote upstream origins must use wss://"@)
    } else {
        None
    }
}

/// Checks an origin before the relay connects to it.
pub fn validate_upstream_origin(origin: &UrlParts) -> (r: Result<(), String>)
    ensures
        match upstream_problem(origin@) {
            None => r is Ok,
            Some(p) => r matches Err(e) && e@ == p,
        },
{
    if !(crate::protocol::str_eq(origin.scheme.as_str(), "ws") || crate::protocol::str_eq(origin.scheme.as_str(), "wss")) {
        return Err(String::from_str("upstream origin must use ws:// or wss://"));
    }
    let host = match &origin.host {
        Some(h) => h,
        None => {
            return Err(String::from_str("upstream origin must include a host"));
        },
    };
    if origin.username.as_str().unicode_len() != 0 || origin.password.is_some() {
        proof {
            if origin.username@.len() == 0 {
                assert(origin.username@ =~= Seq::<char>::empty());
            }
        }
        return Err(String::from_str("upstream origin must not contain credentials"));
    }
    assert(origin.username@ =~= Seq::<char>::empty());
    if origin.query.is_some() || origin.fragment.is_some() {
        return Err(String::from_str("upstream origin must not contain a query or fragment"));
    }
    if crate::protocol::str_eq(origin.scheme.as_str(), "ws") && !is_loopback_host(host.as_str()) {
        return Err(String::from_str("remote upstream origins must use wss://"));
    }
    Ok(())
}

/// Parses an origin for the relay's upstream.
pub fn parse_origin(s: &str) -> (r: Result<UrlParts, String>)
    ensures
        match parsed_url(s@) {
            Some(v) => r matches Ok(p) && p@ == v,
            None => r matches Err(e) && e@ == url_error(s@),
        },
{
    crate::websocket::parse_url(s)
}

/// What `url::Url::parse(base)` joined with a target (`Url::join`) makes of
/// them: the joined URL's parts, or nothing when either step fails.
pub uninterp spec fn joined_url(base: Seq<char>, target: Seq<char>) -> Option<UrlView>;

/// The message of the error that parsing the base or joining the target
/// gives.
pub uninterp spec fn join_error(base: Seq<char>, target: Seq<char>) -> Seq<char>;

/// Calls `url::Url::parse` on the base and `Url::join` with the target, and
/// reads the joined URL's parts. What the join makes is only named here.
#[verifier::external_body]
fn url_join(base: &str, target: &str) -> (r: Result<UrlParts, String>)
    ensures
        match joined_url(base@, target@) {
            Some(v) => r matches Ok(p) && p@ == v,
            None => r matches Err(e) && e@ == join_error(base@, target@),
        },
{
    match url::Url::parse(base).and_then(|b| b.join(target)) {
        Ok(u) => Ok(UrlParts {
            scheme: u.scheme().to_string(),
            host: u.host_str().map(|h| h.to_string()),
            username: u.username().to_string(),
            password: u.password().map(|p| p.to_string()),
            path: u.path().to_string(),
            query: u.query().map(|q| q.to_string()),
            fragment: u.fragment().map(|f| f.to_string()),
        }),
        Err(e) => Err(format!("{}", e)),
    }
}

/// The URL that `with_path_query_fragment` writes for an origin, a path, a
/// query and a fragment.
pub uninterp spec fn rebased_url_text(
    origin: Seq<char>,
    path: Seq<char>,
    query: Option<Seq<char>>,
    fragment: Option<Seq<char>>,
) -> Option<Seq<char>>;

pub open spec fn opt_str(s: Option<&str>) -> Option<Seq<char>> {
    match s {
        Some(q) => Some(q@),
        None => None,
    }
}

/// The characters of an optional text.
pub open spec fn opt_len(s: Option<Seq<char>>) -> nat {
    match s {
        Some(t) => t.len(),
        None => 0,
    }
}

/// Calls `url::Url::parse` on the origin, then `set_path`, `set_query` and
/// `set_fragment`, and writes the URL as text. It gives nothing only when
/// the origin does not parse; the text itself is only named. The crate's
/// setters unwrap 32-bit offsets, so the input must keep the URL within
/// them.
#[verifier::external_body]
fn with_path_query_fragment(origin: &str, path: &str, query: Option<&str>, fragment: Option<&str>) -> (r: Option<
    String,
>)
    requires
        crate::websocket::url_fits(origin@.len() + path@.len() + opt_len(opt_str(query)) + opt_len(opt_str(fragment))),
    ensures
        match rebased_url_text(origin@, path@, opt_str(query), opt_str(fragment)) {
            Some(t) => r matches Some(x) && x@ == t,
            None => r is None,
        },
        parsed_url(origin@) is Some ==> r is Some,
{
    let mut u = url::Url::parse(origin).ok()?;
    u.set_path(path);
    u.set_query(query);
    u.set_fragment(fragment);
    Some(u.into())
}

/// The placeholder origin a bare request target is read against.
pub const RELAY_PLACEHOLDER_ORIGIN: &'static str = "ws://relay.invalid";

/// The request a client makes, read as a URL: the target itself when it is
/// one, else joined to a placeholder origin.
pub open spec fn request_url(target: Seq<char>) -> Result<UrlView, Seq<char>> {
    match parsed_url(target) {
        Some(v) => Ok(v),
        None => match joined_url(RELAY_PLACEHOLDER_ORIGIN@, target) {
            Some(v) => Ok(v),
            None => Err("invalid client request target: "@ + join_error(RELAY_PLACEHOLDER_ORIGIN@, target)),
        },
    }
}

/// What the upstream URL of a client's request is: the origin with the
/// request's path and query, and no fragment; refused when the URL's text
/// could pass the `url` crate's 32-bit offsets.
pub open spec fn upstream_outcome(origin: Seq<char>, target: Seq<char>) -> Result<Seq<char>, Seq<char>> {
    match request_url(target) {
        Err(e) => Err(e),
        Ok(v) => match parsed_url(origin) {
            None => Err("invalid upstream origin: "@ + url_error(origin)),
            Some(_) => if !crate::websocket::url_fits(origin.len() + v.path.len() + opt_len(v.query)) {
                Err("upstream URL too long"@)
            } else {
                match rebased_url_text(origin, v.path, v.query, None) {
                    Some(t) => Ok(t),
                    None => Err(Seq::empty()),
                }
            },
        },
    }
}

/// The upstream URL of a client's request: the origin keeps its scheme and
/// host and takes the request's path and query. A URL whose text could pass
/// the `url` crate's 32-bit offsets is refused.
pub fn build_upstream_url(origin: &str, request_target: &str) -> (r: Result<String, String>)
    ensures
        match upstream_outcome(origin@, request_target@) {
            Ok(t) => r matches Ok(x) && x@ == t,
            Err(e) => r matches Err(x) && x@ == e,
        },
{
    let req = match crate::websocket::parse_url(request_target) {
        Ok(p) => p,
        Err(_) => match url_join(RELAY_PLACEHOLDER_ORIGIN, request_target) {
            Ok(p) => p,
            Err(e) => {
                let mut m = String::from_str("invalid client request target: ");
                m.append(e.as_str());
                return Err(m);
            },
        },
    };
    if let Err(e) = crate::websocket::parse_url(origin) {
        let mut m = String::from_str("invalid upstream origin: ");
        m.append(e.as_str());
        return Err(m);
    }
    let query: Option<&str> = match &req.query {
        Some(q) => Some(q.as_str()),
        None => None,
    };
    let n = origin.unicode_len() as u64;
    let m = req.path.as_str().unicode_len() as u64;
    let k: u64 = match query {
        Some(q) => q.unicode_len() as u64,
        None => 0,
    };
    if n > 0x1600_0000 || m > 0x1600_0000 || k > 0x1600_0000 || 12 * (n + m + k) + 1024 > 0xffff_ffff {
        return Err(String::from_str("upstream URL too long"));
    }
    match with_path_query_fragment(origin, req.path.as_str(), query, None) {
        Some(u) => Ok(u),
        None => Err(String::new()),
    }
}


/// What is wrong with the relay's sizes, if anything: the capture channel
/// holds 1 to 4096 frames, 1 to 256 connections are relayed at once, and the
/// capture queue keeps 1 to 256 MiB.
pub open spec fn relay_settings_problem(channel_capacity: usize, max_connections: usize, max_queued_capture_mb: usize) -> Option<
    Seq<char>,
> {
    if !(1 <= channel_capacity <= 4096) {
        Some("channel_capacity must be between 1 and 4096"@)
    } else if !(1 <= max_connections <= 256) {
        Some("max_connections must be between 1 and 256"@)
    } else if !(1 <= max_queued_capture_mb <= 256) {
        Some("max_queued_capture_mb must be between 1 and 256"@)
    } else {
        None
    }
}

/// Checks the relay's sizes before it starts.
pub fn check_relay_settings(channel_capacity: usize, max_connections: usize, max_queued_capture_mb: usize) -> (r: Result<
    (),
    String,
>)
    ensures
        match relay_settings_problem(channel_capacity, max_connections, max_queued_capture_mb) {
            Some(e) => r matches Err(x) && x@ == e,
            None => r is Ok,
        },
{
    if !(1 <= channel_capacity && channel_capacity <= 4096) {
        return Err(String::from_str("channel_capacity must be between 1 and 4096"));
    }
    if !(1 <= max_connections && max_connections <= 256) {
        return Err(String::from_str("max_connections must be between 1 and 256"));
    }
    if !(1 <= max_queued_capture_mb && max_queued_capture_mb <= 256) {
        return Err(String::from_str("max_queued_capture_mb must be between 1 and 256"));
    }
    Ok(())
}

} // verus!
