//! The addresses of the game's WebSocket: the agent URL a token connects
//! to, and the checks an origin (the game's, or a relay's upstream) must
//! pass. URLs are parsed and written by the `url` crate; the rules are this
//! library's.

use vstd::prelude::*;

verus! {

/// The parts of a parsed URL that the rules read.
pub struct UrlParts {
    pub scheme: String,
    pub host: Option<String>,
    pub username: String,
    pub password: Option<String>,
    pub path: String,
    pub query: Option<String>,
    pub fragment: Option<String>,
}

/// The parts of a parsed URL, as text.
pub ghost struct UrlView {
    pub scheme: Seq<char>,
    pub host: Option<Seq<char>>,
    pub username: Seq<char>,
    pub password: Option<Seq<char>>,
    pub path: Seq<char>,
    pub query: Option<Seq<char>>,
    pub fragment: Option<Seq<char>>,
}

pub open spec fn opt_view(s: Option<String>) -> Option<Seq<char>> {
    match s {
        Some(x) => Some(x@),
        None => None,
    }
}

impl View for UrlParts {
    type V = UrlView;

    open spec fn view(&self) -> UrlView {
        UrlView {
            scheme: self.scheme@,
            host: opt_view(self.host),
            username: self.username@,
            password: opt_view(self.password),
            path: self.path@,
            query: opt_view(self.query),
            fragment: opt_view(self.fragment),
        }
    }
}

/// What `url::Url::parse` makes of a text: its parts, or nothing when the
/// text is not a URL.
pub uninterp spec fn parsed_url(s: Seq<char>) -> Option<UrlView>;

/// The message of the error `url::Url::parse` gives for a text that is not
/// a URL.
pub uninterp spec fn url_error(s: Seq<char>) -> Seq<char>;

/// Calls `url::Url::parse` and reads the parsed URL's parts (`scheme`,
/// `host_str`, `username`, `password`, `path`, `query`, `fragment`). Which
/// texts parse, and into what, is only named here.
#[verifier::external_body]
pub(crate) fn parse_url(s: &str) -> (r: Result<UrlParts, String>)
    ensures
        match parsed_url(s@) {
            Some(v) => r matches Ok(p) && p@ == v,
            None => r matches Err(e) && e@ == url_error(s@),
        },
{
    match url::Url::parse(s) {
        Ok(u) => Ok(UrlParts {
            scheme: u.scheme().to_string(),
            host: u.host_str().map(|h| h.to_string()),
            username: u.username().to_string(),
            password: u.password().map(|p| p.to_string()),
            path: u.path().to_string(),
            query: u.query().map(|q| q.to_string()),
            fragment: u.fragment().map(|f| f.to_string()),
        }),
        Err(e) => Err(format!("{}", e)),
    }
}

/// The URL that `url_with_path_and_pairs` writes for a base, a path and
/// query pairs.
pub uninterp spec fn url_with(base: Seq<char>, path: Seq<char>, pairs: Seq<(Seq<char>, Seq<char>)>) -> Option<
    Seq<char>,
>;

/// Query pairs as text.
pub open spec fn pairs_view(pairs: Seq<(String, String)>) -> Seq<(Seq<char>, Seq<char>)> {
    pairs.map_values(|p: (String, String)| (p.0@, p.1@))
}

/// Whether a URL made of `chars` characters of input stays within the `url`
/// crate's 32-bit offsets: each character may become twelve bytes once
/// percent-encoded (four UTF-8 bytes, three bytes each), with room for the
/// separators the crate adds.
pub open spec fn url_fits(chars: nat) -> bool {
    12 * chars + 1024 <= u32::MAX
}

/// The characters of query pairs, with a separator for each key, value and
/// pair.
pub open spec fn pairs_chars(ps: Seq<(Seq<char>, Seq<char>)>) -> nat
    decreases ps.len(),
{
    if ps.len() == 0 {
        0
    } else {
        pairs_chars(ps.drop_last()) + ps.last().0.len() + ps.last().1.len() + 2
    }
}

/// Calls `url::Url::parse` on the base, then `set_path` with the path and
/// `query_pairs_mut().append_pair` with each pair in order, and writes the
/// URL as text. It gives nothing only when the base does not parse; the text
/// itself is only named. The crate's setters unwrap 32-bit offsets, so the
/// input must keep the URL within them.
#[verifier::external_body]
fn url_with_path_and_pairs(base: &str, path: &str, pairs: &Vec<(String, String)>) -> (r: Option<String>)
    requires
        url_fits(base@.len() + path@.len() + pairs_chars(pairs_view(pairs@))),
    ensures
        match url_with(base@, path@, pairs_view(pairs@)) {
            Some(t) => r matches Some(x) && x@ == t,
            None => r is None,
        },
        parsed_url(base@) is Some ==> r is Some,
{
    let mut u = url::Url::parse(base).ok()?;
    u.set_path(path);
    {
        let mut q = u.query_pairs_mut();
        for (k, v) in pairs.iter() {
            q.append_pair(k, v);
        }
    }
    Some(u.into())
}

/// The query pairs of a token's game URL: the token as `p`, then `e=x` and
/// `lang=chinese`.
pub open spec fn agent_pairs(token: Seq<char>) -> Seq<(Seq<char>, Seq<char>)> {
    seq![("p"@, token), ("e"@, "x"@), ("lang"@, "chinese"@)]
}

/// The game's own WebSocket origin.
pub const GAME_ORIGIN: &'static str = "wss://xxz-xyzw.hortorgames.com";

/// Whether a scheme is a WebSocket scheme.
pub open spec fn ws_scheme(s: Seq<char>) -> bool {
    s == "ws"@ || s == "wss"@
}

/// Why a base URL cannot serve as the game's WebSocket origin, if it
/// cannot: it must use a WebSocket scheme, name a host, carry no
/// credentials, and have no query or fragment.
pub open spec fn base_problem(v: UrlView) -> Option<Seq<char>> {
    if !ws_scheme(v.scheme) {
        Some("WebSocket base URL must use ws:// or wss://"@)
    } else if v.host is None || v.username != Seq::<char>::empty() || v.password is Some {
        Some("WebSocket base URL must be an origin without credentials"@)
    } else if v.query is Some || v.fragment is Some {
        Some("WebSocket base URL must not contain a query or fragment"@)
    } else {
        None
    }
}

/// What building a token's URL on a base gives.
pub open spec fn agent_url_outcome(token: Seq<char>, base: Seq<char>) -> Result<Seq<char>, Seq<char>> {
    match parsed_url(base) {
        None => Err("invalid WebSocket base URL: "@ + url_error(base)),
        Some(v) => match base_problem(v) {
            Some(p) => Err(p),
            None => match url_with(base, "/agent"@, agent_pairs(token)) {
                Some(t) => Ok(t),
                None => Err(Seq::empty()),
            },
        },
    }
}

fn is_ws_scheme(s: &str) -> (r: bool)
    ensures
        r == ws_scheme(s@),
{
    crate::protocol::str_eq(s, "ws") || crate::protocol::str_eq(s, "wss")
}

/// The game WebSocket URL of a token on another origin, such as a local
/// relay: the origin's `/agent` path with the token, `e=x` and
/// `lang=chinese` as query pairs.
pub fn build_url_with_base(token_json: &str, base_url: &str) -> (r: Result<String, String>)
    requires
        url_fits(base_url@.len() + token_json@.len() + 64),
    ensures
        match agent_url_outcome(token_json@, base_url@) {
            Ok(t) => r matches Ok(x) && x@ == t,
            Err(e) => r matches Err(x) && x@ == e,
        },
{
    let parts = match parse_url(base_url) {
        Ok(p) => p,
        Err(e) => {
            let mut m = String::from_str("invalid WebSocket base URL: ");
            m.append(e.as_str());
            return Err(m);
        },
    };
    if !is_ws_scheme(parts.scheme.as_str()) {
        return Err(String::from_str("WebSocket base URL must use ws:// or wss://"));
    }
    if parts.host.is_none() || parts.username.as_str().unicode_len() != 0 || parts.password.is_some() {
        proof {
            if parts.username@.len() == 0 {
                assert(parts.username@ =~= Seq::<char>::empty());
            }
        }
        return Err(String::from_str("WebSocket base URL must be an origin without credentials"));
    }
    assert(parts.username@ =~= Seq::<char>::empty());
    if parts.query.is_some() || parts.fragment.is_some() {
        return Err(String::from_str("WebSocket base URL must not contain a query or fragment"));
    }
    let mut pairs: Vec<(String, String)> = Vec::new();
    pairs.push((String::from_str("p"), String::from_str(token_json)));
    pairs.push((String::from_str("e"), String::from_str("x")));
    pairs.push((String::from_str("lang"), String::from_str("chinese")));
    proof {
        reveal_strlit("p");
        reveal_strlit("e");
        reveal_strlit("x");
        reveal_strlit("lang");
        reveal_strlit("chinese");
        assert(pairs_view(pairs@) =~= agent_pairs(token_json@));
        reveal_with_fuel(pairs_chars, 4);
        let ap = agent_pairs(token_json@);
        assert(ap.drop_last().drop_last().drop_last() =~= Seq::<(Seq<char>, Seq<char>)>::empty());
        assert(pairs_chars(ap) == token_json@.len() + 20);
        reveal_strlit("/agent");
    }
    match url_with_path_and_pairs(base_url, "/agent", &pairs) {
        Some(u) => Ok(u),
        None => Err(String::new()),
    }
}

/// The game WebSocket URL of a token, on the game's own origin.
pub fn build_url(token_json: &str) -> (r: Result<String, String>)
    requires
        url_fits(token_json@.len() + 128),
    ensures
        match agent_url_outcome(token_json@, GAME_ORIGIN@) {
            Ok(t) => r matches Ok(x) && x@ == t,
            Err(e) => r matches Err(x) && x@ == e,
        },
{
    proof {
        reveal_strlit("wss://xxz-xyzw.hortorgames.com");
    }
    build_url_with_base(token_json, GAME_ORIGIN)
}

} // verus!
