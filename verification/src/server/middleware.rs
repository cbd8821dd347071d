//! What holds of every request: the headers that protect the browser, and where a request that
//! changes something may come from.

use crate::server::config::{origin, Config};
use crate::server::db::text_view;
use crate::text::{chars_of, concat2, has_prefix, same, starts_with, string_of, strip_prefix, views};
use vstd::prelude::*;
use vstd::string::*;

verus! {

/// The origin of the server for WebSocket connections.
pub open spec fn ws_origin(origin: Seq<char>) -> Seq<char> {
    if starts_with(origin, "https://"@) {
        "wss://"@ + origin.skip("https://"@.len() as int)
    } else if starts_with(origin, "http://"@) {
        "ws://"@ + origin.skip("http://"@.len() as int)
    } else {
        origin
    }
}

/// What a page may load: things of the server itself, and connections to it.
pub open spec fn content_policy(origin: Seq<char>) -> Seq<char> {
    "default-src 'none'; script-src 'self'; style-src 'self'; img-src 'self' data:; connect-src 'self' "@
        + ws_origin(origin)
        + "; font-src 'self'; object-src 'none'; base-uri 'none'; form-action 'self'; frame-ancestors 'none'"@
}

/// What a page may load.
pub fn csp(public_origin: &str) -> (r: String)
    ensures
        r@ == content_policy(public_origin@),
{
    let v = chars_of(public_origin);
    let ws = match strip_prefix(v.as_slice(), "https://") {
        Some(rest) => concat2("wss://", string_of(rest).as_str()),
        None => match strip_prefix(v.as_slice(), "http://") {
            Some(rest) => concat2("ws://", string_of(rest).as_str()),
            None => public_origin.to_string(),
        },
    };
    let mut s =
        "default-src 'none'; script-src 'self'; style-src 'self'; img-src 'self' data:; connect-src 'self' ".to_string();
    s.append(ws.as_str());
    s.append(
        "; font-src 'self'; object-src 'none'; base-uri 'none'; form-action 'self'; frame-ancestors 'none'",
    );
    s
}

/// The headers of every answer, beside the one that says what a page may load.
pub open spec fn fixed_headers(hsts: bool, path: Seq<char>) -> Seq<(Seq<char>, Seq<char>)> {
    seq![
        ("x-content-type-options"@, "nosniff"@),
        ("x-frame-options"@, "DENY"@),
        ("referrer-policy"@, "no-referrer"@),
        ("permissions-policy"@, "camera=(), microphone=(), geolocation=()"@),
    ] + if hsts {
        seq![("strict-transport-security"@, "max-age=63072000"@)]
    } else {
        Seq::empty()
    } + if starts_with(path, "/api/"@) {
        seq![("cache-control"@, "no-store"@)]
    } else {
        Seq::empty()
    }
}

/// The headers of every answer: browsers do not guess at types, show no page inside another, tell no
/// address to others, and come back over TLS alone where the configuration says so; answers of the
/// interface are not stored.
pub fn security_headers(cfg: &Config, path: &str) -> (r: Vec<(&'static str, &'static str)>)
    ensures
        views(r@) == fixed_headers(cfg.security.hsts, path@),
{
    let mut h: Vec<(&'static str, &'static str)> = Vec::new();
    h.push(("x-content-type-options", "nosniff"));
    h.push(("x-frame-options", "DENY"));
    h.push(("referrer-policy", "no-referrer"));
    h.push(("permissions-policy", "camera=(), microphone=(), geolocation=()"));
    if cfg.security.hsts {
        h.push(("strict-transport-security", "max-age=63072000"));
    }
    let v = chars_of(path);
    if has_prefix(v.as_slice(), "/api/") {
        h.push(("cache-control", "no-store"));
    }
    assert(views(h@) =~= fixed_headers(cfg.security.hsts, path@));
    h
}

/// A request that changes something and comes with a session.
pub open spec fn guarded(method: Seq<char>, path: Seq<char>) -> bool {
    (method == "POST"@ || method == "PUT"@ || method == "PATCH"@ || method == "DELETE"@)
        && starts_with(path, "/api/"@) && !starts_with(path, "/api/agent/"@)
}

/// A request may go on: one that changes something comes from an origin of the server, or, from a
/// client that sends no origin, with a header that other sites cannot send.
pub open spec fn may_go_on(
    method: Seq<char>,
    path: Seq<char>,
    origin: Option<Seq<char>>,
    has_own_header: bool,
    allowed: Seq<Seq<char>>,
) -> bool {
    guarded(method, path) ==> match origin {
        Some(o) => allowed.contains(o),
        None => has_own_header,
    }
}

/// Whether a text is among some texts.
pub fn is_among(s: &str, v: &[String]) -> (r: bool)
    ensures
        r == views(v@).contains(s@),
{
    let ghost all = views(v@);
    let mut i: usize = 0;
    while i < v.len()
        invariant
            all == views(v@),
            i <= v@.len(),
            forall|j: int| 0 <= j < i ==> #[trigger] all[j] != s@,
        decreases v@.len() - i,
    {
        assert(all[i as int] == v@[i as int]@);
        if same(v[i].as_str(), s) {
            return true;
        }
        i = i + 1;
    }
    false
}

/// Whether a request may go on.
pub fn csrf_origin_check(
    method: &str,
    path: &str,
    origin: Option<&str>,
    has_own_header: bool,
    allowed: &[String],
) -> (r: bool)
    ensures
        r == may_go_on(method@, path@, text_view(origin), has_own_header, views(allowed@)),
{
    let changes = same(method, "POST") || same(method, "PUT") || same(method, "PATCH") || same(
        method,
        "DELETE",
    );
    let p = chars_of(path);
    if changes && has_prefix(p.as_slice(), "/api/") && !has_prefix(p.as_slice(), "/api/agent/") {
        match origin {
            Some(o) => is_among(o, allowed),
            None => has_own_header,
        }
    } else {
        true
    }
}

/// A page of another site cannot change anything: a browser sends the origin of the page, and with a
/// foreign one no request that changes something goes on, whatever else it holds.
pub proof fn lemma_foreign_sites_change_nothing(
    method: Seq<char>,
    path: Seq<char>,
    origin: Seq<char>,
    has_own_header: bool,
    allowed: Seq<Seq<char>>,
)
    requires
        guarded(method, path),
        !allowed.contains(origin),
    ensures
        !may_go_on(method, path, Some(origin), has_own_header, allowed),
{
}

} // verus!
