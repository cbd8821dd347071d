//! Who is let in: codes, cookies, tokens and addresses.

use crate::ip::{ip_value, IpAddr};
use crate::laws::notify::lemma_in_between;
use crate::num::{all_digits, decimal, decimal_int, digits_value, lemma_decimal};
use crate::server::apiauth::{borne, read_token_shape};
use crate::server::config::{
    addresses, config_fault, good_scheme, good_schemes, origin, session_cookie,
    trusted, Config,
};
use crate::server::middleware::{content_policy, fixed_headers, guarded, may_go_on, ws_origin};
use crate::server::session::{brought_token, cookie_text, token_shape, ttl};
use crate::server::startup::{admin_name, admin_secret, username_flag, without_end};
use crate::server::totp::{
    code_form, code_text, eight_bytes, plain_byte, step_of, upper_hex, uri_byte, uri_bytes, uri_text,
};
use crate::server::util::{client_of, cookie_in, cookie_part};
use crate::text::{
    before, contains, ends_with, first_index, is_space, lemma_first_index, pieces,
    starts_with, trim_end, trim_start, trimmed,
};
use crate::server::startup::{command_of, known_filename, known_target, Command};
use crate::server::state::{allowed, NetCfg};
use crate::server::totp::{
    base32_letter, base32_value, code_in, code_matches, hotp_of, quintet, step_before,
};
use crate::server::config::listens_on;
use crate::server::crypto::{many_lanes, many_lanes_at};
use crate::server::totp::base32_values;
use vstd::prelude::*;
use vstd::string::*;
use vstd::utf8::encode_utf8;

verus! {

// ---------------------------------------------------------------------------
// Codes
// ---------------------------------------------------------------------------

/// A counter is written as the eight bytes whose value it is, the greatest first.
pub proof fn lemma_counter_bytes(n: u64)
    ensures
        ({
            let b = eight_bytes(n);
            &&& b.len() == 8
            &&& n == b[0] * 0x100_0000_0000_0000 + b[1] * 0x1_0000_0000_0000 + b[2]
                * 0x100_0000_0000 + b[3] * 0x1_0000_0000 + b[4] * 0x100_0000 + b[5] * 0x1_0000 + b[6]
                * 0x100 + b[7]
        }),
{
    let h = n / 0x1_0000_0000;
    let l = n % 0x1_0000_0000;
    assert(h < 0x1_0000_0000 && n / 0x100_0000_0000_0000 == h / 0x100_0000 && (n
        / 0x1_0000_0000_0000) % 256 == (h / 0x1_0000) % 256 && (n / 0x100_0000_0000) % 256 == (h
        / 0x100) % 256 && (n / 0x1_0000_0000) % 256 == h % 256 && (n / 0x100_0000) % 256 == l
        / 0x100_0000 && (n / 0x1_0000) % 256 == (l / 0x1_0000) % 256 && (n / 0x100) % 256 == (l
        / 0x100) % 256 && n % 256 == l % 256) by (bit_vector)
        requires
            h == n / 0x1_0000_0000,
            l == n % 0x1_0000_0000,
    ;
    lemma_four_bytes(h);
    lemma_four_bytes(l);
}

proof fn lemma_four_bytes(h: u64)
    requires
        h < 0x1_0000_0000,
    ensures
        h / 0x100_0000 < 256,
        h == (h / 0x100_0000) * 0x100_0000 + ((h / 0x1_0000) % 256) * 0x1_0000 + ((h / 0x100) % 256)
            * 0x100 + h % 256,
{
    assert(h / 0x1_0000 == (h / 0x100) / 0x100);
    assert(h / 0x100_0000 == (h / 0x1_0000) / 0x100);
}

/// A step lasts thirty seconds.
pub proof fn lemma_step(k: int, now: i64)
    requires
        0 <= 30 * k <= now < 30 * k + 30,
    ensures
        step_of(now) == k,
{
    assert(now as int / 30 == k) by (nonlinear_arith)
        requires
            30 * k <= now < 30 * k + 30,
    ;
}

/// A code is told in six digits that stand for it.
pub proof fn lemma_code_text(n: nat)
    requires
        n < 1_000_000,
    ensures
        code_text(n).len() == 6,
        all_digits(code_text(n)),
        digits_value(code_text(n)) == n,
        code_form(code_text(n)),
{
    lemma_decimal(n);
    assert(vstd::arithmetic::power::pow(10, 6) == 1_000_000) by {
        reveal_with_fuel(vstd::arithmetic::power::pow, 7);
    }
    lemma_digits_needed(n, 6);
    let d = decimal(n);
    let z = Seq::new((6 - d.len()) as nat, |i: int| '0');
    if d.len() < 6 {
        lemma_zeros_in_front(z, d);
        assert(code_text(n) =~= z + d);
    }
    let s = code_text(n);
    assert forall|i: int| 0 <= i < s.len() implies crate::text::is_digit(#[trigger] s[i]) by {
        if d.len() < 6 {
            if i >= z.len() {
                assert(s[i] == d[i - z.len()]);
            }
        }
    }
}

proof fn lemma_digits_needed(n: nat, k: nat)
    requires
        k >= 1,
        n < vstd::arithmetic::power::pow(10, k),
    ensures
        1 <= decimal(n).len() <= k,
    decreases k,
{
    if n >= 10 {
        if k == 1 {
            vstd::arithmetic::power::lemma_pow1(10);
        } else {
            vstd::arithmetic::power::lemma_pow_adds(10, 1, (k - 1) as nat);
            vstd::arithmetic::power::lemma_pow1(10);
            lemma_digits_needed(n / 10, (k - 1) as nat);
        }
    }
}

proof fn lemma_zeros_in_front(z: Seq<char>, d: Seq<char>)
    requires
        forall|i: int| 0 <= i < z.len() ==> #[trigger] z[i] == '0',
    ensures
        digits_value(z + d) == digits_value(d),
    decreases z.len() + d.len(),
{
    if d.len() > 0 {
        lemma_zeros_in_front(z, d.drop_last());
        assert((z + d).drop_last() =~= z + d.drop_last());
        assert((z + d).last() == d.last());
    } else if z.len() > 0 {
        let t = z.drop_last();
        assert forall|i: int| 0 <= i < t.len() implies #[trigger] t[i] == '0' by {
            assert(t[i] == z[i]);
        }
        lemma_zeros_in_front(t, d);
        assert((z + d).drop_last() =~= t + d);
        assert((z + d).last() == z[z.len() - 1]);
    }
}

/// In an address, letters, digits and a few signs stand for themselves, and every other byte is told by
/// its two digits to the base sixteen behind a percent sign.
pub proof fn lemma_escaped_byte(b: u8)
    ensures
        plain_byte(b) ==> uri_byte(b) == seq![b as char],
        !plain_byte(b) ==> uri_byte(b).len() == 3 && uri_byte(b)[0] == '%',
        !plain_byte(b) ==> exists|h: int, l: int|
            0 <= h < 16 && 0 <= l < 16 && 16 * h + l == b && uri_byte(b)[1] == #[trigger] upper_hex(h)
                && uri_byte(b)[2] == #[trigger] upper_hex(l),
{
    let (h, l) = (b as int / 16, b as int % 16);
    if !plain_byte(b) {
        assert(16 * h + l == b);
        assert(uri_byte(b)[1] == upper_hex(h) && uri_byte(b)[2] == upper_hex(l));
    }
}

/// Bytes are told one by one.
pub proof fn lemma_escaped_bytes(a: Seq<u8>, b: Seq<u8>, c: u8)
    ensures
        uri_bytes(a + b) == uri_bytes(a) + uri_bytes(b),
        uri_bytes(seq![c]) == uri_byte(c),
    decreases b.len(),
{
    assert(seq![c].drop_last() =~= Seq::empty());
    assert(uri_bytes(Seq::<u8>::empty()) + uri_byte(c) =~= uri_byte(c));
    if b.len() == 0 {
        assert(a + b =~= a);
        assert(uri_bytes(a) + uri_bytes(b) =~= uri_bytes(a));
    } else {
        lemma_escaped_bytes(a, b.drop_last(), c);
        assert((a + b).drop_last() =~= a + b.drop_last());
        assert(uri_bytes(a + b) =~= uri_bytes(a) + uri_bytes(b));
    }
}

/// The address that an authenticator reads tells the secret, the account and who issued it, six digits
/// and thirty seconds.
pub proof fn lemma_address_tells(secret: Seq<char>, account: Seq<char>, issuer: Seq<char>)
    ensures
        ({
            let s = uri_text(secret, account, issuer);
            let (a, i) = (uri_bytes(encode_utf8(account)), uri_bytes(encode_utf8(issuer)));
            &&& starts_with(s, "otpauth://totp/"@ + i + ":"@ + a + "?"@)
            &&& contains(s, "?secret="@ + secret + "&"@)
            &&& contains(s, "&issuer="@ + i + "&"@)
            &&& ends_with(s, "&digits=6&period=30"@)
        }),
{
    let s = uri_text(secret, account, issuer);
    let (a, i) = (uri_bytes(encode_utf8(account)), uri_bytes(encode_utf8(issuer)));
    reveal_strlit("?secret=");
    reveal_strlit("?");
    reveal_strlit("secret=");
    reveal_strlit("&issuer=");
    reveal_strlit("&");
    reveal_strlit("issuer=");
    reveal_strlit("&digits=6&period=30");
    reveal_strlit("digits=6&period=30");
    let h = "otpauth://totp/"@ + i + ":"@ + a;
    let e = "&digits=6&period=30"@;
    assert("?secret="@ =~= "?"@ + "secret="@);
    assert("&issuer="@ =~= "&"@ + "issuer="@);
    assert(e =~= "&"@ + "digits=6&period=30"@);
    assert(s.take((h + "?"@).len() as int) =~= h + "?"@);
    assert(s.skip(s.len() - e.len()) =~= e);
    lemma_in_between(h, "?secret="@ + secret + "&"@, "issuer="@ + i + e);
    assert(h + ("?secret="@ + secret + "&"@) + ("issuer="@ + i + e) =~= s);
    lemma_in_between(h + "?secret="@ + secret, "&issuer="@ + i + "&"@, "digits=6&period=30"@);
    assert(h + "?secret="@ + secret + ("&issuer="@ + i + "&"@) + "digits=6&period=30"@ =~= s);
}

// ---------------------------------------------------------------------------
// Cookies
// ---------------------------------------------------------------------------

/// A text that nothing is trimmed off.
pub open spec fn tight(s: Seq<char>) -> bool {
    s.len() > 0 ==> !is_space(s[0]) && !is_space(s.last())
}

proof fn lemma_tight(s: Seq<char>)
    requires
        tight(s),
    ensures
        trimmed(s) == s,
        trimmed(seq![' '] + s) == s,
{
    assert(trim_start(s) == s);
    assert(trim_end(s) == s);
    let t = seq![' '] + s;
    assert(t[0] == ' ');
    assert(t.drop_first() =~= s);
    assert(is_space(' '));
    assert(trim_start(t) == s);
}

/// A cookie is read back under the name that it was set with, whatever cookies of other names stand before
/// it.
pub proof fn lemma_cookie_is_read_back(
    parts: Seq<Seq<char>>,
    name: Seq<char>,
    value: Seq<char>,
    rest: Seq<Seq<char>>,
)
    requires
        name.len() > 0,
        !is_space(name[0]),
        tight(value),
        forall|i: int| 0 <= i < parts.len() ==> cookie_part(#[trigger] parts[i], name) is None,
    ensures
        cookie_in(parts + seq![name + seq!['='] + value] + rest, name) == Some(value),
        cookie_in(parts + seq![seq![' '] + (name + seq!['='] + value)] + rest, name) == Some(value),
    decreases parts.len(),
{
    let c = name + seq!['='] + value;
    assert(c.last() == if value.len() > 0 {
        value.last()
    } else {
        '='
    });
    assert(c[0] == name[0]);
    assert(!is_space('='));
    lemma_tight(c);
    lemma_tight(value);
    assert(c.take(name.len() as int) =~= name);
    assert(c.skip(name.len() as int + 1) =~= value);
    let x = parts + seq![c] + rest;
    let y = parts + seq![seq![' '] + c] + rest;
    if parts.len() == 0 {
        assert(x[0] == c);
        assert(y[0] == seq![' '] + c);
    } else {
        assert(x[0] == parts[0] && y[0] == parts[0]);
        assert(cookie_part(parts[0], name) is None);
        let t = parts.drop_first();
        assert forall|i: int| 0 <= i < t.len() implies cookie_part(#[trigger] t[i], name) is None by {
            assert(t[i] == parts[i + 1]);
        }
        lemma_cookie_is_read_back(t, name, value, rest);
        assert(x.drop_first() =~= t + seq![c] + rest);
        assert(y.drop_first() =~= t + seq![seq![' '] + c] + rest);
    }
}

/// The session that was handed out in a cookie is the one that the cookie brings back.
pub proof fn lemma_session_comes_back(cfg: Config, token: Seq<char>)
    requires
        token_shape(token),
    ensures
        brought_token(Some(session_cookie(cfg) + seq!['='] + token), session_cookie(cfg)) == Some(
            token,
        ),
        starts_with(cookie_text(cfg, token, ttl(cfg)), session_cookie(cfg) + seq!['='] + token + seq![';']),
{
    let n = session_cookie(cfg);
    reveal_strlit("__Host-op_session");
    reveal_strlit("op_session");
    let c = n + seq!['='] + token;
    assert(crate::common::is_hex_digit(token[0]));
    assert(crate::common::is_hex_digit(token[63]));
    assert(!is_space('_') && !is_space('o'));
    assert forall|i: int| 0 <= i < c.len() implies #[trigger] c[i] != ';' by {
        if i < n.len() {
            assert(c[i] == n[i]);
        } else if i > n.len() {
            assert(c[i] == token[i - n.len() - 1]);
            assert(crate::common::is_hex_digit(token[i - n.len() - 1]));
        }
    }
    lemma_one_piece(c, ';');
    lemma_cookie_is_read_back(Seq::empty(), n, token, Seq::empty());
    assert(Seq::<Seq<char>>::empty() + seq![c] + Seq::<Seq<char>>::empty() =~= seq![c]);
    let s = cookie_text(cfg, token, ttl(cfg));
    reveal_strlit("=");
    reveal_strlit("; Path=/; HttpOnly; SameSite=Strict; Max-Age=");
    let h = c + seq![';'];
    assert(s.take(h.len() as int) =~= h);
}

proof fn lemma_one_piece(s: Seq<char>, c: char)
    requires
        forall|i: int| 0 <= i < s.len() ==> #[trigger] s[i] != c,
    ensures
        pieces(s, c) == seq![s],
    decreases s.len(),
{
    if s.len() > 0 {
        let t = s.drop_last();
        assert forall|i: int| 0 <= i < t.len() implies #[trigger] t[i] != c by {
            assert(t[i] == s[i]);
        }
        lemma_one_piece(t, c);
        assert(s[s.len() - 1] != c);
        assert(t.push(s.last()) =~= s);
        assert(seq![t].last() == t);
        assert(pieces(s, c) =~= seq![s]);
    } else {
        assert(s =~= Seq::empty());
        assert(pieces(s, c) =~= seq![s]);
    }
}

/// A cookie is kept from scripts and from other sites, goes to the whole site, lasts as long as was said,
/// and goes over secure connections only where so set.
pub proof fn lemma_cookie_is_guarded(cfg: Config, value: Seq<char>, age: int)
    ensures
        contains(cookie_text(cfg, value, age), "; HttpOnly"@),
        contains(cookie_text(cfg, value, age), "; SameSite=Strict"@),
        contains(cookie_text(cfg, value, age), "; Path=/"@),
        contains(cookie_text(cfg, value, age), "; Max-Age="@ + decimal_int(age)),
        cfg.security.cookie_secure ==> ends_with(cookie_text(cfg, value, age), "; Secure"@)
            && starts_with(cookie_text(cfg, value, age), "__Host-"@),
        !cfg.security.cookie_secure ==> ends_with(
            cookie_text(cfg, value, age),
            "; Max-Age="@ + decimal_int(age),
        ),
{
    let s = cookie_text(cfg, value, age);
    let n = decimal_int(age);
    let e = if cfg.security.cookie_secure {
        "; Secure"@
    } else {
        ""@
    };
    reveal_strlit("");
    reveal_strlit("; Path=/; HttpOnly; SameSite=Strict; Max-Age=");
    reveal_strlit("; HttpOnly");
    reveal_strlit("; SameSite=Strict");
    reveal_strlit("; Path=/");
    reveal_strlit("; Max-Age=");
    let h = session_cookie(cfg) + "="@ + value;
    let (p, o, m, a) = ("; Path=/"@, "; HttpOnly"@, "; SameSite=Strict"@, "; Max-Age="@);
    assert("; Path=/; HttpOnly; SameSite=Strict; Max-Age="@ =~= p + o + m + a);
    lemma_in_between(h, p, o + m + a + n + e);
    assert(h + p + (o + m + a + n + e) =~= s);
    lemma_in_between(h + p, o, m + a + n + e);
    assert(h + p + o + (m + a + n + e) =~= s);
    lemma_in_between(h + p + o, m, a + n + e);
    assert(h + p + o + m + (a + n + e) =~= s);
    lemma_in_between(h + p + o + m, a + n, e);
    assert(h + p + o + m + (a + n) + e =~= s);
    assert(s.skip(s.len() - e.len()) =~= e);
    if !cfg.security.cookie_secure {
        let z = a + n;
        assert(s.skip(s.len() - z.len()) =~= z);
    } else {
        reveal_strlit("__Host-op_session");
        reveal_strlit("__Host-");
        assert("__Host-op_session"@.take(7) =~= "__Host-"@);
        assert(s.take(7) =~= "__Host-op_session"@.take(7));
    }
}

/// A session lasts the hours that are set.
pub proof fn lemma_session_lasts(cfg: Config)
    ensures
        ttl(cfg) == 3600 * cfg.security.session_ttl_hours,
{
}

// ---------------------------------------------------------------------------
// Tokens and addresses
// ---------------------------------------------------------------------------

/// The token of a header is what stands behind the word that announces it.
pub proof fn lemma_token_is_borne(t: Seq<char>)
    requires
        tight(t),
    ensures
        borne(Some("Bearer "@ + t)) == Some(t),
        borne(None) is None,
{
    let s = "Bearer "@ + t;
    let n = "Bearer "@.len() as int;
    assert(s.take(n) =~= "Bearer "@);
    assert(s.skip(n) =~= t);
    lemma_tight(t);
}

/// A token for reading is a token behind its mark.
pub proof fn lemma_read_token(t: Seq<char>)
    ensures
        read_token_shape("opk_"@ + t) <==> token_shape(t),
        read_token_shape(t) ==> starts_with(t, "opk_"@) && t.len() == 68,
{
    reveal_strlit("opk_");
    let s = "opk_"@ + t;
    assert(s.take(4) =~= "opk_"@);
    assert(s.skip(4) =~= t);
}

/// A peer that is trusted may tell whom it speaks for, where it tells an address; any other peer speaks
/// for itself.
pub proof fn lemma_whom_a_peer_speaks_for(
    peer: IpAddr,
    told: Seq<char>,
    ip: IpAddr,
    proxies: Seq<IpAddr>,
)
    requires
        ip_value(told) == Some(ip),
        tight(told),
    ensures
        proxies.contains(peer) ==> client_of(peer, Some(told), proxies) == ip,
        !proxies.contains(peer) ==> client_of(peer, Some(told), proxies) == peer,
        client_of(peer, None, proxies) == peer,
{
    lemma_tight(told);
}

/// No peer is trusted but behind a proxy, and then those whose addresses are listed.
pub proof fn lemma_trusted_peers(c: Config, v: Seq<Seq<char>>, ip: IpAddr)
    ensures
        !c.server.behind_proxy ==> !trusted(c).contains(ip),
        c.server.behind_proxy ==> trusted(c) == addresses(crate::text::views(c.server.trusted_proxies@)),
        addresses(v).contains(ip) <==> exists|i: int|
            0 <= i < v.len() && ip_value(#[trigger] v[i]) == Some(ip),
    decreases v.len(),
{
    if v.len() > 0 {
        let t = v.drop_last();
        lemma_trusted_peers(c, t, ip);
        let a = addresses(t);
        let b = addresses(v);
        if b.contains(ip) {
            let k = choose|k: int| 0 <= k < b.len() && b[k] == ip;
            if k < a.len() {
                assert(a[k] == ip);
                assert(a.contains(ip));
                let i = choose|i: int| 0 <= i < t.len() && ip_value(#[trigger] t[i]) == Some(ip);
                assert(v[i] == t[i]);
            } else {
                assert(ip_value(v[v.len() - 1]) == Some(ip));
            }
        }
        if exists|i: int| 0 <= i < v.len() && ip_value(#[trigger] v[i]) == Some(ip) {
            let i = choose|i: int| 0 <= i < v.len() && ip_value(#[trigger] v[i]) == Some(ip);
            if i < t.len() {
                assert(t[i] == v[i]);
                assert(a.contains(ip));
                let k = choose|k: int| 0 <= k < a.len() && a[k] == ip;
                assert(b[k] == ip);
            } else {
                assert(b[a.len() as int] == ip);
            }
        }
    }
}

proof fn lemma_host_before_slash(host: Seq<char>, path: Seq<char>)
    requires
        !host.contains('/'),
        path.len() == 0 || path[0] == '/',
    ensures
        before(host + path, '/') == host,
{
    let r = host + path;
    lemma_first_index(r, '/');
    let k = first_index(r, '/');
    if path.len() > 0 {
        assert(r[host.len() as int] == '/');
        assert(r.contains('/'));
    }
    assert(k == host.len()) by {
        if k < host.len() {
            assert(host[k] == r[k]);
        }
    }
    assert(before(r, '/') =~= host);
}

/// The origin of an address is its scheme and its host, whatever path follows.
pub proof fn lemma_origin_of_an_address(host: Seq<char>, path: Seq<char>)
    requires
        !host.contains('/'),
        path.len() == 0 || path[0] == '/',
    ensures
        origin("https://"@ + host + path) == "https://"@ + host,
        origin("http://"@ + host + path) == "http://"@ + host,
        ws_origin("https://"@ + host) == "wss://"@ + host,
        ws_origin("http://"@ + host) == "ws://"@ + host,
{
    reveal_strlit("https://");
    reveal_strlit("http://");
    reveal_strlit("https");
    reveal_strlit("http");
    reveal_strlit("://");
    assert("https"@ + "://"@ =~= "https://"@);
    assert("http"@ + "://"@ =~= "http://"@);
    lemma_host_before_slash(host, path);
    let (a, b) = ("https://"@ + host + path, "http://"@ + host + path);
    assert(a.take(8) =~= "https://"@);
    assert(a.skip(8) =~= host + path);
    assert(b.take(7) =~= "http://"@);
    assert(b.skip(7) =~= host + path);
    assert(b[4] == ':' && "https://"@[4] == 's');
    assert(!starts_with(b, "https://"@)) by {
        if starts_with(b, "https://"@) {
            assert(b.take(8)[4] == b[4]);
        }
    }
    let (c, d) = ("https://"@ + host, "http://"@ + host);
    assert(c.take(8) =~= "https://"@);
    assert(c.skip(8) =~= host);
    assert(d.take(7) =~= "http://"@);
    assert(d.skip(7) =~= host);
    assert(d[4] == ':');
    assert(!starts_with(d, "https://"@)) by {
        if starts_with(d, "https://"@) {
            assert(d.take(8)[4] == d[4]);
        }
    }
}

/// A page may load nothing but from its own site, may connect to the site and its channel, and may not be
/// framed.
pub proof fn lemma_page_policy(o: Seq<char>)
    ensures
        starts_with(content_policy(o), "default-src 'none'; script-src 'self'; "@),
        contains(content_policy(o), "connect-src 'self' "@ + ws_origin(o) + ";"@),
        ends_with(content_policy(o), "frame-ancestors 'none'"@),
{
    let s = content_policy(o);
    reveal_strlit(
        "default-src 'none'; script-src 'self'; style-src 'self'; img-src 'self' data:; connect-src 'self' ",
    );
    reveal_strlit("default-src 'none'; script-src 'self'; ");
    reveal_strlit("style-src 'self'; img-src 'self' data:; ");
    reveal_strlit("connect-src 'self' ");
    reveal_strlit(
        "; font-src 'self'; object-src 'none'; base-uri 'none'; form-action 'self'; frame-ancestors 'none'",
    );
    reveal_strlit(";");
    reveal_strlit(
        " font-src 'self'; object-src 'none'; base-uri 'none'; form-action 'self'; frame-ancestors 'none'",
    );
    reveal_strlit("frame-ancestors 'none'");
    let a = "default-src 'none'; script-src 'self'; "@;
    let b = "style-src 'self'; img-src 'self' data:; "@;
    let c = "connect-src 'self' "@;
    let w = ws_origin(o);
    let e =
        " font-src 'self'; object-src 'none'; base-uri 'none'; form-action 'self'; frame-ancestors 'none'"@;
    let z = "frame-ancestors 'none'"@;
    assert(s =~= a + b + c + w + ";"@ + e);
    assert(s.take(a.len() as int) =~= a);
    lemma_in_between(a + b, c + w + ";"@, e);
    assert(a + b + (c + w + ";"@) + e =~= s);
    assert(e.skip(e.len() - z.len()) =~= z);
    assert(s.skip(s.len() - z.len()) =~= e.skip(e.len() - z.len()));
}

/// Every answer forbids guessing types and framing; one of the interface is not kept; one over a secure
/// connection asks for secure ones where so set, and only there.
pub proof fn lemma_headers(hsts: bool, path: Seq<char>)
    ensures
        ({
            let h = fixed_headers(hsts, path);
            &&& h.contains(("x-content-type-options"@, "nosniff"@))
            &&& h.contains(("x-frame-options"@, "DENY"@))
            &&& h.contains(("referrer-policy"@, "no-referrer"@))
            &&& hsts ==> h.contains(("strict-transport-security"@, "max-age=63072000"@))
            &&& starts_with(path, "/api/"@) ==> h.contains(("cache-control"@, "no-store"@))
            &&& h.len() == 4 + (if hsts {
                1int
            } else {
                0
            }) + (if starts_with(path, "/api/"@) {
                1int
            } else {
                0
            })
        }),
{
    let h = fixed_headers(hsts, path);
    assert(h[0] == ("x-content-type-options"@, "nosniff"@));
    assert(h[1] == ("x-frame-options"@, "DENY"@));
    assert(h[2] == ("referrer-policy"@, "no-referrer"@));
    if hsts {
        assert(h[4] == ("strict-transport-security"@, "max-age=63072000"@));
        if starts_with(path, "/api/"@) {
            assert(h[5] == ("cache-control"@, "no-store"@));
        }
    } else if starts_with(path, "/api/"@) {
        assert(h[4] == ("cache-control"@, "no-store"@));
    }
}

/// Reading is not guarded. What changes anything through the interface is, but for the agents' part: it
/// goes on from an allowed site, or from no site with the interface's own header.
pub proof fn lemma_guard(
    path: Seq<char>,
    rest: Seq<char>,
    o: Seq<char>,
    own: bool,
    sites: Seq<Seq<char>>,
)
    ensures
        may_go_on("GET"@, path, Some(o), own, sites),
        may_go_on("GET"@, path, None, own, sites),
        !starts_with(rest, "agent/"@) ==> {
            &&& may_go_on("POST"@, "/api/"@ + rest, Some(o), own, sites) <==> sites.contains(o)
            &&& may_go_on("PUT"@, "/api/"@ + rest, Some(o), own, sites) <==> sites.contains(o)
            &&& may_go_on("PATCH"@, "/api/"@ + rest, Some(o), own, sites) <==> sites.contains(o)
            &&& may_go_on("DELETE"@, "/api/"@ + rest, Some(o), own, sites) <==> sites.contains(o)
            &&& may_go_on("POST"@, "/api/"@ + rest, None, own, sites) <==> own
            &&& may_go_on("PUT"@, "/api/"@ + rest, None, own, sites) <==> own
            &&& may_go_on("PATCH"@, "/api/"@ + rest, None, own, sites) <==> own
            &&& may_go_on("DELETE"@, "/api/"@ + rest, None, own, sites) <==> own
        },
        may_go_on("POST"@, "/api/agent/"@ + rest, Some(o), own, sites),
{
    reveal_strlit("GET");
    reveal_strlit("POST");
    reveal_strlit("PUT");
    reveal_strlit("PATCH");
    reveal_strlit("DELETE");
    reveal_strlit("/api/");
    reveal_strlit("/api/agent/");
    reveal_strlit("agent/");
    assert("GET"@.len() == 3 && "GET"@[0] == 'G' && "PUT"@[0] == 'P' && "POST"@.len() == 4);
    let p = "/api/"@ + rest;
    assert(p.take(5) =~= "/api/"@);
    assert(starts_with(p, "/api/agent/"@) ==> starts_with(rest, "agent/"@)) by {
        if starts_with(p, "/api/agent/"@) {
            assert(rest.len() >= 6);
            assert forall|i: int| 0 <= i < 6 implies rest[i] == "agent/"@[i] by {
                assert(p.take(11)[i + 5] == p[i + 5]);
                assert("/api/agent/"@[i + 5] == "agent/"@[i]);
            }
            assert(rest.take(6) =~= "agent/"@);
        }
    }
    let q = "/api/agent/"@ + rest;
    assert(q.take(11) =~= "/api/agent/"@);
}

// ---------------------------------------------------------------------------
// Settings of the service
// ---------------------------------------------------------------------------

/// A configuration is accepted exactly where it can be listened on safely, its addresses are secure but
/// for a local preview, and each number is in its range.
pub proof fn lemma_accepted_configuration(c: Config)
    ensures
        config_fault(c) is None <==> {
            &&& crate::ip::socket_value(c.server.listen@) matches Some(a) && {
                let dev = crate::ip::loopback(a.ip) && !c.security.cookie_secure;
                &&& crate::ip::loopback(a.ip) || c.server.tls.enabled
                    || c.server.allow_plain_nonloopback
                &&& starts_with(c.server.public_url@, "https://"@) || (dev && starts_with(
                    c.server.public_url@,
                    "http://"@,
                ))
                &&& forall|i: int|
                    0 <= i < c.server.extra_origins@.len() ==> starts_with(
                        (#[trigger] c.server.extra_origins@[i])@,
                        "https://"@,
                    ) || (dev && starts_with(c.server.extra_origins@[i]@, "http://"@))
            }
            &&& c.server.tls.enabled ==> c.server.tls.cert_path@.len() > 0
                && c.server.tls.key_path@.len() > 0
            &&& c.install.mode@ == "pinned_ca"@ || c.install.mode@ == "public_ca"@
            &&& 1 <= c.security.session_ttl_hours <= 30 * 24
            &&& 60 <= c.metrics.ws_max_message_bytes <= 1024 * 1024
            &&& 5 <= c.metrics.ts_skew_secs <= 3600
        },
{
    let v = crate::text::views(c.server.extra_origins@);
    assert(v.len() == c.server.extra_origins@.len());
    assert forall|dev: bool| #[trigger]
        good_schemes(v, dev) <==> (forall|i: int|
            0 <= i < c.server.extra_origins@.len() ==> starts_with(
                (#[trigger] c.server.extra_origins@[i])@,
                "https://"@,
            ) || (dev && starts_with(c.server.extra_origins@[i]@, "http://"@))) by {
        if good_schemes(v, dev) {
            assert forall|i: int| 0 <= i < c.server.extra_origins@.len() implies starts_with(
                (#[trigger] c.server.extra_origins@[i])@,
                "https://"@,
            ) || (dev && starts_with(c.server.extra_origins@[i]@, "http://"@)) by {
                assert(good_scheme(v[i], dev));
            }
        }
    }
}

/// The name of the first account is what follows the flag, and where no flag is given what the
/// environment tells.
pub proof fn lemma_name_of_the_first(
    a: Seq<Seq<char>>,
    name: Seq<char>,
    rest: Seq<Seq<char>>,
    env: Option<Seq<char>>,
)
    requires
        forall|i: int| 0 <= i < a.len() ==> #[trigger] a[i] != "--username"@,
        name.len() > 0,
    ensures
        admin_name(a + seq!["--username"@, name] + rest, env) == Some(name),
        env matches Some(e) ==> admin_name(a, env) == if e.len() > 0 {
            Some(e)
        } else {
            None
        },
        env is None ==> admin_name(a, env) is None,
{
    lemma_flag(a, seq!["--username"@, name] + rest);
    lemma_flag(a, Seq::empty());
    assert(a + Seq::<Seq<char>>::empty() =~= a);
    let s = a + seq!["--username"@, name] + rest;
    assert(s =~= a + (seq!["--username"@, name] + rest));
    assert(s[(a.len() + 1) as int] == name);
    reveal_strlit("");
}

proof fn lemma_flag(a: Seq<Seq<char>>, b: Seq<Seq<char>>)
    requires
        forall|i: int| 0 <= i < a.len() ==> #[trigger] a[i] != "--username"@,
        b.len() == 0 || b[0] == "--username"@,
    ensures
        username_flag(a + b) == a.len(),
    decreases a.len(),
{
    if a.len() > 0 {
        assert((a + b)[0] == a[0]);
        assert(a[0] != "--username"@);
        let t = a.drop_first();
        assert forall|i: int| 0 <= i < t.len() implies #[trigger] t[i] != "--username"@ by {
            assert(t[i] == a[i + 1]);
        }
        lemma_flag(t, b);
        assert((a + b).drop_first() =~= t + b);
    } else {
        assert(a + b =~= b);
    }
}

/// The secret of the first account is what the environment tells, and else the line that is read, without
/// its end.
pub proof fn lemma_secret_of_the_first(secret: Seq<char>, other: Seq<char>)
    requires
        secret.len() > 0,
        secret.last() != '\n',
        secret.last() != '\r',
    ensures
        admin_secret(Some(secret), Some(other)) == Some(secret),
        admin_secret(None, Some(secret + seq!['\n'])) == Some(secret),
        admin_secret(None, Some(secret + seq!['\r', '\n'])) == Some(secret),
        admin_secret(None, Some(secret)) == Some(secret),
        admin_secret(None, None) is None,
{
    reveal_strlit("");
    let a = secret + seq!['\n'];
    let b = secret + seq!['\r', '\n'];
    let c = secret + seq!['\r'];
    assert(a.drop_last() =~= secret);
    assert(b.drop_last() =~= c);
    assert(c.drop_last() =~= secret);
    assert(without_end(secret) == secret);
    assert(without_end(a) == secret);
    assert(without_end(c) == secret);
    assert(without_end(b) == secret);
}

// ---------------------------------------------------------------------------
// Secrets and programs
// ---------------------------------------------------------------------------

/// A secret is told in capital letters and the digits from 2 to 7, each for one of thirty-two numbers.
pub proof fn lemma_letters_of_secrets(a: int, b: int)
    requires
        0 <= a < 32,
        0 <= b < 32,
    ensures
        base32_letter(a) == base32_letter(b) ==> a == b,
        base32_letter(0) == 'A',
        base32_letter(25) == 'Z',
        base32_letter(26) == '2',
        base32_letter(31) == '7',
        base32_value(base32_letter(a)) == Some(a as u8),
        base32_value('a') == base32_value('A'),
        base32_value('1') is None,
        base32_value('8') is None,
{
}

/// Five bytes are told in eight letters whose numbers, each worth thirty-two times the next, are worth as
/// much as the bytes.
pub proof fn lemma_five_bytes(data: Seq<u8>, g: int)
    requires
        0 <= g,
        5 * g + 4 < data.len(),
    ensures
        ({
            let k = 8 * g;
            let q = |i: int| quintet(data, k + i);
            &&& forall|i: int| 0 <= i < 8 ==> 0 <= #[trigger] quintet(data, k + i) < 32
            &&& q(0) * 0x8_0000_0000 + q(1) * 0x4000_0000 + q(2) * 0x200_0000 + q(3) * 0x10_0000 + q(4)
                * 0x8000 + q(5) * 0x400 + q(6) * 0x20 + q(7) == data[5 * g] * 0x1_0000_0000 + data[5 * g
                + 1] * 0x100_0000 + data[5 * g + 2] * 0x1_0000 + data[5 * g + 3] * 0x100 + data[5 * g
                + 4]
        }),
{
    let k = 8 * g;
    assert(k / 8 == g && k % 8 == 0);
    assert((k + 1) / 8 == g && (k + 1) % 8 == 1);
    assert((k + 2) / 8 == g && (k + 2) % 8 == 2);
    assert((k + 3) / 8 == g && (k + 3) % 8 == 3);
    assert((k + 4) / 8 == g && (k + 4) % 8 == 4);
    assert((k + 5) / 8 == g && (k + 5) % 8 == 5);
    assert((k + 6) / 8 == g && (k + 6) % 8 == 6);
    assert((k + 7) / 8 == g && (k + 7) % 8 == 7);
    lemma_forty_bits(
        data[5 * g] as int,
        data[5 * g + 1] as int,
        data[5 * g + 2] as int,
        data[5 * g + 3] as int,
        data[5 * g + 4] as int,
    );
    assert forall|i: int| 0 <= i < 8 implies 0 <= #[trigger] quintet(data, k + i) < 32 by {
        assert((k + i) / 8 == g && (k + i) % 8 == i);
    }
}

proof fn lemma_forty_bits(a: int, b: int, c: int, d: int, e: int)
    requires
        0 <= a < 256,
        0 <= b < 256,
        0 <= c < 256,
        0 <= d < 256,
        0 <= e < 256,
    ensures
        (a / 8) * 0x8_0000_0000 + ((a % 8) * 4 + b / 64) * 0x4000_0000 + ((b / 2) % 32) * 0x200_0000 + ((
        b % 2) * 16 + c / 16) * 0x10_0000 + ((c % 16) * 2 + d / 128) * 0x8000 + ((d / 4) % 32) * 0x400
            + ((d % 4) * 8 + e / 32) * 0x20 + e % 32 == a * 0x1_0000_0000 + b * 0x100_0000 + c
            * 0x1_0000 + d * 0x100 + e,
{
    assert(a == 8 * (a / 8) + a % 8);
    assert(b == 64 * (b / 64) + 2 * ((b / 2) % 32) + b % 2);
    assert(c == 16 * (c / 16) + c % 16);
    assert(d == 128 * (d / 128) + 4 * ((d / 4) % 32) + d % 4);
    assert(e == 32 * (e / 32) + e % 32);
}

/// No code counts but that of the step in which it is brought, the one before and the one after.
pub proof fn lemma_codes_that_count(secret: Seq<u8>, code: Seq<char>, now: i64)
    requires
        30 <= now,
        code_matches(secret, code, now),
    ensures
        exists|t: u64|
            step_of(now) <= t + 1 && t <= step_of(now) + 1 && code == code_text(
                #[trigger] hotp_of(secret, t),
            ),
{
    let t = step_of(now);
    assert(t >= 1);
    if code == code_text(hotp_of(secret, step_before(t))) {
        assert(step_before(t) == t - 1);
    }
}

/// A code of a digest is the low part of the thirty-one bits that stand where its last half-byte says.
pub proof fn lemma_code_of_a_digest(digest: Seq<u8>, o: int)
    requires
        digest.len() == 20,
        digest[19] as int % 16 == o,
    ensures
        code_in(digest) < 1_000_000,
        exists|k: int|
            0 <= k && (digest[o] as int % 128) * 0x100_0000 + digest[o + 1] * 0x1_0000 + digest[o + 2]
                * 0x100 + digest[o + 3] == #[trigger] (k * 1_000_000) + code_in(digest),
{
    let v = (digest[o] as int % 128) * 0x100_0000 + digest[o + 1] * 0x1_0000 + digest[o + 2] * 0x100
        + digest[o + 3];
    let k = v / 1_000_000;
    assert(digest.last() == digest[19]);
    assert(v == (k * 1_000_000) + v % 1_000_000);
}

/// The program for a kind of machine is called after it.
pub proof fn lemma_names_of_programs(i: int)
    requires
        0 <= i < 2,
    ensures
        known_filename(i) == "outpost-agent-"@ + known_target(i),
        starts_with(known_target(0), "x86_64-"@),
        starts_with(known_target(1), "aarch64-"@),
{
    reveal_strlit("outpost-agent-");
    reveal_strlit("x86_64-unknown-linux-musl");
    reveal_strlit("aarch64-unknown-linux-musl");
    reveal_strlit("outpost-agent-x86_64-unknown-linux-musl");
    reveal_strlit("outpost-agent-aarch64-unknown-linux-musl");
    reveal_strlit("x86_64-");
    reveal_strlit("aarch64-");
    assert("outpost-agent-"@ + "x86_64-unknown-linux-musl"@
        =~= "outpost-agent-x86_64-unknown-linux-musl"@);
    assert("outpost-agent-"@ + "aarch64-unknown-linux-musl"@
        =~= "outpost-agent-aarch64-unknown-linux-musl"@);
    assert("x86_64-unknown-linux-musl"@.take(7) =~= "x86_64-"@);
    assert("aarch64-unknown-linux-musl"@.take(8) =~= "aarch64-"@);
}

/// Without a word that it knows the service serves.
pub proof fn lemma_words_of_the_service(a: Seq<char>)
    ensures
        command_of(None) == Command::Serve,
        command_of(Some("--version"@)) == Command::Version,
        command_of(Some("-V"@)) == Command::Version,
        command_of(Some("--help"@)) == Command::Help,
        command_of(Some("-h"@)) == Command::Help,
        command_of(Some("admin-create"@)) == Command::AdminCreate,
        !seq!["--version"@, "-V"@, "--help"@, "-h"@, "admin-create"@].contains(a) ==> command_of(Some(a))
            == Command::Serve,
{
    reveal_strlit("--version");
    reveal_strlit("-V");
    reveal_strlit("--help");
    reveal_strlit("-h");
    reveal_strlit("admin-create");
    assert("--version"@.len() == 9 && "-V"@.len() == 2 && "--help"@.len() == 6 && "-h"@.len() == 2);
    assert("admin-create"@.len() == 12 && "-V"@[1] == 'V' && "-h"@[1] == 'h');
    let s = seq!["--version"@, "-V"@, "--help"@, "-h"@, "admin-create"@];
    assert(s[0] == "--version"@ && s[1] == "-V"@ && s[2] == "--help"@ && s[3] == "-h"@ && s[4]
        == "admin-create"@);
}

/// The sites that may change anything are those of the service's own address and of each further one.
pub proof fn lemma_allowed_sites(n: NetCfg, i: int)
    requires
        0 <= i < n.extra_origins@.len(),
    ensures
        allowed(n).contains(origin(n.public_url@)),
        allowed(n).contains(origin(n.extra_origins@[i]@)),
        allowed(n).len() == 1 + n.extra_origins@.len(),
{
    assert(allowed(n)[0] == origin(n.public_url@));
    assert(allowed(n)[i + 1] == origin(n.extra_origins@[i]@));
}

/// Spaces and filling in a secret do not matter, and a letter that is none makes it no secret.
pub proof fn lemma_secrets_as_typed(s: Seq<char>, c: char)
    ensures
        base32_values(s.push(' ')) == base32_values(s),
        base32_values(s.push('=')) == base32_values(s),
        c != ' ' && c != '=' && base32_value(c) is None ==> base32_values(s.push(c)) is None,
{
    assert(s.push(' ').drop_last() =~= s);
    assert(s.push('=').drop_last() =~= s);
    assert(s.push(c).drop_last() =~= s);
}

/// A code has six digits, and nothing else is one.
pub proof fn lemma_form_of_a_code(code: Seq<char>)
    ensures
        code_form(code) <==> code.len() == 6 && forall|i: int|
            0 <= i < code.len() ==> crate::text::is_digit(#[trigger] code[i]),
{
}

/// Without an address that can be listened on the service would listen at its own machine.
pub proof fn lemma_where_the_service_listens(c: Config)
    ensures
        crate::ip::socket_value(c.server.listen@) matches Some(a) ==> listens_on(c) == a,
        crate::ip::socket_value(c.server.listen@) is None ==> crate::ip::loopback(listens_on(c).ip)
            && listens_on(c).port == 25511,
{
}

/// A stored password asks for too many lanes where nine digits stand behind the sign for them.
pub proof fn lemma_many_lanes(a: Seq<char>, d: Seq<char>, b: Seq<char>)
    requires
        d.len() == 9,
        crate::text::only_digits(d),
    ensures
        many_lanes(a + seq!['p', '='] + d + b),
        !many_lanes(d),
{
    let s = a + seq!['p', '='] + d + b;
    let i = a.len() as int;
    assert(s[i] == 'p' && s[i + 1] == '=');
    assert(s.subrange(i + 2, i + 11) =~= d);
    assert(many_lanes_at(s, i));
}

} // verus!
