//! Messages to the outside over HTTPS: which addresses they may go to, what is sent, and how the
//! answer is read.

use crate::ip::{ip_global, ip_value, parse_ip, public_ip, IpAddr};
use crate::num::{decimal, parse_upto, parsed_upto, show_u64};
use crate::text::{
    after, before, byte_count, byte_len, chars_of, contains, find, first_index, last_index,
    lemma_first_index, lossy_text, rfind, split_once, split_words, starts_with, string_of,
    strip_prefix, utf8_lossy, words,
};
use vstd::prelude::*;
use vstd::slice::slice_subrange;
use vstd::string::*;

verus! {

/// The longest body that is sent, in bytes.
pub const MAX_BODY: usize = 16_384;

/// The longest answer that is read, in bytes.
pub const MAX_RESP: usize = 16_384;

// ---------------------------------------------------------------------------
// Addresses
// ---------------------------------------------------------------------------

/// A number from 0 to 65535.
pub open spec fn port_number(s: Seq<char>) -> Option<u16> {
    match parsed_upto(s, 65535) {
        Some(n) => Some(n as u16),
        None => None,
    }
}

/// The view of an address: host, port, and path with query.
pub type HttpsView = (Seq<char>, u16, Seq<char>);

/// What stands before the path in an address without its scheme.
pub open spec fn authority_of(rest: Seq<char>) -> Seq<char> {
    before(rest, '/')
}

/// The path in an address without its scheme; `/` where there is none.
pub open spec fn path_of(rest: Seq<char>) -> Seq<char> {
    if rest.contains('/') {
        rest.skip(first_index(rest, '/'))
    } else {
        "/"@
    }
}

/// The port behind a bracketed host; 443 where none can be read.
pub open spec fn port_after_bracket(tail: Seq<char>) -> u16 {
    if tail.len() > 0 && tail[0] == ':' {
        match port_number(tail.skip(1)) {
            Some(p) => p,
            None => 443,
        }
    } else {
        443
    }
}

/// The host and the port that an authority names, or why it names none.
pub open spec fn host_port(auth: Seq<char>) -> Result<(Seq<char>, u16), Seq<char>> {
    if auth.len() > 0 && auth[0] == '[' {
        let h = auth.skip(1);
        if h.contains(']') {
            Ok((before(h, ']'), port_after_bracket(after(h, ']'))))
        } else {
            Err("IPv6 地址格式错误"@)
        }
    } else if auth.contains(':') {
        let i = last_index(auth, ':');
        match port_number(auth.skip(i + 1)) {
            Some(p) => Ok((auth.take(i), p)),
            None => Err("端口非法"@),
        }
    } else {
        Ok((auth, 443))
    }
}

/// A character that breaks the line of a request.
pub open spec fn breaks_line(c: char) -> bool {
    c < '\u{20}' || c == '\u{7f}'
}

/// The path holds a character that breaks the line of a request.
pub open spec fn bad_path(path: Seq<char>) -> bool {
    exists|i: int| 0 <= i < path.len() && breaks_line(#[trigger] path[i])
}

/// The parts of an `https` address, or why it is not accepted.
pub open spec fn https_parts(url: Seq<char>) -> Result<HttpsView, Seq<char>> {
    if !starts_with(url, "https://"@) {
        Err("仅允许 https:// 的 Webhook"@)
    } else {
        let rest = url.skip("https://"@.len() as int);
        if rest.len() == 0 || byte_len(url) > 2048 {
            Err("URL 非法或过长"@)
        } else if authority_of(rest).contains('@') {
            Err("URL 不得包含用户信息"@)
        } else {
            match host_port(authority_of(rest)) {
                Err(e) => Err(e),
                Ok((host, port)) => if host.len() == 0 || byte_len(host) > 255 {
                    Err("主机名非法"@)
                } else if bad_path(path_of(rest)) {
                    Err("路径含非法字符"@)
                } else {
                    Ok((host, port, path_of(rest)))
                },
            }
        }
    }
}

fn read_port(s: &[char]) -> (r: Option<u16>)
    ensures
        r == port_number(s@),
{
    match parse_upto(s, 65535) {
        Some(n) => Some(n as u16),
        None => None,
    }
}

fn split_authority(auth: &[char]) -> (r: Result<(String, u16), &'static str>)
    ensures
        r is Ok <==> host_port(auth@) is Ok,
        r matches Ok(p) ==> host_port(auth@) == Ok::<(Seq<char>, u16), Seq<char>>((p.0@, p.1)),
        r matches Err(e) ==> host_port(auth@) == Err::<(Seq<char>, u16), Seq<char>>(e@),
{
    let n: usize = auth.len();
    if n > 0 && auth[0] == '[' {
        let h = slice_subrange(auth, 1, n);
        assert(h@ =~= auth@.skip(1));
        match split_once(h, ']') {
            None => Err("IPv6 地址格式错误"),
            Some((host, tail)) => {
                let mut port: u16 = 443;
                if tail.len() > 0 && tail[0] == ':' {
                    let p = slice_subrange(tail, 1, tail.len());
                    assert(p@ =~= tail@.skip(1));
                    if let Some(x) = read_port(p) {
                        port = x;
                    }
                }
                Ok((string_of(host), port))
            },
        }
    } else {
        match rfind(auth, ':') {
            Some(i) => {
                let h = slice_subrange(auth, 0, i);
                let p = slice_subrange(auth, i + 1, n);
                assert(h@ =~= auth@.take(i as int));
                assert(p@ =~= auth@.skip(i + 1));
                match read_port(p) {
                    Some(x) => Ok((string_of(h), x)),
                    None => Err("端口非法"),
                }
            },
            None => Ok((string_of(auth), 443)),
        }
    }
}

fn has_bad_char(path: &[char]) -> (r: bool)
    ensures
        r == bad_path(path@),
{
    let mut i: usize = 0;
    while i < path.len()
        invariant
            i <= path@.len(),
            forall|j: int| 0 <= j < i ==> !breaks_line(#[trigger] path@[j]),
        decreases path@.len() - i,
    {
        if path[i] < '\u{20}' || path[i] == '\u{7f}' {
            assert(breaks_line(path@[i as int]));
            return true;
        }
        i = i + 1;
    }
    false
}

/// Cuts an `https` address into host, port, and path with query. Addresses with user information,
/// and paths that would break the line of a request, are not accepted.
pub fn parse_https(url: &str) -> (r: Result<(String, u16, String), &'static str>)
    ensures
        r is Ok <==> https_parts(url@) is Ok,
        r matches Ok(p) ==> https_parts(url@) == Ok::<HttpsView, Seq<char>>((p.0@, p.1, p.2@)),
        r matches Err(e) ==> https_parts(url@) == Err::<HttpsView, Seq<char>>(e@),
{
    let v = chars_of(url);
    let rest = match strip_prefix(v.as_slice(), "https://") {
        Some(rest) => rest,
        None => {
            return Err("仅允许 https:// 的 Webhook");
        },
    };
    if rest.len() == 0 || byte_count(url) > 2048 {
        return Err("URL 非法或过长");
    }
    let n: usize = rest.len();
    proof {
        lemma_first_index(rest@, '/');
    }
    let slash = find(rest, '/');
    let end: usize = match slash {
        Some(i) => i,
        None => n,
    };
    let auth = slice_subrange(rest, 0, end);
    assert(auth@ =~= authority_of(rest@));
    if find(auth, '@').is_some() {
        return Err("URL 不得包含用户信息");
    }
    let (host, port) = match split_authority(auth) {
        Ok(p) => p,
        Err(e) => {
            return Err(e);
        },
    };
    if host.as_str().is_empty() || byte_count(host.as_str()) > 255 {
        return Err("主机名非法");
    }
    let path = match slash {
        Some(i) => {
            let p = slice_subrange(rest, i, n);
            assert(p@ =~= path_of(rest@));
            string_of(p)
        },
        None => "/".to_string(),
    };
    let chars = chars_of(path.as_str());
    if has_bad_char(chars.as_slice()) {
        return Err("路径含非法字符");
    }
    Ok((host, port, path))
}

/// The path of an address that is accepted stays on one line of the request, whatever the address
/// holds.
pub proof fn lemma_accepted_path_is_one_line(url: Seq<char>)
    requires
        https_parts(url) is Ok,
    ensures
        ({
            let (host, port, path) = https_parts(url)->Ok_0;
            &&& forall|i: int| 0 <= i < path.len() ==> !breaks_line(#[trigger] path[i])
            &&& path.len() > 0
            &&& path[0] == '/'
            &&& host.len() > 0
        }),
{
    let rest = url.skip("https://"@.len() as int);
    lemma_first_index(rest, '/');
    reveal_strlit("/");
}

// ---------------------------------------------------------------------------
// Targets
// ---------------------------------------------------------------------------

/// Where a message may go: the address that a host names, the host being looked up, or nowhere.
#[derive(Debug, Clone, Copy, PartialEq, Eq, Structural)]
pub enum Target {
    /// The host is an address that is accepted.
    Address { ip: IpAddr },
    /// The host is an address that is not accepted.
    Refused,
    /// The host is a name that has to be looked up.
    LookUp,
}

/// Where a message to a host may go.
pub open spec fn target_of(host: Seq<char>, allow_private: bool) -> Target {
    match ip_value(host) {
        Some(ip) => if allow_private || public_ip(ip) {
            Target::Address { ip }
        } else {
            Target::Refused
        },
        None => Target::LookUp,
    }
}

/// Where a message to a host may go. A host that is an address is judged at once.
pub fn literal_target(host: &str, allow_private: bool) -> (r: Target)
    ensures
        r == target_of(host@, allow_private),
{
    match parse_ip(host) {
        Some(ip) => if allow_private || ip_global(&ip) {
            Target::Address { ip }
        } else {
            Target::Refused
        },
        None => Target::LookUp,
    }
}

/// The first of the addresses that may be connected to.
pub open spec fn first_allowed(addrs: Seq<IpAddr>, allow_private: bool) -> int
    decreases addrs.len(),
{
    if addrs.len() == 0 || allow_private || public_ip(addrs[0]) {
        0
    } else {
        1 + first_allowed(addrs.drop_first(), allow_private)
    }
}

/// The position of the first of the addresses of a host that may be connected to. The connection
/// goes to that very address, which is not looked up again.
pub fn resolve_checked(addrs: &[IpAddr], allow_private: bool) -> (r: Result<usize, &'static str>)
    ensures
        r is Ok <==> first_allowed(addrs@, allow_private) < addrs@.len(),
        r matches Err(e) ==> e@ == "目标解析到非公网地址,已拒绝(SSRF 防护)"@,
        r matches Ok(i) ==> i == first_allowed(addrs@, allow_private) && i < addrs@.len() && (
        allow_private || public_ip(addrs@[i as int])),
{
    let mut i: usize = 0;
    assert(addrs@.skip(0) =~= addrs@);
    while i < addrs.len()
        invariant
            i <= addrs@.len(),
            first_allowed(addrs@, allow_private) == i + first_allowed(
                addrs@.skip(i as int),
                allow_private,
            ),
        decreases addrs@.len() - i,
    {
        assert(addrs@.skip(i as int)[0] == addrs@[i as int]);
        assert(addrs@.skip(i as int).drop_first() =~= addrs@.skip(i + 1));
        if allow_private || ip_global(&addrs[i]) {
            return Ok(i);
        }
        i = i + 1;
    }
    Err("目标解析到非公网地址,已拒绝(SSRF 防护)")
}

/// No message goes to an address that is not public, unless that was allowed: neither to a host that
/// is an address, nor to one of the addresses of a host.
pub proof fn lemma_only_public_targets(host: Seq<char>, addrs: Seq<IpAddr>)
    ensures
        target_of(host, false) matches Target::Address { ip } ==> public_ip(ip),
        0 <= first_allowed(addrs, false) <= addrs.len(),
        first_allowed(addrs, false) < addrs.len() ==> public_ip(addrs[first_allowed(addrs, false)]),
    decreases addrs.len(),
{
    if addrs.len() > 0 && !public_ip(addrs[0]) {
        lemma_only_public_targets(host, addrs.drop_first());
    }
}

// ---------------------------------------------------------------------------
// Requests and answers
// ---------------------------------------------------------------------------

/// The request that posts a JSON body.
pub open spec fn post_text(host: Seq<char>, path: Seq<char>, body: Seq<char>) -> Seq<char> {
    "POST "@ + path + " HTTP/1.1\r\nHost: "@ + host
        + "\r\nUser-Agent: outpost/0.1\r\nContent-Type: application/json\r\nContent-Length: "@
        + decimal(byte_len(body)) + "\r\nConnection: close\r\n\r\n"@ + body
}

/// The request that posts a JSON body.
pub fn post_request(host: &str, path: &str, body: &str) -> (r: String)
    ensures
        r@ == post_text(host@, path@, body@),
{
    let len = show_u64(byte_count(body) as u64);
    let mut s = "POST ".to_string();
    s.append(path);
    s.append(" HTTP/1.1\r\nHost: ");
    s.append(host);
    s.append("\r\nUser-Agent: outpost/0.1\r\nContent-Type: application/json\r\nContent-Length: ");
    s.append(len.as_str());
    s.append("\r\nConnection: close\r\n\r\n");
    s.append(body);
    s
}

/// A message that is ready to be sent.
#[derive(Debug)]
pub struct Outgoing {
    pub host: String,
    pub port: u16,
    /// The address to connect to, where the host is one.
    pub ip: Option<IpAddr>,
    pub request: String,
}

/// Why a message is not sent, if it is not.
pub open spec fn post_refused(url: Seq<char>, body: Seq<char>, allow_private: bool) -> Option<
    Seq<char>,
> {
    if byte_len(body) > MAX_BODY {
        Some("通知内容过大"@)
    } else {
        match https_parts(url) {
            Err(e) => Some(e),
            Ok((host, port, path)) => if target_of(host, allow_private) is Refused {
                Some("目标为非公网地址,已拒绝(SSRF 防护)"@)
            } else {
                None
            },
        }
    }
}

/// What is sent to post a JSON body to an address, and where to. A body that is too long, an address
/// that is not accepted, and one whose host is an address that is not public are refused.
pub fn post_json(url: &str, body: &str, allow_private: bool) -> (r: Result<Outgoing, &'static str>)
    ensures
        r matches Err(e) ==> post_refused(url@, body@, allow_private) == Some(e@),
        r matches Ok(o) ==> {
            &&& post_refused(url@, body@, allow_private) is None
            &&& https_parts(url@) matches Ok((host, port, path))
            &&& o.host@ == host
            &&& o.port == port
            &&& o.ip == ip_value(host)
            &&& o.request@ == post_text(host, path, body@)
        },
{
    if byte_count(body) > MAX_BODY {
        return Err("通知内容过大");
    }
    let (host, port, path) = match parse_https(url) {
        Ok(p) => p,
        Err(e) => {
            return Err(e);
        },
    };
    let ip = match literal_target(host.as_str(), allow_private) {
        Target::Refused => {
            return Err("目标为非公网地址,已拒绝(SSRF 防护)");
        },
        Target::Address { ip } => Some(ip),
        Target::LookUp => None,
    };
    let request = post_request(host.as_str(), path.as_str(), body);
    Ok(Outgoing { host, port, ip, request })
}

/// Enough of an answer was read: its headers, or as much as is read at all.
pub fn answer_read(buf: &[u8]) -> (r: bool)
    ensures
        r == (buf@.len() >= MAX_RESP || exists|i: int| crate::agent::docker::headers_end(buf@, i)),
{
    buf.len() >= MAX_RESP || crate::agent::docker::header_body_split(buf).is_some()
}

/// The status of an answer: its second word.
pub open spec fn status_of(buf: Seq<u8>) -> Option<u16> {
    let w = words(lossy_text(buf));
    if w.len() > 1 {
        port_number(w[1])
    } else {
        None
    }
}

/// The status in the text of an answer: its second word, where it is a number of 16 bits.
pub fn status_in(head: &str) -> (r: Option<u16>)
    ensures
        r == if words(head@).len() > 1 {
            port_number(words(head@)[1])
        } else {
            None::<u16>
        },
{
    let v = chars_of(head);
    let w = split_words(v.as_slice());
    if w.len() > 1 {
        assert(words(head@)[1] == w@[1]@);
        read_port(w[1])
    } else {
        None
    }
}

/// The status of an answer.
pub fn answer_status(buf: &[u8]) -> (r: Option<u16>)
    ensures
        r == status_of(buf@),
{
    let head = utf8_lossy(buf);
    status_in(head.as_str())
}

} // verus!
