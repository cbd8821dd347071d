//! Small things: digests, comparison, tokens, cookies, and the address of a client.

use crate::common::{hex_of, lower_hex, to_hex};
use crate::ip::{ip_value, read_ip, IpAddr};
use crate::server::crypto::{bytes_equal, os_random, sha256, sha256_of};
use crate::text::{
    chars_of, has_prefix, pieces, split, starts_with, string_of, trim, trimmed, views,
};
use vstd::prelude::*;
use vstd::slice::slice_subrange;
use vstd::string::*;
use vstd::utf8::{encode_utf8, encode_utf8_decode_utf8};

pub use crate::clock::unix_now;

verus! {

/// The SHA-256 digest of some bytes, in lower-case hexadecimal.
pub fn sha256_hex(data: &[u8]) -> (r: String)
    ensures
        r@ == hex_of(sha256_of(data@)),
        r@.len() == 64,
        lower_hex(r@),
{
    let d = sha256(data);
    proof {
        crate::common::lemma_hex_of(d@);
    }
    to_hex(d.as_slice())
}

/// Different texts have different bytes.
pub proof fn lemma_utf8_injective(a: Seq<char>, b: Seq<char>)
    ensures
        encode_utf8(a) == encode_utf8(b) <==> a == b,
{
    encode_utf8_decode_utf8(a);
    encode_utf8_decode_utf8(b);
}

/// Whether two texts are equal, without a trace in time of where they differ.
pub fn ct_eq(a: &str, b: &str) -> (r: bool)
    ensures
        r == (a@ == b@),
{
    let x = a.as_bytes();
    let y = b.as_bytes();
    proof {
        lemma_utf8_injective(a@, b@);
    }
    x.len() == y.len() && bytes_equal(x, y)
}

/// A new token: thirty-two random bytes in hexadecimal.
pub fn gen_token_hex() -> (r: Result<String, &'static str>)
    ensures
        r matches Ok(t) ==> t@.len() == 64 && lower_hex(t@),
        r matches Err(e) ==> e@ == "os rng unavailable"@,
{
    match os_random(32) {
        Some(b) => {
            proof {
                crate::common::lemma_hex_of(b@);
            }
            Ok(to_hex(b.as_slice()))
        },
        None => Err("os rng unavailable"),
    }
}

/// The value that one part of a cookie header gives to a name, if it does.
pub open spec fn cookie_part(p: Seq<char>, name: Seq<char>) -> Option<Seq<char>> {
    let t = trimmed(p);
    if starts_with(t, name) && t.len() > name.len() && t[name.len() as int] == '=' {
        Some(trimmed(t.skip(name.len() as int + 1)))
    } else {
        None
    }
}

/// The first value that the parts of a cookie header give to a name.
pub open spec fn cookie_in(parts: Seq<Seq<char>>, name: Seq<char>) -> Option<Seq<char>>
    decreases parts.len(),
{
    if parts.len() == 0 {
        None
    } else if cookie_part(parts[0], name) is Some {
        cookie_part(parts[0], name)
    } else {
        cookie_in(parts.drop_first(), name)
    }
}

/// The value that a cookie header gives to a name (and not to another that merely begins or ends
/// with it).
pub fn cookie_value(header: &str, name: &str) -> (r: Option<String>)
    ensures
        r is Some <==> cookie_in(pieces(header@, ';'), name@) is Some,
        r matches Some(v) ==> cookie_in(pieces(header@, ';'), name@) == Some(v@),
{
    let h = chars_of(header);
    let n: usize = chars_of(name).len();
    let parts = split(h.as_slice(), ';');
    let ghost all = pieces(header@, ';');
    let mut i: usize = 0;
    assert(all.skip(0) =~= all);
    while i < parts.len()
        invariant
            n == name@.len(),
            all == pieces(header@, ';'),
            all == views(parts@),
            i <= parts@.len(),
            cookie_in(all, name@) == cookie_in(all.skip(i as int), name@),
        decreases parts@.len() - i,
    {
        assert(all.skip(i as int)[0] == parts@[i as int]@);
        assert(all.skip(i as int).drop_first() =~= all.skip(i + 1));
        let p = trim(parts[i]);
        if has_prefix(p, name) && p.len() > n && p[n] == '=' {
            let v = slice_subrange(p, n + 1, p.len());
            assert(v@ =~= p@.skip(n + 1));
            return Some(string_of(trim(v)));
        }
        i = i + 1;
    }
    assert(all.skip(i as int) =~= Seq::empty());
    None
}

/// The address of a client: what a trusted proxy says of it, or else the address that the
/// connection comes from.
pub open spec fn client_of(peer: IpAddr, real_ip: Option<Seq<char>>, trusted: Seq<IpAddr>) -> IpAddr {
    if trusted.contains(peer) && real_ip is Some && ip_value(trimmed(real_ip->0)) is Some {
        ip_value(trimmed(real_ip->0))->0
    } else {
        peer
    }
}

/// The address of a client. `real_ip` is what the header of a proxy says; it counts only where the
/// connection comes from a trusted proxy.
pub fn client_ip(peer: IpAddr, real_ip: Option<&str>, trusted: &[IpAddr]) -> (r: IpAddr)
    ensures
        r == client_of(
            peer,
            match real_ip {
                Some(s) => Some(s@),
                None => None,
            },
            trusted@,
        ),
{
    let mut known = false;
    let mut i: usize = 0;
    while i < trusted.len()
        invariant
            i <= trusted@.len(),
            known == exists|j: int| 0 <= j < i && #[trigger] trusted@[j] == peer,
        decreases trusted@.len() - i,
    {
        if trusted[i] == peer {
            known = true;
        }
        i = i + 1;
    }
    assert(known == trusted@.contains(peer));
    if known {
        if let Some(s) = real_ip {
            let v = chars_of(s);
            if let Some(ip) = read_ip(trim(v.as_slice())) {
                return ip;
            }
        }
    }
    peer
}

/// Whoever is not a trusted proxy cannot choose its address.
pub proof fn lemma_address_not_chosen(peer: IpAddr, real_ip: Option<Seq<char>>, trusted: Seq<IpAddr>)
    requires
        !trusted.contains(peer),
    ensures
        client_of(peer, real_ip, trusted) == peer,
{
}

} // verus!
