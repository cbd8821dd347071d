//! Internet addresses: their texts, and which of them are public.

use crate::num::{all_digits, digits_value, parse_upto};
use crate::text::{
    after, before, chars_of, has_only_digits, is_digit, pieces, split, split_once, views,
};
use vstd::prelude::*;
use vstd::slice::slice_subrange;

verus! {

/// An internet address, by the number that its bits form.
#[derive(Debug, Clone, Copy, PartialEq, Eq, Structural)]
pub enum IpAddr {
    V4(u32),
    V6(u128),
}

// ---------------------------------------------------------------------------
// Texts
// ---------------------------------------------------------------------------

/// A part of an IPv4 address: one to three digits without a leading zero, up to 255.
pub open spec fn octet_value(s: Seq<char>) -> Option<nat> {
    if all_digits(s) && s.len() <= 3 && (s.len() == 1 || s[0] != '0') && digits_value(s) <= 255 {
        Some(digits_value(s))
    } else {
        None
    }
}

/// The IPv4 address that `s` stands for: four parts between dots.
pub open spec fn ipv4_value(s: Seq<char>) -> Option<u32> {
    let p = pieces(s, '.');
    if p.len() == 4 && octet_value(p[0]) is Some && octet_value(p[1]) is Some && octet_value(p[2])
        is Some && octet_value(p[3]) is Some {
        Some(
            (0x100_0000 * octet_value(p[0])->0 + 0x1_0000 * octet_value(p[1])->0 + 0x100
                * octet_value(p[2])->0 + octet_value(p[3])->0) as u32,
        )
    } else {
        None
    }
}

/// A hexadecimal digit of either case.
#[verifier::allow_in_spec]
pub fn is_any_hex(c: char) -> bool
    returns
        is_digit(c) || ('a' <= c && c <= 'f') || ('A' <= c && c <= 'F'),
{
    is_digit(c) || ('a' <= c && c <= 'f') || ('A' <= c && c <= 'F')
}

/// The number that a hexadecimal digit stands for.
pub open spec fn hex_value(c: char) -> nat {
    if is_digit(c) {
        (c as int - '0' as int) as nat
    } else if 'a' <= c && c <= 'f' {
        (c as int - 'a' as int + 10) as nat
    } else {
        (c as int - 'A' as int + 10) as nat
    }
}

/// The number that hexadecimal digits stand for.
pub open spec fn hex_number(s: Seq<char>) -> nat
    decreases s.len(),
{
    if s.len() == 0 {
        0
    } else {
        16 * hex_number(s.drop_last()) + hex_value(s.last())
    }
}

/// A group of an IPv6 address: one to four hexadecimal digits.
pub open spec fn is_group(s: Seq<char>) -> bool {
    1 <= s.len() <= 4 && forall|i: int| 0 <= i < s.len() ==> is_any_hex(#[trigger] s[i])
}

/// The groups that the first `n` parts stand for. The last of all parts may be an IPv4 address,
/// which stands for two groups.
pub open spec fn groups_upto(p: Seq<Seq<char>>, n: int, v4: bool) -> Option<Seq<u16>>
    decreases n,
{
    if n <= 0 {
        Some(Seq::empty())
    } else {
        match groups_upto(p, n - 1, v4) {
            Some(g) => if is_group(p[n - 1]) {
                Some(g.push(hex_number(p[n - 1]) as u16))
            } else if v4 && n == p.len() && ipv4_value(p[n - 1]) is Some {
                Some(
                    g.push((ipv4_value(p[n - 1])->0 / 0x1_0000) as u16).push(
                        (ipv4_value(p[n - 1])->0 % 0x1_0000) as u16,
                    ),
                )
            } else {
                None
            },
            None => None,
        }
    }
}

/// The groups that `s` stands for: parts between colons, or nothing at all.
pub open spec fn groups_of(s: Seq<char>, v4: bool) -> Option<Seq<u16>> {
    if s.len() == 0 {
        Some(Seq::empty())
    } else {
        groups_upto(pieces(s, ':'), pieces(s, ':').len() as int, v4)
    }
}

/// The position of the first two colons in a row, or the length of `s`.
pub open spec fn double_colon(s: Seq<char>) -> int
    decreases s.len(),
{
    if s.len() < 2 {
        s.len() as int
    } else if s[0] == ':' && s[1] == ':' {
        0
    } else {
        1 + double_colon(s.drop_first())
    }
}

/// The eight groups that an IPv6 address in text form stands for. Two colons in a row stand for
/// one or more groups of zeros.
pub open spec fn ipv6_groups(s: Seq<char>) -> Option<Seq<u16>> {
    let i = double_colon(s);
    if i < s.len() {
        match (groups_of(s.take(i), false), groups_of(s.skip(i + 2), true)) {
            (Some(h), Some(t)) => if h.len() + t.len() <= 7 {
                Some(h + Seq::new((8 - h.len() - t.len()) as nat, |k: int| 0u16) + t)
            } else {
                None
            },
            _ => None,
        }
    } else {
        match groups_of(s, true) {
            Some(g) => if g.len() == 8 {
                Some(g)
            } else {
                None
            },
            None => None,
        }
    }
}

/// The number that groups of sixteen bits form.
pub open spec fn groups_number(g: Seq<u16>) -> nat
    decreases g.len(),
{
    if g.len() == 0 {
        0
    } else {
        0x1_0000 * groups_number(g.drop_last()) + g.last() as nat
    }
}

/// The IPv6 address that `s` stands for.
pub open spec fn ipv6_value(s: Seq<char>) -> Option<u128> {
    match ipv6_groups(s) {
        Some(g) => Some(groups_number(g) as u128),
        None => None,
    }
}

/// The address that `s` stands for.
pub open spec fn ip_value(s: Seq<char>) -> Option<IpAddr> {
    match ipv4_value(s) {
        Some(b) => Some(IpAddr::V4(b)),
        None => match ipv6_value(s) {
            Some(b) => Some(IpAddr::V6(b)),
            None => None,
        },
    }
}

fn read_octet(s: &[char]) -> (r: Option<u32>)
    ensures
        r is Some <==> octet_value(s@) is Some,
        r matches Some(v) ==> octet_value(s@) == Some(v as nat) && v <= 255,
{
    if s.len() == 0 || s.len() > 3 || !has_only_digits(s) {
        return None;
    }
    if s.len() > 1 && s[0] == '0' {
        return None;
    }
    assert(is_digit(s@[0]));
    match parse_upto(s, 255) {
        Some(v) => Some(v as u32),
        None => None,
    }
}

fn read_ipv4(s: &[char]) -> (r: Option<u32>)
    ensures
        r == ipv4_value(s@),
{
    let p = split(s, '.');
    let ghost ps = pieces(s@, '.');
    if p.len() != 4 {
        return None;
    }
    assert(ps[0] == p@[0]@ && ps[1] == p@[1]@ && ps[2] == p@[2]@ && ps[3] == p@[3]@);
    match (read_octet(p[0]), read_octet(p[1]), read_octet(p[2]), read_octet(p[3])) {
        (Some(a), Some(b), Some(c), Some(d)) => Some(
            0x100_0000 * a + 0x1_0000 * b + 0x100 * c + d,
        ),
        _ => None,
    }
}

/// The IPv4 address that `s` stands for.
pub fn parse_ipv4(s: &str) -> (r: Option<u32>)
    ensures
        r == ipv4_value(s@),
{
    let v = chars_of(s);
    read_ipv4(v.as_slice())
}

fn hex_digit_value(c: char) -> (r: u16)
    requires
        is_any_hex(c),
    ensures
        r == hex_value(c),
        r < 16,
{
    if is_digit(c) {
        (c as u32 - '0' as u32) as u16
    } else if 'a' <= c && c <= 'f' {
        (c as u32 - 'a' as u32 + 10) as u16
    } else {
        (c as u32 - 'A' as u32 + 10) as u16
    }
}

fn read_group(s: &[char]) -> (r: Option<u16>)
    ensures
        r is Some <==> is_group(s@),
        r matches Some(v) ==> v == hex_number(s@),
{
    if s.len() == 0 || s.len() > 4 {
        return None;
    }
    let mut v: u32 = 0;
    let mut i: usize = 0;
    while i < s.len()
        invariant
            i <= s@.len() <= 4,
            v == hex_number(s@.take(i as int)),
            i == 0 ==> v < 1,
            i == 1 ==> v < 0x10,
            i == 2 ==> v < 0x100,
            i == 3 ==> v < 0x1000,
            i == 4 ==> v < 0x1_0000,
            forall|j: int| 0 <= j < i ==> is_any_hex(#[trigger] s@[j]),
        decreases s@.len() - i,
    {
        if !is_any_hex(s[i]) {
            assert(!is_any_hex(s@[i as int]));
            return None;
        }
        assert(s@.take(i + 1).drop_last() =~= s@.take(i as int));
        v = 16 * v + hex_digit_value(s[i]) as u32;
        i = i + 1;
    }
    assert(s@.take(i as int) =~= s@);
    Some(v as u16)
}

fn read_groups(s: &[char], v4: bool) -> (r: Option<Vec<u16>>)
    ensures
        r is Some <==> groups_of(s@, v4) is Some,
        r matches Some(g) ==> groups_of(s@, v4) == Some(g@),
{
    let mut out: Vec<u16> = Vec::new();
    if s.len() == 0 {
        assert(out@ =~= Seq::empty());
        return Some(out);
    }
    let p = split(s, ':');
    let ghost ps = pieces(s@, ':');
    let n: usize = p.len();
    let mut i: usize = 0;
    assert(out@ =~= Seq::empty());
    while i < n
        invariant
            ps == pieces(s@, ':'),
            ps == views(p@),
            s@.len() > 0,
            n == p@.len(),
            i <= n,
            groups_upto(ps, i as int, v4) == Some(out@),
        decreases n - i,
    {
        assert(ps[i as int] == p@[i as int]@);
        match read_group(p[i]) {
            Some(g) => {
                out.push(g);
            },
            None => {
                let tail: Option<u32> = if v4 && i + 1 == n {
                    read_ipv4(p[i])
                } else {
                    None
                };
                match tail {
                    Some(b) => {
                        out.push((b / 0x1_0000) as u16);
                        out.push((b % 0x1_0000) as u16);
                    },
                    None => {
                        proof {
                            lemma_groups_fail(ps, i + 1, n as int, v4);
                        }
                        return None;
                    },
                }
            },
        }
        i = i + 1;
    }
    Some(out)
}

proof fn lemma_groups_fail(p: Seq<Seq<char>>, i: int, n: int, v4: bool)
    requires
        0 <= i <= n,
        groups_upto(p, i, v4) is None,
    ensures
        groups_upto(p, n, v4) is None,
    decreases n - i,
{
    if i < n {
        lemma_groups_fail(p, i + 1, n, v4);
    }
}

fn find_double_colon(s: &[char]) -> (i: usize)
    ensures
        i == double_colon(s@),
        i < s@.len() ==> i + 2 <= s@.len(),
        i <= s@.len(),
{
    let n: usize = s.len();
    let mut i: usize = 0;
    assert(s@.skip(0) =~= s@);
    while i < n && n - i >= 2
        invariant
            n == s@.len(),
            i <= n,
            double_colon(s@) == i + double_colon(s@.skip(i as int)),
        decreases n - i,
    {
        assert(s@.skip(i as int)[0] == s@[i as int]);
        assert(s@.skip(i as int)[1] == s@[i + 1]);
        assert(s@.skip(i as int).drop_first() =~= s@.skip(i + 1));
        if s[i] == ':' && s[i + 1] == ':' {
            return i;
        }
        i = i + 1;
    }
    n
}

proof fn lemma_groups_number(g: Seq<u16>)
    ensures
        g.len() == 0 ==> groups_number(g) == 0,
        g.len() == 1 ==> groups_number(g) < 0x1_0000,
        g.len() == 2 ==> groups_number(g) < 0x1_0000_0000,
        g.len() == 3 ==> groups_number(g) < 0x1_0000_0000_0000,
        g.len() == 4 ==> groups_number(g) < 0x1_0000_0000_0000_0000,
        g.len() == 5 ==> groups_number(g) < 0x1_0000_0000_0000_0000_0000,
        g.len() == 6 ==> groups_number(g) < 0x1_0000_0000_0000_0000_0000_0000,
        g.len() == 7 ==> groups_number(g) < 0x1_0000_0000_0000_0000_0000_0000_0000,
        g.len() == 8 ==> groups_number(g) <= u128::MAX,
    decreases g.len(),
{
    if g.len() > 0 {
        lemma_groups_number(g.drop_last());
        let x: u16 = g.last();
        assert(x < 0x1_0000);
    }
}

fn join_groups(g: &[u16]) -> (r: u128)
    requires
        g@.len() == 8,
    ensures
        r == groups_number(g@),
{
    let mut v: u128 = 0;
    let mut i: usize = 0;
    while i < 8
        invariant
            g@.len() == 8,
            i <= 8,
            v == groups_number(g@.take(i as int)),
        decreases 8 - i,
    {
        assert(g@.take(i + 1).drop_last() =~= g@.take(i as int));
        proof {
            lemma_groups_number(g@.take(i + 1));
        }
        v = 0x1_0000 * v + g[i] as u128;
        i = i + 1;
    }
    assert(g@.take(8) =~= g@);
    v
}

fn read_ipv6(s: &[char]) -> (r: Option<u128>)
    ensures
        r == ipv6_value(s@),
{
    let n: usize = s.len();
    let i: usize = find_double_colon(s);
    if i < n {
        let head = slice_subrange(s, 0, i);
        let tail = slice_subrange(s, i + 2, n);
        assert(head@ =~= s@.take(i as int));
        assert(tail@ =~= s@.skip(i + 2));
        match (read_groups(head, false), read_groups(tail, true)) {
            (Some(h), Some(t)) => {
                let mut all = h;
                if all.len() > 7 || t.len() > 7 - all.len() {
                    return None;
                }
                let ghost hv = all@;
                let zeros: usize = 8 - all.len() - t.len();
                let mut k: usize = 0;
                assert(all@ =~= hv + Seq::new(0, |j: int| 0u16));
                while k < zeros
                    invariant
                        k <= zeros,
                        all@ == hv + Seq::new(k as nat, |j: int| 0u16),
                    decreases zeros - k,
                {
                    all.push(0);
                    k = k + 1;
                    assert(all@ =~= hv + Seq::new(k as nat, |j: int| 0u16));
                }
                all.extend_from_slice(t.as_slice());
                assert(all@ =~= hv + Seq::new(zeros as nat, |j: int| 0u16) + t@);
                Some(join_groups(all.as_slice()))
            },
            _ => None,
        }
    } else {
        match read_groups(s, true) {
            Some(g) => if g.len() == 8 {
                Some(join_groups(g.as_slice()))
            } else {
                None
            },
            None => None,
        }
    }
}

/// The IPv6 address that `s` stands for.
pub fn parse_ipv6(s: &str) -> (r: Option<u128>)
    ensures
        r == ipv6_value(s@),
{
    let v = chars_of(s);
    read_ipv6(v.as_slice())
}

/// The address that the characters stand for.
pub fn read_ip(s: &[char]) -> (r: Option<IpAddr>)
    ensures
        r == ip_value(s@),
{
    match read_ipv4(s) {
        Some(b) => Some(IpAddr::V4(b)),
        None => match read_ipv6(s) {
            Some(b) => Some(IpAddr::V6(b)),
            None => None,
        },
    }
}

/// The address that `s` stands for.
pub fn parse_ip(s: &str) -> (r: Option<IpAddr>)
    ensures
        r == ip_value(s@),
{
    let v = chars_of(s);
    read_ip(v.as_slice())
}

/// The number of a port: digits, up to 65535.
pub open spec fn port_value(s: Seq<char>) -> Option<u16> {
    if all_digits(s) && digits_value(s) <= 65535 {
        Some(digits_value(s) as u16)
    } else {
        None
    }
}

fn read_port(s: &[char]) -> (r: Option<u16>)
    ensures
        r == port_value(s@),
{
    if s.len() == 0 || !has_only_digits(s) {
        return None;
    }
    assert(is_digit(s@[0]));
    match parse_upto(s, 65535) {
        Some(v) => Some(v as u16),
        None => None,
    }
}

/// An address with a port.
#[derive(Debug, Clone, Copy, PartialEq, Eq, Structural)]
pub struct SocketAddr {
    pub ip: IpAddr,
    pub port: u16,
    /// The scope of an IPv6 address; 0 where it has none.
    pub scope: u32,
}

/// What stands in the brackets of an address with a port: an IPv6 address, which a scope (a
/// number behind a percent sign) may follow.
pub open spec fn bracketed(s: Seq<char>) -> Option<(u128, u32)> {
    if s.contains('%') {
        if all_digits(after(s, '%')) && digits_value(after(s, '%')) <= u32::MAX {
            match ipv6_value(before(s, '%')) {
                Some(b) => Some((b, digits_value(after(s, '%')) as u32)),
                None => None,
            }
        } else {
            None
        }
    } else {
        match ipv6_value(s) {
            Some(b) => Some((b, 0)),
            None => None,
        }
    }
}

/// The address and the port that `s` stands for: an IPv4 address, a colon and a port, or an IPv6
/// address in brackets, a colon and a port.
pub open spec fn socket_value(s: Seq<char>) -> Option<SocketAddr> {
    if s.len() > 0 && s[0] == '[' {
        let t = s.skip(1);
        if !t.contains(']') {
            None
        } else {
            let tail = after(t, ']');
            if tail.len() > 0 && tail[0] == ':' {
                match (bracketed(before(t, ']')), port_value(tail.skip(1))) {
                    (Some((b, scope)), Some(port)) => Some(
                        SocketAddr { ip: IpAddr::V6(b), port, scope },
                    ),
                    _ => None,
                }
            } else {
                None
            }
        }
    } else if s.contains(':') {
        match (ipv4_value(before(s, ':')), port_value(after(s, ':'))) {
            (Some(b), Some(port)) => Some(SocketAddr { ip: IpAddr::V4(b), port, scope: 0 }),
            _ => None,
        }
    } else {
        None
    }
}

fn read_bracketed(s: &[char]) -> (r: Option<(u128, u32)>)
    ensures
        r == bracketed(s@),
{
    match split_once(s, '%') {
        Some((a, scope)) => {
            if scope.len() == 0 || !has_only_digits(scope) {
                return None;
            }
            assert(is_digit(scope@[0]));
            match parse_upto(scope, u32::MAX as u64) {
                Some(n) => match read_ipv6(a) {
                    Some(b) => Some((b, n as u32)),
                    None => None,
                },
                None => None,
            }
        },
        None => match read_ipv6(s) {
            Some(b) => Some((b, 0)),
            None => None,
        },
    }
}

/// The address and the port that `s` stands for.
pub fn parse_socket(s: &str) -> (r: Option<SocketAddr>)
    ensures
        r == socket_value(s@),
{
    let v = chars_of(s);
    let n: usize = v.len();
    if n > 0 && v[0] == '[' {
        let t = slice_subrange(v.as_slice(), 1, n);
        assert(t@ =~= s@.skip(1));
        match split_once(t, ']') {
            None => None,
            Some((inside, tail)) => {
                if tail.len() == 0 || tail[0] != ':' {
                    return None;
                }
                let port = slice_subrange(tail, 1, tail.len());
                assert(port@ =~= tail@.skip(1));
                match (read_bracketed(inside), read_port(port)) {
                    (Some((b, scope)), Some(port)) => Some(
                        SocketAddr { ip: IpAddr::V6(b), port, scope },
                    ),
                    _ => None,
                }
            },
        }
    } else {
        match split_once(v.as_slice(), ':') {
            None => None,
            Some((a, p)) => match (read_ipv4(a), read_port(p)) {
                (Some(b), Some(port)) => Some(SocketAddr { ip: IpAddr::V4(b), port, scope: 0 }),
                _ => None,
            },
        }
    }
}

// ---------------------------------------------------------------------------
// Kinds of addresses
// ---------------------------------------------------------------------------

/// The address is that of the host itself.
pub open spec fn loopback(ip: IpAddr) -> bool {
    match ip {
        IpAddr::V4(bits) => bits / 0x100_0000 == 127,
        IpAddr::V6(bits) => bits == 1,
    }
}

/// Whether the address is that of the host itself.
pub fn is_loopback(ip: &IpAddr) -> (r: bool)
    ensures
        r == loopback(*ip),
{
    match ip {
        IpAddr::V4(bits) => *bits / 0x100_0000 == 127,
        IpAddr::V6(bits) => *bits == 1,
    }
}

/// An IPv4 address that is public: not of the host, a private network, a link, a carrier, an
/// example, a benchmark or a reserved range, and not a group or broadcast address.
pub open spec fn public_v4(ip: u32) -> bool {
    let a = ip / 0x100_0000;
    let b = (ip / 0x1_0000) % 0x100;
    let c = (ip / 0x100) % 0x100;
    &&& a != 0
    &&& a != 10
    &&& a != 127
    &&& !(a == 100 && 64 <= b < 128)
    &&& !(a == 169 && b == 254)
    &&& !(a == 172 && 16 <= b < 32)
    &&& !(a == 192 && b == 0 && (c == 0 || c == 2))
    &&& !(a == 192 && b == 168)
    &&& !(a == 198 && 18 <= b < 20)
    &&& !(a == 198 && b == 51 && c == 100)
    &&& !(a == 203 && b == 0 && c == 113)
    &&& a < 224
}

/// Whether an IPv4 address is public.
pub fn ipv4_global(ip: u32) -> (r: bool)
    ensures
        r == public_v4(ip),
{
    let a: u32 = ip / 0x100_0000;
    let b: u32 = (ip / 0x1_0000) % 0x100;
    let c: u32 = (ip / 0x100) % 0x100;
    let loopback = a == 127;
    let private = a == 10 || (a == 172 && 16 <= b && b < 32) || (a == 192 && b == 168);
    let link = a == 169 && b == 254;
    let example = (a == 192 && b == 0 && c == 2) || (a == 198 && b == 51 && c == 100) || (a == 203
        && b == 0 && c == 113);
    let carrier = a == 100 && 64 <= b && b < 128;
    let benchmark = a == 198 && 18 <= b && b < 20;
    let protocol = a == 192 && b == 0 && c == 0;
    !(loopback || private || link || example || a == 0 || carrier || benchmark || protocol || a
        >= 224)
}

/// An IPv6 address that is public: not of the host, not unspecified, not of a group, a link, a
/// site or an example; one that holds an IPv4 address is public where that is.
pub open spec fn public_v6(ip: u128) -> bool {
    let s0 = ip / 0x1_0000_0000_0000_0000_0000_0000_0000;
    let s01 = ip / 0x1_0000_0000_0000_0000_0000_0000;
    let s05 = ip / 0x1_0000_0000;
    &&& ip != 0
    &&& ip != 1
    &&& s0 < 0xff00
    &&& !(0xfe80 <= s0 < 0xfec0)
    &&& !(0xfc00 <= s0 < 0xfe00)
    &&& s01 != 0x2001_0db8
    &&& (s05 == 0 || s05 == 0xffff) ==> public_v4((ip % 0x1_0000_0000) as u32)
}

/// Whether an IPv6 address is public.
pub fn ipv6_global(ip: u128) -> (r: bool)
    ensures
        r == public_v6(ip),
{
    let s0: u128 = ip / 0x1_0000_0000_0000_0000_0000_0000_0000;
    let s01: u128 = ip / 0x1_0000_0000_0000_0000_0000_0000;
    let s05: u128 = ip / 0x1_0000_0000;
    if ip == 0 || ip == 1 || s0 >= 0xff00 {
        return false;
    }
    if 0xfe80 <= s0 && s0 < 0xfec0 {
        return false;
    }
    if 0xfc00 <= s0 && s0 < 0xfe00 {
        return false;
    }
    if s01 == 0x2001_0db8 {
        return false;
    }
    if s05 == 0 || s05 == 0xffff {
        return ipv4_global((ip % 0x1_0000_0000) as u32);
    }
    true
}

/// The address is public.
pub open spec fn public_ip(ip: IpAddr) -> bool {
    match ip {
        IpAddr::V4(bits) => public_v4(bits),
        IpAddr::V6(bits) => public_v6(bits),
    }
}

/// Whether an address is public.
pub fn ip_global(ip: &IpAddr) -> (r: bool)
    ensures
        r == public_ip(*ip),
{
    match ip {
        IpAddr::V4(bits) => ipv4_global(*bits),
        IpAddr::V6(bits) => ipv6_global(*bits),
    }
}

/// No address of the host itself is public.
pub proof fn lemma_loopback_not_public(ip: IpAddr)
    ensures
        loopback(ip) ==> !public_ip(ip),
{
}

/// An IPv4 address in IPv6 form is public exactly where it is public itself: the form opens no
/// way round.
pub proof fn lemma_mapped_like_v4(v4: u32)
    ensures
        public_v6((0xffff_0000_0000 + v4) as u128) == public_v4(v4),
{
}

} // verus!
