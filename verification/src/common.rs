//! What the server and the agent share: the messages between them, and the cleaning that
//! every message goes through before anything of it is stored.

use crate::text::{
    chars_of, is_control, is_digit, is_space, string_of, trim, trim_end, trim_start, trimmed,
};
use vstd::prelude::*;
use vstd::slice::slice_subrange;

pub use crate::clock::unix_now;

verus! {

/// The version of the protocol.
pub const PROTOCOL_VERSION: u32 = 1;

/// The longest WebSocket message, in bytes, that either end accepts.
pub const MAX_WS_MESSAGE_BYTES: usize = 262_144;

/// The most mount points in one report.
pub const MAX_DISKS: usize = 16;

/// The most network interfaces in one report.
pub const MAX_NETS: usize = 16;

/// The most processor cores in one report.
pub const MAX_CORES: usize = 128;

/// The most watched services in one report.
pub const MAX_SERVICES: usize = 20;

/// The most containers in one report.
pub const MAX_CONTAINERS: usize = 30;

/// The most busy processes in one report.
pub const MAX_TOP_PROCS: usize = 10;

/// The most watched processes in one report.
pub const MAX_WATCH_PROCS: usize = 12;

/// The largest size or usage, in bytes (2 to the power 60).
pub const MAX_BYTES_VALUE: u64 = 0x1000_0000_0000_0000;

/// The largest rate per second (2 to the power 50).
pub const MAX_BPS: u64 = 0x4_0000_0000_0000;

/// The longest uptime in seconds (fifty years).
pub const MAX_UPTIME: u64 = 1_581_120_000;

/// The largest number of processes.
pub const MAX_PROCS: u32 = 4_000_000;

/// The largest number of inodes (2 to the power 40).
pub const MAX_INODES: u64 = 0x100_0000_0000;

/// The largest number of TCP connections.
pub const MAX_TCP: u32 = 10_000_000;

/// The largest number of processes under one name.
pub const MAX_PROC_COUNT: u32 = 1_000_000;

/// The largest number of cores.
pub const MAX_HOST_CORES: u32 = 4096;

// ---------------------------------------------------------------------------
// Small texts
// ---------------------------------------------------------------------------

/// The lower-case hexadecimal digit for `d`.
pub open spec fn hex_char(d: int) -> char {
    if d < 10 {
        ('0' as int + d) as char
    } else {
        ('a' as int + d - 10) as char
    }
}

/// `bytes` in lower-case hexadecimal, two digits for each.
pub open spec fn hex_of(bytes: Seq<u8>) -> Seq<char> {
    Seq::new(
        2 * bytes.len(),
        |i: int|
            if i % 2 == 0 {
                hex_char(bytes[i / 2] as int / 16)
            } else {
                hex_char(bytes[i / 2] as int % 16)
            },
    )
}

/// A lower-case hexadecimal digit.
#[verifier::allow_in_spec]
pub fn is_hex_digit(c: char) -> bool
    returns
        is_digit(c) || ('a' <= c && c <= 'f'),
{
    is_digit(c) || ('a' <= c && c <= 'f')
}

/// `s` is not empty and holds lower-case hexadecimal digits alone.
pub open spec fn lower_hex(s: Seq<char>) -> bool {
    s.len() > 0 && forall|i: int| 0 <= i < s.len() ==> is_hex_digit(#[trigger] s[i])
}

/// Every non-empty sequence of bytes is written in hexadecimal digits.
pub proof fn lemma_hex_of(bytes: Seq<u8>)
    ensures
        bytes.len() > 0 ==> lower_hex(hex_of(bytes)),
{
}

proof fn lemma_hex_char_injective(x: int, y: int)
    requires
        0 <= x < 16,
        0 <= y < 16,
        hex_char(x) == hex_char(y),
    ensures
        x == y,
{
}

/// Different bytes are written differently.
pub proof fn lemma_hex_injective(a: Seq<u8>, b: Seq<u8>)
    requires
        hex_of(a) == hex_of(b),
    ensures
        a == b,
{
    assert(hex_of(a).len() == 2 * a.len());
    assert(hex_of(b).len() == 2 * b.len());
    assert forall|i: int| 0 <= i < a.len() implies a[i] == b[i] by {
        assert(hex_of(a)[2 * i] == hex_of(b)[2 * i]);
        assert(hex_of(a)[2 * i + 1] == hex_of(b)[2 * i + 1]);
        assert((2 * i) / 2 == i && (2 * i + 1) / 2 == i);
        assert((2 * i) % 2 == 0 && (2 * i + 1) % 2 == 1);
        let (x, y) = (a[i], b[i]);
        assert(hex_of(a)[2 * i] == hex_char(x as int / 16));
        assert(hex_of(b)[2 * i] == hex_char(y as int / 16));
        assert(hex_of(a)[2 * i + 1] == hex_char(x as int % 16));
        assert(hex_of(b)[2 * i + 1] == hex_char(y as int % 16));
        lemma_hex_char_injective(x as int / 16, y as int / 16);
        lemma_hex_char_injective(x as int % 16, y as int % 16);
    }
    assert(a =~= b);
}

fn hex_digit(d: u8) -> (c: char)
    requires
        d < 16,
    ensures
        c == hex_char(d as int),
{
    if d < 10 {
        (48u8 + d) as char
    } else {
        (87u8 + d) as char
    }
}

/// The bytes in lower-case hexadecimal.
pub fn to_hex(bytes: &[u8]) -> (s: String)
    ensures
        s@ == hex_of(bytes@),
{
    let mut s = String::new();
    let mut i: usize = 0;
    while i < bytes.len()
        invariant
            i <= bytes@.len(),
            s@ == hex_of(bytes@.take(i as int)),
        decreases bytes@.len() - i,
    {
        let b: u8 = bytes[i];
        s.push(hex_digit(b / 16));
        s.push(hex_digit(b % 16));
        i = i + 1;
        assert(s@ =~= hex_of(bytes@.take(i as int)));
    }
    assert(bytes@.take(i as int) =~= bytes@);
    s
}

/// Whether `s` is not empty and holds lower-case hexadecimal digits alone.
pub fn is_lower_hex(s: &str) -> (r: bool)
    ensures
        r == lower_hex(s@),
{
    let v = chars_of(s);
    if v.len() == 0 {
        return false;
    }
    let mut i: usize = 0;
    while i < v.len()
        invariant
            i <= v@.len(),
            v@ == s@,
            forall|j: int| 0 <= j < i ==> is_hex_digit(#[trigger] s@[j]),
        decreases v@.len() - i,
    {
        if !is_hex_digit(v[i]) {
            assert(!is_hex_digit(s@[i as int]));
            return false;
        }
        i = i + 1;
    }
    true
}

/// `s` without its control characters.
pub open spec fn without_controls(s: Seq<char>) -> Seq<char>
    decreases s.len(),
{
    if s.len() == 0 {
        s
    } else if is_control(s.last()) {
        without_controls(s.drop_last())
    } else {
        without_controls(s.drop_last()).push(s.last())
    }
}

/// The first `n` characters of `s`, or all of them where there are fewer.
pub open spec fn first_chars(s: Seq<char>, n: nat) -> Seq<char> {
    if s.len() <= n {
        s
    } else {
        s.take(n as int)
    }
}

/// `s` without control characters, cut to `max` characters, and then trimmed.
pub open spec fn cleaned(s: Seq<char>, max: nat) -> Seq<char> {
    trimmed(first_chars(without_controls(s), max))
}

/// No character of `s` is a control character.
pub open spec fn no_controls(s: Seq<char>) -> bool {
    forall|i: int| 0 <= i < s.len() ==> !is_control(#[trigger] s[i])
}

proof fn lemma_trim_start_part(s: Seq<char>)
    ensures
        trim_start(s).len() <= s.len(),
        no_controls(s) ==> no_controls(trim_start(s)),
        trim_start(s).len() > 0 ==> !is_space(trim_start(s)[0]),
    decreases s.len(),
{
    if s.len() > 0 && is_space(s[0]) {
        lemma_trim_start_part(s.drop_first());
        if no_controls(s) {
            assert forall|i: int| 0 <= i < s.drop_first().len() implies !is_control(
                #[trigger] s.drop_first()[i],
            ) by {
                assert(s.drop_first()[i] == s[i + 1]);
            }
        }
    }
}

proof fn lemma_trim_end_part(s: Seq<char>)
    ensures
        trim_end(s).len() <= s.len(),
        no_controls(s) ==> no_controls(trim_end(s)),
        trim_end(s).len() > 0 ==> !is_space(trim_end(s).last()) && trim_end(s)[0] == s[0],
    decreases s.len(),
{
    if s.len() > 0 && is_space(s.last()) {
        lemma_trim_end_part(s.drop_last());
        if no_controls(s) {
            assert forall|i: int| 0 <= i < s.drop_last().len() implies !is_control(
                #[trigger] s.drop_last()[i],
            ) by {
                assert(s.drop_last()[i] == s[i]);
            }
        }
    }
}

proof fn lemma_without_controls(s: Seq<char>)
    ensures
        no_controls(without_controls(s)),
        no_controls(s) ==> without_controls(s) == s,
    decreases s.len(),
{
    if s.len() > 0 {
        let t = s.drop_last();
        lemma_without_controls(t);
        if no_controls(s) {
            assert forall|i: int| 0 <= i < t.len() implies !is_control(#[trigger] t[i]) by {
                assert(t[i] == s[i]);
            }
            assert(!is_control(s[s.len() - 1]));
            assert(t.push(s.last()) =~= s);
        }
    }
}

/// A cleaned text holds no control character, is no longer than its limit, and neither begins
/// nor ends with white space; cleaning it again changes nothing.
pub proof fn lemma_cleaned(s: Seq<char>, max: nat)
    ensures
        no_controls(cleaned(s, max)),
        cleaned(s, max).len() <= max,
        cleaned(s, max).len() > 0 ==> !is_space(cleaned(s, max)[0]) && !is_space(
            cleaned(s, max).last(),
        ),
        cleaned(cleaned(s, max), max) == cleaned(s, max),
{
    let a = without_controls(s);
    lemma_without_controls(s);
    let b = first_chars(a, max);
    assert(no_controls(b));
    let c = trim_start(b);
    lemma_trim_start_part(b);
    lemma_trim_end_part(c);
    let d = trim_end(c);
    lemma_without_controls(d);
    assert(trim_start(d) == d);
    assert(trim_end(d) == d);
}

/// Removes control characters, cuts to `max_chars` characters, and trims white space at both
/// ends.
pub fn clean_str(s: &str, max_chars: usize) -> (r: String)
    ensures
        r@ == cleaned(s@, max_chars as nat),
{
    let v = chars_of(s);
    let mut kept: Vec<char> = Vec::new();
    let mut i: usize = 0;
    assert(v@.take(0) =~= Seq::<char>::empty());
    while i < v.len()
        invariant
            i <= v@.len(),
            kept@ == without_controls(v@.take(i as int)),
        decreases v@.len() - i,
    {
        assert(v@.take(i + 1).drop_last() =~= v@.take(i as int));
        if !is_control(v[i]) {
            kept.push(v[i]);
        }
        i = i + 1;
    }
    assert(v@.take(i as int) =~= v@);
    let n: usize = if kept.len() <= max_chars {
        kept.len()
    } else {
        max_chars
    };
    let cut = slice_subrange(kept.as_slice(), 0, n);
    assert(cut@ =~= first_chars(without_controls(s@), max_chars as nat));
    string_of(trim(cut))
}

/// A short name: one to sixty-four characters, none of them a control character.
pub open spec fn short_name(s: Seq<char>) -> bool {
    1 <= s.len() <= 64 && no_controls(s)
}

/// Whether `s` has one to sixty-four characters and none of them is a control character.
pub fn valid_short_name(s: &str) -> (r: bool)
    ensures
        r == short_name(s@),
{
    let v = chars_of(s);
    if v.len() < 1 || v.len() > 64 {
        return false;
    }
    let mut i: usize = 0;
    while i < v.len()
        invariant
            i <= v@.len(),
            v@ == s@,
            forall|j: int| 0 <= j < i ==> !is_control(#[trigger] s@[j]),
        decreases v@.len() - i,
    {
        if is_control(v[i]) {
            assert(is_control(s@[i as int]));
            return false;
        }
        i = i + 1;
    }
    true
}

/// A text in hexadecimal takes as many bytes as it has characters.
pub proof fn lemma_hex_bytes(s: Seq<char>)
    requires
        lower_hex(s),
    ensures
        crate::text::byte_len(s) == s.len(),
{
    assert(vstd::utf8::is_ascii_chars(s)) by {
        assert forall|i: int| 0 <= i < s.len() implies '\0' <= #[trigger] s[i] <= '\u{7f}' by {
            assert(is_hex_digit(s[i]));
        }
    }
    vstd::utf8::is_ascii_chars_encode_utf8(s);
}

} // verus!
