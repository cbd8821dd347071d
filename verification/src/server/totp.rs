//! One-time passwords by the time (RFC 6238: HMAC-SHA-1, six digits, steps of thirty seconds), and
//! the base32 that their secrets are written in.

use crate::num::{decimal, show_padded, zero_padded};
use crate::server::crypto::{bytes_equal, hmac_sha1, hmac_sha1_of};
use crate::server::util::lemma_utf8_injective;
use crate::text::{
    ascii_upper, chars_of, has_only_digits, is_ascii_alnum, only_digits, string_of, to_ascii_upper,
    trim, trimmed,
};
use vstd::prelude::*;
use vstd::string::*;
use vstd::utf8::encode_utf8;

verus! {

/// The length of a step, in seconds.
pub const STEP: u64 = 30;

/// The number of digits of a code.
pub const DIGITS: usize = 6;

// ---------------------------------------------------------------------------
// Base32
// ---------------------------------------------------------------------------

/// The letter that stands for a number below 32.
pub open spec fn base32_letter(v: int) -> char {
    if v < 26 {
        ('A' as int + v) as char
    } else {
        ('2' as int + v - 26) as char
    }
}

/// The number that a letter of either case stands for.
pub open spec fn base32_value(c: char) -> Option<u8> {
    let u = ascii_upper(c);
    if 'A' <= u && u <= 'Z' {
        Some((u as int - 'A' as int) as u8)
    } else if '2' <= u && u <= '7' {
        Some((u as int - '2' as int + 26) as u8)
    } else {
        None
    }
}

/// The byte number `i`, or 0 behind the end.
pub open spec fn byte_at(data: Seq<u8>, i: int) -> int {
    if 0 <= i < data.len() {
        data[i] as int
    } else {
        0
    }
}

/// The five bits number `k` of some bytes: five bytes make eight groups of five bits.
pub open spec fn quintet(data: Seq<u8>, k: int) -> int {
    let p = 5 * (k / 8);
    let r = k % 8;
    if r == 0 {
        byte_at(data, p) / 8
    } else if r == 1 {
        (byte_at(data, p) % 8) * 4 + byte_at(data, p + 1) / 64
    } else if r == 2 {
        (byte_at(data, p + 1) / 2) % 32
    } else if r == 3 {
        (byte_at(data, p + 1) % 2) * 16 + byte_at(data, p + 2) / 16
    } else if r == 4 {
        (byte_at(data, p + 2) % 16) * 2 + byte_at(data, p + 3) / 128
    } else if r == 5 {
        (byte_at(data, p + 3) / 4) % 32
    } else if r == 6 {
        (byte_at(data, p + 3) % 4) * 8 + byte_at(data, p + 4) / 32
    } else {
        byte_at(data, p + 4) % 32
    }
}

/// The number of letters for `n` bytes.
pub open spec fn base32_len(n: int) -> int {
    8 * (n / 5) + if n % 5 == 0 {
        0int
    } else if n % 5 == 1 {
        2
    } else if n % 5 == 2 {
        4
    } else if n % 5 == 3 {
        5
    } else {
        7
    }
}

/// Bytes in base32, without padding.
pub open spec fn base32_of(data: Seq<u8>) -> Seq<char> {
    Seq::new(base32_len(data.len() as int) as nat, |k: int| base32_letter(quintet(data, k)))
}

fn byte_or_0(data: &[u8], p: usize, off: usize) -> (r: u32)
    requires
        p <= data@.len(),
    ensures
        r == byte_at(data@, p + off),
        r < 256,
{
    if off < data.len() - p {
        data[p + off] as u32
    } else {
        0
    }
}

fn letter(v: u32) -> (c: char)
    requires
        v < 32,
    ensures
        c == base32_letter(v as int),
{
    if v < 26 {
        (65u8 + v as u8) as char
    } else {
        (24u8 + v as u8) as char
    }
}

fn quintet_of(data: &[u8], q: usize, r: usize) -> (v: u32)
    requires
        5 * q <= data@.len(),
        r < 8,
    ensures
        v == quintet(data@, 8 * q + r),
        v < 32,
{
    let n: usize = data.len();
    let p: usize = 5 * q;
    assert((8 * q + r) / 8 == q && (8 * q + r) % 8 == r);
    if r == 0 {
        byte_or_0(data, p, 0) / 8
    } else if r == 1 {
        (byte_or_0(data, p, 0) % 8) * 4 + byte_or_0(data, p, 1) / 64
    } else if r == 2 {
        (byte_or_0(data, p, 1) / 2) % 32
    } else if r == 3 {
        (byte_or_0(data, p, 1) % 2) * 16 + byte_or_0(data, p, 2) / 16
    } else if r == 4 {
        (byte_or_0(data, p, 2) % 16) * 2 + byte_or_0(data, p, 3) / 128
    } else if r == 5 {
        (byte_or_0(data, p, 3) / 4) % 32
    } else if r == 6 {
        (byte_or_0(data, p, 3) % 4) * 8 + byte_or_0(data, p, 4) / 32
    } else {
        byte_or_0(data, p, 4) % 32
    }
}

/// Writes bytes in base32, without padding.
pub fn base32_encode(data: &[u8]) -> (s: String)
    ensures
        s@ == base32_of(data@),
{
    let n: usize = data.len();
    let blocks: usize = n / 5;
    let rest: usize = n % 5;
    let last: usize = if rest == 0 {
        0
    } else if rest == 1 {
        2
    } else if rest == 2 {
        4
    } else if rest == 3 {
        5
    } else {
        7
    };
    let ghost all = base32_of(data@);
    let mut s = String::new();
    let mut q: usize = 0;
    while q < blocks
        invariant
            n == data@.len(),
            blocks == n / 5,
            q <= blocks,
            all == base32_of(data@),
            s@ == all.take(8 * q),
        decreases blocks - q,
    {
        let mut r: usize = 0;
        while r < 8
            invariant
                n == data@.len(),
                    blocks == n / 5,
                q < blocks,
                r <= 8,
                all == base32_of(data@),
                s@ == all.take(8 * q + r),
            decreases 8 - r,
        {
            s.push(letter(quintet_of(data, q, r)));
            r = r + 1;
            assert(s@ =~= all.take(8 * q + r));
        }
        q = q + 1;
    }
    let mut r: usize = 0;
    while r < last
        invariant
            n == data@.len(),
            blocks == n / 5,
            last <= 7,
            8 * blocks + last == base32_len(n as int),
            r <= last,
            all == base32_of(data@),
            s@ == all.take(8 * blocks + r),
        decreases last - r,
    {
        s.push(letter(quintet_of(data, blocks, r)));
        r = r + 1;
        assert(s@ =~= all.take(8 * blocks + r));
    }
    assert(all.take(8 * blocks + last) =~= all);
    s
}

/// The numbers that the letters of `s` stand for; spaces and equals signs count for nothing. `None`
/// where another character stands in `s`.
pub open spec fn base32_values(s: Seq<char>) -> Option<Seq<u8>>
    decreases s.len(),
{
    if s.len() == 0 {
        Some(Seq::empty())
    } else {
        match base32_values(s.drop_last()) {
            None => None,
            Some(v) => if s.last() == ' ' || s.last() == '=' {
                Some(v)
            } else {
                match base32_value(s.last()) {
                    Some(x) => Some(v.push(x)),
                    None => None,
                }
            },
        }
    }
}

/// The byte number `i` that groups of five bits form.
pub open spec fn byte_from(v: Seq<u8>, i: int) -> int {
    let p = 8 * (i / 5);
    let r = i % 5;
    if r == 0 {
        byte_at(v, p) * 8 + byte_at(v, p + 1) / 4
    } else if r == 1 {
        (byte_at(v, p + 1) % 4) * 64 + byte_at(v, p + 2) * 2 + byte_at(v, p + 3) / 16
    } else if r == 2 {
        (byte_at(v, p + 3) % 16) * 16 + byte_at(v, p + 4) / 2
    } else if r == 3 {
        (byte_at(v, p + 4) % 2) * 128 + byte_at(v, p + 5) * 4 + byte_at(v, p + 6) / 8
    } else {
        (byte_at(v, p + 6) % 8) * 32 + byte_at(v, p + 7)
    }
}

/// The number of whole bytes in `k` groups of five bits.
pub open spec fn bytes_in(k: int) -> int {
    (5 * k) / 8
}

/// The bytes that groups of five bits form; bits that make no whole byte are dropped.
pub open spec fn bytes_from(v: Seq<u8>) -> Seq<u8> {
    Seq::new(bytes_in(v.len() as int) as nat, |i: int| byte_from(v, i) as u8)
}

/// The bytes that a text in base32 stands for.
pub open spec fn base32_bytes(s: Seq<char>) -> Option<Seq<u8>> {
    match base32_values(s) {
        Some(v) => Some(bytes_from(v)),
        None => None,
    }
}

fn letter_value(c: char) -> (r: Option<u8>)
    ensures
        r == base32_value(c),
        r matches Some(v) ==> v < 32,
{
    let u = to_ascii_upper(c);
    if 'A' <= u && u <= 'Z' {
        Some((u as u32 - 'A' as u32) as u8)
    } else if '2' <= u && u <= '7' {
        Some((u as u32 - '2' as u32 + 26) as u8)
    } else {
        None
    }
}

fn read_values(s: &[char]) -> (r: Option<Vec<u8>>)
    ensures
        r is Some <==> base32_values(s@) is Some,
        r matches Some(v) ==> base32_values(s@) == Some(v@) && v@.len() <= s@.len() && forall|j:
            int|
            0 <= j < v@.len() ==> #[trigger] v@[j] < 32,
{
    let mut out: Vec<u8> = Vec::new();
    let mut i: usize = 0;
    assert(s@.take(0) =~= Seq::<char>::empty());
    assert(out@ =~= Seq::empty());
    while i < s.len()
        invariant
            i <= s@.len(),
            out@.len() <= i,
            base32_values(s@.take(i as int)) == Some(out@),
            forall|j: int| 0 <= j < out@.len() ==> #[trigger] out@[j] < 32,
        decreases s@.len() - i,
    {
        assert(s@.take(i + 1).drop_last() =~= s@.take(i as int));
        let c = s[i];
        if c != ' ' && c != '=' {
            match letter_value(c) {
                Some(v) => {
                    out.push(v);
                },
                None => {
                    proof {
                        lemma_values_fail(s@, i + 1);
                    }
                    return None;
                },
            }
        }
        i = i + 1;
    }
    assert(s@.take(i as int) =~= s@);
    Some(out)
}

proof fn lemma_values_fail(s: Seq<char>, i: int)
    requires
        0 <= i <= s.len(),
        base32_values(s.take(i)) is None,
    ensures
        base32_values(s) is None,
    decreases s.len() - i,
{
    if i < s.len() {
        assert(s.take(i + 1).drop_last() =~= s.take(i));
        lemma_values_fail(s, i + 1);
    } else {
        assert(s.take(i) =~= s);
    }
}

/// Reads a text in base32: case, spaces and padding do not matter. `None` where it holds another
/// character.
pub fn base32_decode(s: &str) -> (r: Option<Vec<u8>>)
    ensures
        r is Some <==> base32_bytes(s@) is Some,
        r matches Some(b) ==> base32_bytes(s@) == Some(b@),
{
    let c = chars_of(s);
    match read_values(c.as_slice()) {
        None => None,
        Some(v) => {
            let k: usize = v.len();
            let ghost all = bytes_from(v@);
            let mut out: Vec<u8> = Vec::new();
            let mut buffer: u32 = 0;
            let mut bits: u32 = 0;
            let mut i: usize = 0;
            assert(out@ =~= all.take(0));
            while i < k
                invariant
                    k == v@.len(),
                    all == bytes_from(v@),
                    forall|j: int| 0 <= j < v@.len() ==> #[trigger] v@[j] < 32,
                    i <= k,
                    bits == (5 * i) % 8,
                    out@ == all.take((5 * i) / 8),
                    (5 * i) / 8 <= all.len(),
                    buffer == carried(v@, i as int),
                    buffer < 256,
                decreases k - i,
            {
                let x: u32 = v[i] as u32;
                proof {
                    lemma_carried(v@, i as int);
                }
                let wide: u32 = buffer * 32 + x;
                let n: u32 = bits + 5;
                if n >= 8 {
                    bits = n - 8;
                    let unit: u32 = if bits == 0 {
                        1
                    } else if bits == 1 {
                        2
                    } else if bits == 2 {
                        4
                    } else if bits == 3 {
                        8
                    } else {
                        16
                    };
                    out.push((wide / unit) as u8);
                    buffer = wide % unit;
                } else {
                    bits = n;
                    buffer = wide;
                }
                i = i + 1;
                assert(out@ =~= all.take((5 * i) / 8));
            }
            assert(out@ =~= all);
            Some(out)
        },
    }
}

/// The bits of the first `i` groups that make no whole byte yet.
spec fn carried(v: Seq<u8>, i: int) -> int {
    let p = 8 * (i / 8);
    let r = i % 8;
    if r == 0 {
        0
    } else if r == 1 {
        byte_at(v, p)
    } else if r == 2 {
        byte_at(v, p + 1) % 4
    } else if r == 3 {
        (byte_at(v, p + 1) % 4) * 32 + byte_at(v, p + 2)
    } else if r == 4 {
        byte_at(v, p + 3) % 16
    } else if r == 5 {
        byte_at(v, p + 4) % 2
    } else if r == 6 {
        (byte_at(v, p + 4) % 2) * 32 + byte_at(v, p + 5)
    } else {
        byte_at(v, p + 6) % 8
    }
}

proof fn lemma_carried(v: Seq<u8>, i: int)
    requires
        0 <= i < v.len(),
        forall|j: int| 0 <= j < v.len() ==> #[trigger] v[j] < 32,
    ensures
        ({
            let wide = carried(v, i) * 32 + v[i];
            let n = (5 * i) % 8 + 5;
            let unit = if n == 8 {
                1int
            } else if n == 9 {
                2
            } else if n == 10 {
                4
            } else if n == 11 {
                8
            } else {
                16
            };
            if n >= 8 {
                &&& (5 * i) / 8 < bytes_in(v.len() as int)
                &&& (5 * (i + 1)) / 8 == (5 * i) / 8 + 1
                &&& (5 * (i + 1)) % 8 == n - 8
                &&& wide / unit == byte_from(v, (5 * i) / 8)
                &&& wide / unit < 256
                &&& wide % unit == carried(v, i + 1)
            } else {
                &&& (5 * (i + 1)) / 8 == (5 * i) / 8
                &&& (5 * (i + 1)) % 8 == n
                &&& wide == carried(v, i + 1)
                &&& wide < 256
            }
        }),
{
    let q = i / 8;
    let r = i % 8;
    assert(i == 8 * q + r);
    assert(v[i] < 32);
    if r >= 1 {
        assert(v[8 * q] < 32);
    }
    if r >= 2 {
        assert(v[8 * q + 1] < 32);
    }
    if r >= 3 {
        assert(v[8 * q + 2] < 32);
    }
    if r >= 4 {
        assert(v[8 * q + 3] < 32);
    }
    if r >= 5 {
        assert(v[8 * q + 4] < 32);
    }
    if r >= 6 {
        assert(v[8 * q + 5] < 32);
    }
    if r >= 7 {
        assert(v[8 * q + 6] < 32);
    }
}

proof fn lemma_letter_value(v: int)
    requires
        0 <= v < 32,
    ensures
        base32_value(base32_letter(v)) == Some(v as u8),
        base32_letter(v) != ' ',
        base32_letter(v) != '=',
{
    let c = base32_letter(v);
    assert(ascii_upper(c) == c);
}

proof fn lemma_values_of(s: Seq<char>, v: Seq<u8>)
    requires
        s.len() == v.len(),
        forall|k: int| 0 <= k < v.len() ==> #[trigger] v[k] < 32 && s[k] == base32_letter(v[k] as int),
    ensures
        base32_values(s) == Some(v),
    decreases s.len(),
{
    if s.len() > 0 {
        let n = s.len() - 1;
        assert forall|k: int| 0 <= k < v.drop_last().len() implies #[trigger] v.drop_last()[k] < 32
            && s.drop_last()[k] == base32_letter(v.drop_last()[k] as int) by {
            assert(v[k] < 32);
        }
        lemma_values_of(s.drop_last(), v.drop_last());
        assert(v[n] < 32);
        lemma_letter_value(v[n] as int);
        assert(v.drop_last().push(v.last()) =~= v);
    } else {
        assert(v =~= Seq::empty());
    }
}

proof fn lemma_bits_0(a: int, b: int)
    requires
        0 <= a < 256,
        0 <= b < 256,
    ensures
        (a / 8) * 8 + ((a % 8) * 4 + b / 64) / 4 == a,
{
}

proof fn lemma_bits_1(a: int, b: int, c: int)
    requires
        0 <= a < 256,
        0 <= b < 256,
        0 <= c < 256,
    ensures
        (((a % 8) * 4 + b / 64) % 4) * 64 + ((b / 2) % 32) * 2 + ((b % 2) * 16 + c / 16) / 16 == b,
{
}

proof fn lemma_bits_2(b: int, c: int, d: int)
    requires
        0 <= b < 256,
        0 <= c < 256,
        0 <= d < 256,
    ensures
        (((b % 2) * 16 + c / 16) % 16) * 16 + ((c % 16) * 2 + d / 128) / 2 == c,
{
}

proof fn lemma_bits_3(c: int, d: int, e: int)
    requires
        0 <= c < 256,
        0 <= d < 256,
        0 <= e < 256,
    ensures
        (((c % 16) * 2 + d / 128) % 2) * 128 + ((d / 4) % 32) * 4 + ((d % 4) * 8 + e / 32) / 8 == d,
{
}

proof fn lemma_bits_4(d: int, e: int)
    requires
        0 <= d < 256,
        0 <= e < 256,
    ensures
        (((d % 4) * 8 + e / 32) % 8) * 32 + e % 32 == e,
{
}

proof fn lemma_quintets(data: Seq<u8>, q: int)
    requires
        0 <= q,
    ensures
        quintet(data, 8 * q) == byte_at(data, 5 * q) / 8,
        quintet(data, 8 * q + 1) == (byte_at(data, 5 * q) % 8) * 4 + byte_at(data, 5 * q + 1) / 64,
        quintet(data, 8 * q + 2) == (byte_at(data, 5 * q + 1) / 2) % 32,
        quintet(data, 8 * q + 3) == (byte_at(data, 5 * q + 1) % 2) * 16 + byte_at(data, 5 * q + 2)
            / 16,
        quintet(data, 8 * q + 4) == (byte_at(data, 5 * q + 2) % 16) * 2 + byte_at(data, 5 * q + 3)
            / 128,
        quintet(data, 8 * q + 5) == (byte_at(data, 5 * q + 3) / 4) % 32,
        quintet(data, 8 * q + 6) == (byte_at(data, 5 * q + 3) % 4) * 8 + byte_at(data, 5 * q + 4)
            / 32,
        quintet(data, 8 * q + 7) == byte_at(data, 5 * q + 4) % 32,
{
    assert((8 * q) / 8 == q && (8 * q) % 8 == 0);
    assert((8 * q + 1) / 8 == q && (8 * q + 1) % 8 == 1);
    assert((8 * q + 2) / 8 == q && (8 * q + 2) % 8 == 2);
    assert((8 * q + 3) / 8 == q && (8 * q + 3) % 8 == 3);
    assert((8 * q + 4) / 8 == q && (8 * q + 4) % 8 == 4);
    assert((8 * q + 5) / 8 == q && (8 * q + 5) % 8 == 5);
    assert((8 * q + 6) / 8 == q && (8 * q + 6) % 8 == 6);
    assert((8 * q + 7) / 8 == q && (8 * q + 7) % 8 == 7);
}

proof fn lemma_group_exists(n: int, q: int, r: int)
    requires
        0 <= q,
        0 <= r < 5,
        5 * q + r < n,
    ensures
        8 * q + (if r == 0 {
            1int
        } else if r == 1 {
            3
        } else if r == 2 {
            4
        } else if r == 3 {
            6
        } else {
            7
        }) < base32_len(n),
{
}

proof fn lemma_byte_small(data: Seq<u8>, i: int)
    ensures
        0 <= byte_at(data, i) < 256,
{
    if 0 <= i < data.len() {
        let b: u8 = data[i];
        assert(0 <= b < 256);
    }
}

proof fn lemma_byte_of_quintets(data: Seq<u8>, v: Seq<u8>, i: int)
    requires
        0 <= i < data.len(),
        v.len() == base32_len(data.len() as int),
        forall|k: int| 0 <= k < v.len() ==> byte_at(v, k) == #[trigger] quintet(data, k),
    ensures
        byte_from(v, i) == data[i],
{
    let q = i / 5;
    let r = i % 5;
    let p = 5 * q;
    assert(i == 5 * q + r);
    lemma_group_exists(data.len() as int, q, r);
    lemma_quintets(data, q);
    lemma_byte_small(data, p);
    lemma_byte_small(data, p + 1);
    lemma_byte_small(data, p + 2);
    lemma_byte_small(data, p + 3);
    lemma_byte_small(data, p + 4);
    let (a, b, c, d, e) = (
        byte_at(data, p),
        byte_at(data, p + 1),
        byte_at(data, p + 2),
        byte_at(data, p + 3),
        byte_at(data, p + 4),
    );
    if r == 0 {
        lemma_bits_0(a, b);
    } else if r == 1 {
        lemma_bits_1(a, b, c);
    } else if r == 2 {
        lemma_bits_2(b, c, d);
    } else if r == 3 {
        lemma_bits_3(c, d, e);
    } else {
        lemma_bits_4(d, e);
    }
}

proof fn lemma_quintet_small(data: Seq<u8>, k: int)
    requires
        0 <= k,
    ensures
        0 <= quintet(data, k) < 32,
{
    let p = 5 * (k / 8);
    assert(0 <= byte_at(data, p) < 256 && 0 <= byte_at(data, p + 1) < 256);
    assert(0 <= byte_at(data, p + 2) < 256 && 0 <= byte_at(data, p + 3) < 256);
    assert(0 <= byte_at(data, p + 4) < 256);
}

/// Reading back what was written in base32 gives the bytes that were written.
pub proof fn lemma_base32_roundtrip(data: Seq<u8>)
    ensures
        base32_bytes(base32_of(data)) == Some(data),
{
    let s = base32_of(data);
    let v = Seq::new(s.len(), |k: int| quintet(data, k) as u8);
    assert forall|k: int| 0 <= k < v.len() implies 0 <= #[trigger] quintet(data, k) < 32 by {
        lemma_quintet_small(data, k);
    }
    assert forall|k: int| 0 <= k < v.len() implies #[trigger] v[k] < 32 && s[k] == base32_letter(
        v[k] as int,
    ) by {
        lemma_quintet_small(data, k);
    }
    lemma_values_of(s, v);
    let n = data.len() as int;
    assert(bytes_in(base32_len(n)) == n);
    assert forall|k: int| 0 <= k < v.len() implies byte_at(v, k) == #[trigger] quintet(data, k) by {
        lemma_quintet_small(data, k);
    }
    assert forall|i: int| 0 <= i < n implies byte_from(v, i) as u8 == #[trigger] data[i] by {
        lemma_byte_of_quintets(data, v, i);
    }
    assert(bytes_from(v) =~= data);
}

// ---------------------------------------------------------------------------
// Codes
// ---------------------------------------------------------------------------

/// A number as eight bytes, the highest first.
pub open spec fn eight_bytes(n: u64) -> Seq<u8> {
    seq![
        (n / 0x100_0000_0000_0000) as u8,
        ((n / 0x1_0000_0000_0000) % 256) as u8,
        ((n / 0x100_0000_0000) % 256) as u8,
        ((n / 0x1_0000_0000) % 256) as u8,
        ((n / 0x100_0000) % 256) as u8,
        ((n / 0x1_0000) % 256) as u8,
        ((n / 0x100) % 256) as u8,
        (n % 256) as u8,
    ]
}

fn to_eight_bytes(n: u64) -> (v: Vec<u8>)
    ensures
        v@ == eight_bytes(n),
{
    let mut v: Vec<u8> = Vec::new();
    v.push((n / 0x100_0000_0000_0000) as u8);
    v.push(((n / 0x1_0000_0000_0000) % 256) as u8);
    v.push(((n / 0x100_0000_0000) % 256) as u8);
    v.push(((n / 0x1_0000_0000) % 256) as u8);
    v.push(((n / 0x100_0000) % 256) as u8);
    v.push(((n / 0x1_0000) % 256) as u8);
    v.push(((n / 0x100) % 256) as u8);
    v.push((n % 256) as u8);
    assert(v@ =~= eight_bytes(n));
    v
}

/// The code in a digest: thirty-one bits from the place that its last four bits name, of which the
/// last six decimal digits count.
pub open spec fn code_in(digest: Seq<u8>) -> nat {
    let o = digest.last() as int % 16;
    (((digest[o] as nat % 128) * 0x100_0000 + digest[o + 1] as nat * 0x1_0000 + digest[o + 2] as nat
        * 0x100 + digest[o + 3] as nat) % 1_000_000) as nat
}

/// The code in the digest of a counter.
pub fn truncate_digest(digest: &[u8]) -> (r: u32)
    requires
        digest@.len() == 20,
    ensures
        r == code_in(digest@),
        r < 1_000_000,
{
    let o: usize = (digest[19] % 16) as usize;
    let b0: u32 = (digest[o] % 128) as u32;
    let b1: u32 = digest[o + 1] as u32;
    let b2: u32 = digest[o + 2] as u32;
    let b3: u32 = digest[o + 3] as u32;
    (b0 * 0x100_0000 + b1 * 0x1_0000 + b2 * 0x100 + b3) % 1_000_000
}

/// The code of a secret for a counter.
pub open spec fn hotp_of(secret: Seq<u8>, counter: u64) -> nat {
    code_in(hmac_sha1_of(secret, eight_bytes(counter)))
}

/// The code of a secret for a counter.
pub fn hotp(secret: &[u8], counter: u64) -> (r: Option<u32>)
    ensures
        r is Some,
        r->0 == hotp_of(secret@, counter),
        r->0 < 1_000_000,
{
    let message = to_eight_bytes(counter);
    match hmac_sha1(secret, message.as_slice()) {
        Some(d) => Some(truncate_digest(d.as_slice())),
        None => None,
    }
}

/// The step that the time `now` lies in.
pub open spec fn step_of(now: i64) -> u64 {
    if now < 0 {
        0
    } else {
        (now as int / STEP as int) as u64
    }
}

/// The step before; before the first one comes the last of all numbers.
pub open spec fn step_before(t: u64) -> u64 {
    if t == 0 {
        u64::MAX
    } else {
        (t - 1) as u64
    }
}

/// A code as it is written: six digits.
pub open spec fn code_text(n: nat) -> Seq<char> {
    zero_padded(decimal(n), DIGITS as nat)
}

/// The form of a code: six digits.
pub open spec fn code_form(code: Seq<char>) -> bool {
    code.len() == DIGITS && only_digits(code)
}

/// The code is that of a secret at the time `now`, or one step earlier or later.
pub open spec fn code_matches(secret: Seq<u8>, code: Seq<char>, now: i64) -> bool {
    let t = step_of(now);
    code == code_text(hotp_of(secret, step_before(t))) || code == code_text(hotp_of(secret, t))
        || code == code_text(hotp_of(secret, (t + 1) as u64))
}

/// Whether the code of a digest is the given one.
pub fn code_is(expect: u32, code: &str) -> (r: bool)
    ensures
        r == (code_text(expect as nat) == code@),
{
    let text = show_padded(expect as u64, DIGITS);
    proof {
        lemma_utf8_injective(text@, code@);
    }
    bytes_equal(text.as_str().as_bytes(), code.as_bytes())
}

fn code_at(secret: &[u8], counter: u64, code: &str) -> (r: bool)
    ensures
        r == (code@ == code_text(hotp_of(secret@, counter))),
{
    match hotp(secret, counter) {
        Some(expect) => code_is(expect, code),
        None => false,
    }
}

/// A code is that of a secret (in base32, at least ten bytes) at the time `now`, in seconds, or one
/// step earlier or later.
pub open spec fn code_accepted(secret_b32: Seq<char>, code: Seq<char>, now: i64) -> bool {
    code_form(trimmed(code)) && base32_bytes(secret_b32) is Some && (base32_bytes(
        secret_b32,
    )->0).len() >= 10 && code_matches(base32_bytes(secret_b32)->0, trimmed(code), now)
}

/// Whether a code is that of a secret (in base32, at least ten bytes) at the time `now`, in seconds,
/// or one step earlier or later.
pub fn verify(secret_b32: &str, code: &str, now: i64) -> (r: bool)
    ensures
        r == code_accepted(secret_b32@, code@, now),
{
    let v = chars_of(code);
    let c = trim(v.as_slice());
    if c.len() != DIGITS || !has_only_digits(c) {
        return false;
    }
    let text = string_of(c);
    match base32_decode(secret_b32) {
        None => false,
        Some(secret) => {
            if secret.len() < 10 {
                return false;
            }
            let t: u64 = if now < 0 {
                0
            } else {
                now as u64 / STEP
            };
            let earlier: u64 = if t == 0 {
                u64::MAX
            } else {
                t - 1
            };
            if code_at(secret.as_slice(), earlier, text.as_str()) {
                return true;
            }
            if code_at(secret.as_slice(), t, text.as_str()) {
                return true;
            }
            code_at(secret.as_slice(), t + 1, text.as_str())
        },
    }
}

/// The code of the current step is accepted for the whole of the step, and for the steps before and
/// after it.
pub proof fn lemma_code_window(secret: Seq<u8>, at: i64, now: i64)
    requires
        0 <= at,
        0 <= now,
        step_of(at) <= step_of(now) + 1,
        step_of(now) <= step_of(at) + 1,
    ensures
        code_matches(secret, code_text(hotp_of(secret, step_of(at))), now),
{
}

// ---------------------------------------------------------------------------
// The address for an authenticator
// ---------------------------------------------------------------------------

/// A byte that stands for itself in an address.
pub open spec fn plain_byte(b: u8) -> bool {
    (48 <= b <= 57) || (65 <= b <= 90) || (97 <= b <= 122) || b == 45 || b == 95 || b == 46 || b
        == 126
}

/// The upper-case hexadecimal digit for `d`.
pub open spec fn upper_hex(d: int) -> char {
    if d < 10 {
        ('0' as int + d) as char
    } else {
        ('A' as int + d - 10) as char
    }
}

/// A byte as it is written in an address.
pub open spec fn uri_byte(b: u8) -> Seq<char> {
    if plain_byte(b) {
        seq![b as char]
    } else {
        seq!['%', upper_hex(b as int / 16), upper_hex(b as int % 16)]
    }
}

/// Bytes as they are written in an address.
pub open spec fn uri_bytes(b: Seq<u8>) -> Seq<char>
    decreases b.len(),
{
    if b.len() == 0 {
        Seq::empty()
    } else {
        uri_bytes(b.drop_last()) + uri_byte(b.last())
    }
}

fn show_upper_hex(d: u8) -> (c: char)
    requires
        d < 16,
    ensures
        c == upper_hex(d as int),
{
    if d < 10 {
        (48u8 + d) as char
    } else {
        (55u8 + d) as char
    }
}

fn uri_encode(s: &str) -> (r: String)
    ensures
        r@ == uri_bytes(encode_utf8(s@)),
{
    let b = s.as_bytes();
    let mut out = String::new();
    let mut i: usize = 0;
    assert(b@.take(0) =~= Seq::<u8>::empty());
    while i < b.len()
        invariant
            i <= b@.len(),
            out@ == uri_bytes(b@.take(i as int)),
        decreases b@.len() - i,
    {
        assert(b@.take(i + 1).drop_last() =~= b@.take(i as int));
        let ghost prev = out@;
        let x: u8 = b[i];
        if (48 <= x && x <= 57) || (65 <= x && x <= 90) || (97 <= x && x <= 122) || x == 45 || x
            == 95 || x == 46 || x == 126 {
            out.push(x as char);
            assert(out@ =~= prev + uri_byte(x));
        } else {
            out.push('%');
            out.push(show_upper_hex(x / 16));
            out.push(show_upper_hex(x % 16));
            assert(out@ =~= prev + uri_byte(x));
        }
        i = i + 1;
    }
    assert(b@.take(i as int) =~= b@);
    out
}

/// The address that an authenticator is set up with.
pub open spec fn uri_text(secret_b32: Seq<char>, account: Seq<char>, issuer: Seq<char>) -> Seq<char> {
    "otpauth://totp/"@ + uri_bytes(encode_utf8(issuer)) + ":"@ + uri_bytes(encode_utf8(account))
        + "?secret="@ + secret_b32 + "&issuer="@ + uri_bytes(encode_utf8(issuer))
        + "&digits=6&period=30"@
}

/// The address that an authenticator is set up with.
pub fn provisioning_uri(secret_b32: &str, account: &str, issuer: &str) -> (r: String)
    ensures
        r@ == uri_text(secret_b32@, account@, issuer@),
{
    let iss = uri_encode(issuer);
    let acc = uri_encode(account);
    let mut s = "otpauth://totp/".to_string();
    s.append(iss.as_str());
    s.append(":");
    s.append(acc.as_str());
    s.append("?secret=");
    s.append(secret_b32);
    s.append("&issuer=");
    s.append(iss.as_str());
    s.append("&digits=6&period=30");
    s
}

/// Nothing of a name that is written in an address can end the part of the address that it stands
/// in: only letters, digits, `- _ . ~` and percent signs appear.
pub proof fn lemma_uri_plain(b: Seq<u8>)
    ensures
        forall|i: int|
            0 <= i < uri_bytes(b).len() ==> is_ascii_alnum(#[trigger] uri_bytes(b)[i])
                || uri_bytes(b)[i] == '-' || uri_bytes(b)[i] == '_' || uri_bytes(b)[i] == '.'
                || uri_bytes(b)[i] == '~' || uri_bytes(b)[i] == '%',
    decreases b.len(),
{
    if b.len() > 0 {
        lemma_uri_plain(b.drop_last());
        let head = uri_bytes(b.drop_last());
        let out = uri_bytes(b);
        let x: u8 = b.last();
        assert(0 <= x as int / 16 < 16 && 0 <= x as int % 16 < 16);
        assert forall|i: int| 0 <= i < out.len() implies is_ascii_alnum(#[trigger] out[i]) || out[i]
            == '-' || out[i] == '_' || out[i] == '.' || out[i] == '~' || out[i] == '%' by {
            if i < head.len() {
                assert(out[i] == head[i]);
            } else {
                assert(out[i] == uri_byte(x)[i - head.len()]);
            }
        }
    }
}

} // verus!
