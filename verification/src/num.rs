//! Numbers in decimal: what a text stands for, and how a number is written.

use crate::text::{is_digit, string_of};
use vstd::prelude::*;
use vstd::slice::slice_subrange;

verus! {

/// The digit that `c` stands for.
pub open spec fn digit_value(c: char) -> nat {
    (c as int - '0' as int) as nat
}

/// The character that stands for the digit `d`.
pub open spec fn digit_char(d: nat) -> char {
    ('0' as int + d) as char
}

/// `s` is not empty and holds ASCII digits alone.
pub open spec fn all_digits(s: Seq<char>) -> bool {
    s.len() > 0 && forall|i: int| 0 <= i < s.len() ==> is_digit(#[trigger] s[i])
}

/// The number that the digits `s` stand for.
pub open spec fn digits_value(s: Seq<char>) -> nat
    decreases s.len(),
{
    if s.len() == 0 {
        0
    } else {
        10 * digits_value(s.drop_last()) + digit_value(s.last())
    }
}

/// The natural number that `s` stands for: digits, which a plus sign may precede.
pub open spec fn parsed_nat(s: Seq<char>) -> Option<nat> {
    let t = if s.len() > 0 && s[0] == '+' {
        s.skip(1)
    } else {
        s
    };
    if all_digits(t) {
        Some(digits_value(t))
    } else {
        None
    }
}

/// The integer that `s` stands for: digits, which one sign may precede.
pub open spec fn parsed_int(s: Seq<char>) -> Option<int> {
    if s.len() > 0 && s[0] == '-' {
        if all_digits(s.skip(1)) {
            Some(-digits_value(s.skip(1)))
        } else {
            None
        }
    } else {
        match parsed_nat(s) {
            Some(v) => Some(v as int),
            None => None,
        }
    }
}

/// The natural number that `s` stands for, where it is at most `max`.
pub open spec fn parsed_upto(s: Seq<char>, max: nat) -> Option<nat> {
    match parsed_nat(s) {
        Some(v) => if v <= max {
            Some(v)
        } else {
            None
        },
        None => None,
    }
}

/// The integer that `s` stands for, where an `i64` can hold it.
pub open spec fn parsed_i64(s: Seq<char>) -> Option<i64> {
    match parsed_int(s) {
        Some(v) => if i64::MIN <= v <= i64::MAX {
            Some(v as i64)
        } else {
            None
        },
        None => None,
    }
}

/// The natural number that `s` stands for, where a `u64` can hold it.
pub open spec fn parsed_u64(s: Seq<char>) -> Option<u64> {
    match parsed_upto(s, u64::MAX as nat) {
        Some(v) => Some(v as u64),
        None => None,
    }
}

proof fn lemma_prefix_value(s: Seq<char>, i: int)
    requires
        0 <= i <= s.len(),
        forall|j: int| 0 <= j < s.len() ==> is_digit(#[trigger] s[j]),
    ensures
        digits_value(s.take(i)) <= digits_value(s),
    decreases s.len() - i,
{
    if i == s.len() {
        assert(s.take(i) =~= s);
    } else {
        assert(s.take(i + 1).drop_last() =~= s.take(i));
        lemma_prefix_value(s, i + 1);
    }
}

fn parse_digits(s: &[char], max: u64) -> (r: Option<u64>)
    ensures
        r is Some <==> all_digits(s@) && digits_value(s@) <= max,
        r matches Some(v) ==> v == digits_value(s@),
{
    if s.len() == 0 {
        return None;
    }
    let mut v: u64 = 0;
    let mut i: usize = 0;
    while i < s.len()
        invariant
            i <= s@.len(),
            v == digits_value(s@.take(i as int)),
            v <= max,
            forall|j: int| 0 <= j < i ==> is_digit(#[trigger] s@[j]),
        decreases s@.len() - i,
    {
        let c = s[i];
        if !is_digit(c) {
            assert(!is_digit(s@[i as int]));
            return None;
        }
        let d: u64 = (c as u32 - '0' as u32) as u64;
        let next: u128 = 10u128 * (v as u128) + d as u128;
        assert(s@.take(i + 1).drop_last() =~= s@.take(i as int));
        if next > max as u128 {
            proof {
                if all_digits(s@) {
                    lemma_prefix_value(s@, i + 1);
                }
            }
            return None;
        }
        v = next as u64;
        i = i + 1;
    }
    assert(s@.take(i as int) =~= s@);
    Some(v)
}

/// The number that `s` stands for, where it is one and at most `max`.
pub fn parse_upto(s: &[char], max: u64) -> (r: Option<u64>)
    ensures
        r is Some <==> parsed_upto(s@, max as nat) is Some,
        r matches Some(v) ==> parsed_upto(s@, max as nat) == Some(v as nat),
{
    if s.len() > 0 && s[0] == '+' {
        let t = slice_subrange(s, 1, s.len());
        assert(t@ =~= s@.skip(1));
        parse_digits(t, max)
    } else {
        parse_digits(s, max)
    }
}

/// The number that `s` stands for, where a `u64` can hold it.
pub fn parse_u64(s: &[char]) -> (r: Option<u64>)
    ensures
        r == parsed_u64(s@),
{
    parse_upto(s, u64::MAX)
}

/// The number that `s` stands for, where an `i64` can hold it.
pub fn parse_i64(s: &[char]) -> (r: Option<i64>)
    ensures
        r == parsed_i64(s@),
{
    if s.len() > 0 && s[0] == '-' {
        let t = slice_subrange(s, 1, s.len());
        assert(t@ =~= s@.skip(1));
        match parse_digits(t, 0x8000_0000_0000_0000u64) {
            Some(v) => if v == 0x8000_0000_0000_0000u64 {
                Some(i64::MIN)
            } else {
                Some(-(v as i64))
            },
            None => None,
        }
    } else {
        match parse_upto(s, i64::MAX as u64) {
            Some(v) => Some(v as i64),
            None => None,
        }
    }
}

/// `n` written in decimal.
pub open spec fn decimal(n: nat) -> Seq<char>
    decreases n,
{
    if n < 10 {
        seq![digit_char(n)]
    } else {
        decimal(n / 10).push(digit_char(n % 10))
    }
}

/// `i` written in decimal, with a minus sign where it is negative.
pub open spec fn decimal_int(i: int) -> Seq<char> {
    if i < 0 {
        seq!['-'] + decimal((-i) as nat)
    } else {
        decimal(i as nat)
    }
}

/// `s` behind as many zeros as make it `width` characters long.
pub open spec fn zero_padded(s: Seq<char>, width: nat) -> Seq<char> {
    if s.len() >= width {
        s
    } else {
        Seq::new((width - s.len()) as nat, |i: int| '0') + s
    }
}

/// What is written in decimal is made of digits and stands for the number written.
pub proof fn lemma_decimal(n: nat)
    ensures
        all_digits(decimal(n)),
        digits_value(decimal(n)) == n,
    decreases n,
{
    if n < 10 {
        assert(decimal(n).drop_last() =~= Seq::<char>::empty());
        assert(digits_value(Seq::<char>::empty()) == 0);
        assert(decimal(n).last() == digit_char(n));
    } else {
        lemma_decimal(n / 10);
        let p = decimal(n / 10);
        let s = decimal(n);
        assert(s.drop_last() =~= p);
        assert forall|i: int| 0 <= i < s.len() implies is_digit(#[trigger] s[i]) by {
            if i < p.len() {
                assert(s[i] == p[i]);
            }
        }
    }
}

/// Writing a number and reading it back gives the number.
pub proof fn lemma_decimal_roundtrip(i: int)
    ensures
        parsed_int(decimal_int(i)) == Some(i),
        i >= 0 ==> parsed_nat(decimal_int(i)) == Some(i as nat),
{
    if i < 0 {
        lemma_decimal((-i) as nat);
        assert(decimal_int(i).skip(1) =~= decimal((-i) as nat));
    } else {
        lemma_decimal(i as nat);
        let s = decimal(i as nat);
        assert(is_digit(s[0]));
    }
}

/// The digit `d` as a character.
pub fn digit_to_char(d: u64) -> (c: char)
    requires
        d < 10,
    ensures
        c == digit_char(d as nat),
{
    (48u8 + d as u8) as char
}

/// The characters of `n` in decimal.
pub fn decimal_chars(n: u64) -> (v: Vec<char>)
    ensures
        v@ == decimal(n as nat),
    decreases n,
{
    if n < 10 {
        let mut v: Vec<char> = Vec::new();
        v.push(digit_to_char(n));
        v
    } else {
        let mut v = decimal_chars(n / 10);
        v.push(digit_to_char(n % 10));
        v
    }
}

/// `n` in decimal.
pub fn show_u64(n: u64) -> (s: String)
    ensures
        s@ == decimal(n as nat),
{
    let v = decimal_chars(n);
    string_of(v.as_slice())
}

/// `n` in decimal.
pub fn show_i64(n: i64) -> (s: String)
    ensures
        s@ == decimal_int(n as int),
{
    if n < 0 {
        let mag: u64 = if n == i64::MIN {
            0x8000_0000_0000_0000u64
        } else {
            (-n) as u64
        };
        let w = decimal_chars(mag);
        let mut v: Vec<char> = Vec::new();
        v.push('-');
        v.extend_from_slice(w.as_slice());
        assert(v@ =~= decimal_int(n as int));
        string_of(v.as_slice())
    } else {
        show_u64(n as u64)
    }
}

/// `v` behind as many zeros as make it `width` characters long.
pub fn pad_zeros(v: &[char], width: usize) -> (r: Vec<char>)
    ensures
        r@ == zero_padded(v@, width as nat),
{
    let mut r: Vec<char> = Vec::new();
    let n: usize = if v.len() >= width {
        0
    } else {
        width - v.len()
    };
    let mut i: usize = 0;
    while i < n
        invariant
            i <= n,
            r@ == Seq::new(i as nat, |k: int| '0'),
        decreases n - i,
    {
        r.push('0');
        i = i + 1;
        assert(r@ =~= Seq::new(i as nat, |k: int| '0'));
    }
    r.extend_from_slice(v);
    assert(r@ =~= zero_padded(v@, width as nat));
    r
}

/// `n` in decimal, with leading zeros up to `width` characters.
pub fn show_padded(n: u64, width: usize) -> (s: String)
    ensures
        s@ == zero_padded(decimal(n as nat), width as nat),
{
    let v = decimal_chars(n);
    let r = pad_zeros(v.as_slice(), width);
    string_of(r.as_slice())
}

// ---------------------------------------------------------------------------
// Saturating arithmetic on signed numbers
// ---------------------------------------------------------------------------

/// The `i64` nearest to `x`.
pub open spec fn nearest_i64(x: int) -> i64 {
    if x < i64::MIN {
        i64::MIN
    } else if x > i64::MAX {
        i64::MAX
    } else {
        x as i64
    }
}

fn saturate(x: i128) -> (r: i64)
    ensures
        r == nearest_i64(x as int),
{
    if x < i64::MIN as i128 {
        i64::MIN
    } else if x > i64::MAX as i128 {
        i64::MAX
    } else {
        x as i64
    }
}

/// `a - b`, or the nearest number that an `i64` can hold.
pub fn sat_sub(a: i64, b: i64) -> (r: i64)
    ensures
        r == nearest_i64(a - b),
{
    saturate(a as i128 - b as i128)
}

/// `a + b`, or the nearest number that an `i64` can hold.
pub fn sat_add(a: i64, b: i64) -> (r: i64)
    ensures
        r == nearest_i64(a + b),
{
    saturate(a as i128 + b as i128)
}

/// Twice `a`, or the nearest number that an `i64` can hold.
pub fn sat_double(a: i64) -> (r: i64)
    ensures
        r == nearest_i64(2 * a),
{
    saturate(2i128 * (a as i128))
}

/// `a` times `b`, or the nearest number that an `i64` can hold.
pub fn sat_mul(a: i64, b: i64) -> (r: i64)
    ensures
        r == nearest_i64(a * b),
{
    assert(-0x4000_0000_0000_0000_0000_0000_0000_0000 <= a * b
        <= 0x4000_0000_0000_0000_0000_0000_0000_0000) by (nonlinear_arith)
        requires
            -0x8000_0000_0000_0000 <= a <= 0x7fff_ffff_ffff_ffff,
            -0x8000_0000_0000_0000 <= b <= 0x7fff_ffff_ffff_ffff,
    ;
    saturate(a as i128 * b as i128)
}

/// The larger of two numbers.
pub open spec fn larger(a: i64, b: i64) -> i64 {
    if a >= b {
        a
    } else {
        b
    }
}

/// The larger of two numbers.
pub fn max_i64(a: i64, b: i64) -> (r: i64)
    ensures
        r == larger(a, b),
{
    if a >= b {
        a
    } else {
        b
    }
}

/// `x` forced into the interval from `lo` to `hi`.
pub open spec fn clamped_i64(x: i64, lo: i64, hi: i64) -> i64 {
    if x < lo {
        lo
    } else if x > hi {
        hi
    } else {
        x
    }
}

/// Forces `x` into the interval from `lo` to `hi`.
pub fn clamp_i64(x: i64, lo: i64, hi: i64) -> (r: i64)
    ensures
        r == clamped_i64(x, lo, hi),
{
    if x < lo {
        lo
    } else if x > hi {
        hi
    } else {
        x
    }
}

} // verus!
