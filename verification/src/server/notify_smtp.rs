//! Messages by mail: which mails are sent, what they look like, and the dialogue with the server
//! that takes them.

use crate::calendar::{civil_from_days, date_of, floor_div, lemma_date_of};
use crate::num::{
    decimal, decimal_int, digits_value, parse_upto, show_i64, show_padded, show_u64, zero_padded,
};
use crate::text::{
    after, before, byte_count, byte_count_of, byte_len, chars_of, contains, find, is_ascii_graphic,
    is_control, is_digit, lemma_on_one_line, on_one_line, pieces, split, split_once, string_of,
    trim, trimmed, utf8_text, views, without_line_ends,
};
use vstd::prelude::*;
use vstd::slice::slice_subrange;
use vstd::string::*;
use vstd::utf8::{decode_utf8, encode_utf8, valid_utf8};

verus! {

/// The longest answer of a mail server that is read, in bytes.
pub const MAX_REPLY: usize = 16_384;

/// How a mail is sent.
#[derive(Debug)]
pub struct SmtpCfg {
    pub host: String,
    pub port: u16,
    pub username: String,
    pub password: String,
    pub from: String,
    pub to: String,
}

/// The port for mail over TLS.
pub fn default_port() -> (r: u16)
    ensures
        r == 465,
{
    465
}

// ---------------------------------------------------------------------------
// Addresses
// ---------------------------------------------------------------------------

/// What stands behind the at sign: not empty, without a second at sign, with a dot inside.
pub open spec fn mail_domain(r: Seq<char>) -> bool {
    r.len() > 0 && !r.contains('@') && r.contains('.') && r[0] != '.' && r.last() != '.'
}

/// The shape of a mail address: no control characters at all, and, without the blanks around it,
/// 3 to 254 visible ASCII characters with a name and a domain.
pub open spec fn mail_address(s: Seq<char>) -> bool {
    let t = trimmed(s);
    &&& forall|i: int| 0 <= i < s.len() ==> !is_control(#[trigger] s[i])
    &&& 3 <= byte_len(t) <= 254
    &&& forall|i: int| 0 <= i < t.len() ==> is_ascii_graphic(#[trigger] t[i])
    &&& t.contains('@')
    &&& before(t, '@').len() > 0
    &&& mail_domain(after(t, '@'))
}

/// Whether a text has the shape of a mail address.
pub fn valid_email(s: &str) -> (r: bool)
    ensures
        r == mail_address(s@),
{
    let v = chars_of(s);
    let mut i: usize = 0;
    while i < v.len()
        invariant
            v@ == s@,
            i <= v@.len(),
            forall|j: int| 0 <= j < i ==> !is_control(#[trigger] v@[j]),
        decreases v@.len() - i,
    {
        if is_control(v[i]) {
            assert(is_control(s@[i as int]));
            return false;
        }
        i = i + 1;
    }
    let t = trim(v.as_slice());
    let n: usize = byte_count_of(t);
    if n < 3 || n > 254 {
        return false;
    }
    let mut k: usize = 0;
    while k < t.len()
        invariant
            t@ == trimmed(s@),
            k <= t@.len(),
            forall|j: int| 0 <= j < k ==> is_ascii_graphic(#[trigger] t@[j]),
        decreases t@.len() - k,
    {
        if !is_ascii_graphic(t[k]) {
            assert(!is_ascii_graphic(t@[k as int]));
            return false;
        }
        k = k + 1;
    }
    match split_once(t, '@') {
        Some((name, dom)) => name.len() > 0 && dom.len() > 0 && find(dom, '@').is_none() && find(
            dom,
            '.',
        ).is_some() && dom[0] != '.' && dom[dom.len() - 1] != '.',
        None => false,
    }
}

/// An address that is accepted holds no end of a line, so it cannot add a command to the dialogue or
/// a header to the mail.
pub proof fn lemma_address_is_one_line(s: Seq<char>)
    requires
        mail_address(s),
    ensures
        !s.contains('\r'),
        !s.contains('\n'),
{
}

// ---------------------------------------------------------------------------
// Base64
// ---------------------------------------------------------------------------

/// The letter that stands for a number below 64.
pub open spec fn base64_letter(v: int) -> char {
    if v < 26 {
        ('A' as int + v) as char
    } else if v < 52 {
        ('a' as int + v - 26) as char
    } else if v < 62 {
        ('0' as int + v - 52) as char
    } else if v == 62 {
        '+'
    } else {
        '/'
    }
}

/// The six bits number `k` of some bytes: three bytes make four groups of six bits.
pub open spec fn sextet(data: Seq<u8>, k: int) -> int {
    let p = 3 * (k / 4);
    let r = k % 4;
    let b = |i: int|
        if i < data.len() {
            data[i] as int
        } else {
            0
        };
    if r == 0 {
        b(p) / 4
    } else if r == 1 {
        (b(p) % 4) * 16 + b(p + 1) / 16
    } else if r == 2 {
        (b(p + 1) % 16) * 4 + b(p + 2) / 64
    } else {
        b(p + 2) % 64
    }
}

/// The character number `k` of some bytes in base64; a mark where no byte has bits in the group.
pub open spec fn base64_char(data: Seq<u8>, k: int) -> char {
    if 3 * (k / 4) + k % 4 - 1 < data.len() {
        base64_letter(sextet(data, k))
    } else {
        '='
    }
}

/// Bytes in base64, padded to a multiple of four characters.
pub open spec fn base64_of(data: Seq<u8>) -> Seq<char> {
    Seq::new((4 * ((data.len() + 2) / 3)) as nat, |k: int| base64_char(data, k))
}

fn base64_symbol(v: u32) -> (c: char)
    requires
        v < 64,
    ensures
        c == base64_letter(v as int),
{
    if v < 26 {
        (65u8 + v as u8) as char
    } else if v < 52 {
        (71u8 + v as u8) as char
    } else if v < 62 {
        (v as u8 - 4u8) as char
    } else if v == 62 {
        '+'
    } else {
        '/'
    }
}

/// Bytes in base64.
pub fn b64(input: &[u8]) -> (r: String)
    ensures
        r@ == base64_of(input@),
{
    let n: usize = input.len();
    let mut out = String::new();
    let mut p: usize = 0;
    let ghost mut g: int = 0;
    while p < n
        invariant
            n == input@.len(),
            p == 3 * g,
            g >= 0,
            p <= n + 2,
            out@ == Seq::new((4 * g) as nat, |k: int| base64_char(input@, k)),
        decreases n - p,
    {
        let b0: u32 = input[p] as u32;
        let b1: u32 = if n - p > 1 {
            input[p + 1] as u32
        } else {
            0
        };
        let b2: u32 = if n - p > 2 {
            input[p + 2] as u32
        } else {
            0
        };
        assert((4 * g) / 4 == g && (4 * g) % 4 == 0);
        assert((4 * g + 1) / 4 == g && (4 * g + 1) % 4 == 1);
        assert((4 * g + 2) / 4 == g && (4 * g + 2) % 4 == 2);
        assert((4 * g + 3) / 4 == g && (4 * g + 3) % 4 == 3);
        out.push(base64_symbol(b0 / 4));
        out.push(base64_symbol((b0 % 4) * 16 + b1 / 16));
        if n - p > 1 {
            out.push(base64_symbol((b1 % 16) * 4 + b2 / 64));
        } else {
            out.push('=');
        }
        if n - p > 2 {
            out.push(base64_symbol(b2 % 64));
        } else {
            out.push('=');
        }
        proof {
            g = g + 1;
        }
        assert(out@ =~= Seq::new((4 * g) as nat, |k: int| base64_char(input@, k)));
        if n - p > 3 {
            p = p + 3;
        } else {
            assert(g == (n + 2) / 3);
            return out;
        }
    }
    out
}

// ---------------------------------------------------------------------------
// Answers of the server
// ---------------------------------------------------------------------------

/// What is left of a text without the line ends at its end.
pub open spec fn strip_line_ends(s: Seq<char>) -> Seq<char>
    decreases s.len(),
{
    if s.len() >= 2 && s[s.len() - 2] == '\r' && s.last() == '\n' {
        strip_line_ends(s.take(s.len() - 2))
    } else {
        s
    }
}

/// What stands behind the last line end of a text.
pub open spec fn last_line(s: Seq<char>) -> Seq<char>
    decreases s.len(),
{
    if s.len() < 2 {
        s
    } else if s[s.len() - 2] == '\r' && s.last() == '\n' {
        Seq::empty()
    } else {
        last_line(s.drop_last()).push(s.last())
    }
}

/// The status that a line gives: three digits and a space behind them.
pub open spec fn line_code(l: Seq<char>) -> Option<u16> {
    if l.len() >= 4 && is_digit(l[0]) && is_digit(l[1]) && is_digit(l[2]) && l[3] == ' ' {
        Some(digits_value(l.take(3)) as u16)
    } else {
        None
    }
}

/// The status of a whole answer, which ends with a line that holds a status and no hyphen behind it.
pub open spec fn reply_code(buf: Seq<u8>) -> Option<u16> {
    if buf.len() >= 2 && buf[buf.len() - 2] == 13 && buf.last() == 10 && valid_utf8(buf) {
        line_code(last_line(strip_line_ends(decode_utf8(buf))))
    } else {
        None
    }
}

proof fn lemma_last_line(s: Seq<char>, i: int)
    requires
        0 <= i <= s.len(),
        forall|j: int| i <= j < s.len() - 1 ==> !(s[j] == '\r' && #[trigger] s[j + 1] == '\n'),
        i == 0 || (i >= 2 && s[i - 2] == '\r' && s[i - 1] == '\n'),
        i >= 1 && i < s.len() ==> !(s[i - 1] == '\r' && s[i] == '\n'),
    ensures
        last_line(s) == s.skip(i),
    decreases s.len() - i,
{
    if i == s.len() {
        assert(s.skip(i) =~= Seq::empty());
    } else if s.len() < 2 {
        assert(s.skip(i) =~= s);
    } else {
        let t = s.drop_last();
        if s[s.len() - 2] == '\r' && s.last() == '\n' {
            assert(s[(s.len() - 2) + 1] == '\n');
            assert(s.len() - 2 < i);
            assert(i == s.len() - 1);
            assert(false);
        }
        assert forall|j: int| i <= j < t.len() - 1 implies !(t[j] == '\r' && #[trigger] t[j + 1]
            == '\n') by {
            assert(s[j + 1] == t[j + 1]);
        }
        lemma_last_line(t, i);
        assert(t.skip(i).push(s.last()) =~= s.skip(i));
    }
}

proof fn lemma_code_fits(l: Seq<char>)
    requires
        l.len() == 3,
        forall|i: int| 0 <= i < 3 ==> is_digit(#[trigger] l[i]),
    ensures
        digits_value(l) <= 999,
{
    reveal_with_fuel(digits_value, 4);
    assert(l.drop_last().drop_last().drop_last() =~= Seq::empty());
    assert(l.drop_last().drop_last().last() == l[0]);
    assert(l.drop_last().last() == l[1]);
}

/// The status of an answer, once the whole of it was read.
pub fn final_code(buf: &[u8]) -> (r: Option<u16>)
    ensures
        r == reply_code(buf@),
{
    let n: usize = buf.len();
    if n < 2 || buf[n - 2] != 13 || buf[n - 1] != 10 {
        return None;
    }
    let text = match utf8_text(buf) {
        Some(t) => t,
        None => {
            return None;
        },
    };
    let v = chars_of(text);
    let mut end: usize = v.len();
    assert(v@.take(end as int) =~= v@);
    while end >= 2 && v[end - 2] == '\r' && v[end - 1] == '\n'
        invariant
            end <= v@.len(),
            strip_line_ends(v@) == strip_line_ends(v@.take(end as int)),
        decreases end,
    {
        assert(v@.take(end as int).take(end - 2) =~= v@.take(end - 2));
        end = end - 2;
    }
    let ghost t = v@.take(end as int);
    assert(strip_line_ends(v@) == t);
    let mut start: usize = end;
    while start > 0 && !(start >= 2 && v[start - 2] == '\r' && v[start - 1] == '\n')
        invariant
            start <= end <= v@.len(),
            t == v@.take(end as int),
            !(end >= 2 && v@[end - 2] == '\r' && v@[end - 1] == '\n'),
            forall|j: int|
                0 <= j && start - 1 <= j < end - 1 ==> !(t[j] == '\r' && #[trigger] t[j + 1]
                    == '\n'),
        decreases start,
    {
        start = start - 1;
        if start >= 1 {
            assert(t[start as int] == t[(start - 1) + 1]);
        }
    }
    proof {
        if start >= 1 && start < end {
            assert(t[start as int] == t[(start - 1) + 1]);
        }
        lemma_last_line(t, start as int);
    }
    let l = slice_subrange(v.as_slice(), start, end);
    assert(l@ =~= t.skip(start as int));
    if l.len() >= 4 && is_digit(l[0]) && is_digit(l[1]) && is_digit(l[2]) && l[3] == ' ' {
        let d = slice_subrange(l, 0, 3);
        assert(d@ =~= l@.take(3));
        proof {
            assert(is_digit(d@[0]) && is_digit(d@[1]) && is_digit(d@[2]));
            assert forall|i: int| 0 <= i < 3 implies is_digit(#[trigger] d@[i]) by {
                assert(i == 0 || i == 1 || i == 2);
            }
            lemma_code_fits(d@);
        }
        match parse_upto(d, 999) {
            Some(c) => Some(c as u16),
            None => None,
        }
    } else {
        None
    }
}

/// What to do with what was read of an answer.
#[derive(Debug, Clone, Copy, PartialEq, Eq, Structural)]
pub enum Reply {
    /// The whole answer, with its status.
    Whole { code: u16 },
    /// More has to be read.
    More,
    /// The answer is too long.
    TooLong,
}

/// What to do with what was read of an answer.
pub open spec fn reply_of(buf: Seq<u8>) -> Reply {
    if buf.len() > MAX_REPLY {
        Reply::TooLong
    } else {
        match reply_code(buf) {
            Some(code) => Reply::Whole { code },
            None => Reply::More,
        }
    }
}

/// What to do with what was read of an answer.
pub fn read_reply(buf: &[u8]) -> (r: Reply)
    ensures
        r == reply_of(buf@),
{
    if buf.len() > MAX_REPLY {
        Reply::TooLong
    } else {
        match final_code(buf) {
            Some(code) => Reply::Whole { code },
            None => Reply::More,
        }
    }
}

// ---------------------------------------------------------------------------
// The mail
// ---------------------------------------------------------------------------

/// The name of a day of the week; 0 is Sunday.
pub open spec fn day_name(w: int) -> Seq<char> {
    if w == 0 {
        "Sun"@
    } else if w == 1 {
        "Mon"@
    } else if w == 2 {
        "Tue"@
    } else if w == 3 {
        "Wed"@
    } else if w == 4 {
        "Thu"@
    } else if w == 5 {
        "Fri"@
    } else {
        "Sat"@
    }
}

/// The name of a month; 1 is January.
pub open spec fn month_name(m: int) -> Seq<char> {
    if m == 1 {
        "Jan"@
    } else if m == 2 {
        "Feb"@
    } else if m == 3 {
        "Mar"@
    } else if m == 4 {
        "Apr"@
    } else if m == 5 {
        "May"@
    } else if m == 6 {
        "Jun"@
    } else if m == 7 {
        "Jul"@
    } else if m == 8 {
        "Aug"@
    } else if m == 9 {
        "Sep"@
    } else if m == 10 {
        "Oct"@
    } else if m == 11 {
        "Nov"@
    } else {
        "Dec"@
    }
}

fn show_day(w: i64) -> (r: &'static str)
    requires
        0 <= w < 7,
    ensures
        r@ == day_name(w as int),
{
    if w == 0 {
        "Sun"
    } else if w == 1 {
        "Mon"
    } else if w == 2 {
        "Tue"
    } else if w == 3 {
        "Wed"
    } else if w == 4 {
        "Thu"
    } else if w == 5 {
        "Fri"
    } else {
        "Sat"
    }
}

fn show_month(m: u32) -> (r: &'static str)
    requires
        1 <= m <= 12,
    ensures
        r@ == month_name(m as int),
{
    if m == 1 {
        "Jan"
    } else if m == 2 {
        "Feb"
    } else if m == 3 {
        "Mar"
    } else if m == 4 {
        "Apr"
    } else if m == 5 {
        "May"
    } else if m == 6 {
        "Jun"
    } else if m == 7 {
        "Jul"
    } else if m == 8 {
        "Aug"
    } else if m == 9 {
        "Sep"
    } else if m == 10 {
        "Oct"
    } else if m == 11 {
        "Nov"
    } else {
        "Dec"
    }
}

/// A number below 100 in two digits.
pub open spec fn two_digits(n: int) -> Seq<char> {
    zero_padded(decimal(n as nat), 2)
}

/// The date header of a mail that is written `secs` seconds after the beginning of 1970, in universal
/// time. That beginning was a Thursday.
pub open spec fn mail_date(secs: int) -> Seq<char> {
    let (y, m, d) = date_of(secs / 86_400);
    let t = secs % 86_400;
    day_name((secs / 86_400 + 4) % 7) + ", "@ + two_digits(d) + " "@ + month_name(m) + " "@
        + decimal_int(y) + " "@ + two_digits(t / 3600) + ":"@ + two_digits((t % 3600) / 60) + ":"@
        + two_digits(t % 60) + " +0000"@
}

/// The date header of a mail.
pub fn rfc5322_date(secs: i64) -> (r: String)
    ensures
        r@ == mail_date(secs as int),
{
    let (days, rem): (i64, i64) = floor_div(secs, 86_400);
    let (q, wd): (i64, i64) = floor_div(days + 4, 7);
    let (y, m, d) = civil_from_days(days);
    proof {
        lemma_date_of(days as int, y as int, m as int, d as int);
    }
    let mut s = show_day(wd).to_string();
    s.append(", ");
    s.append(show_padded(d as u64, 2).as_str());
    s.append(" ");
    s.append(show_month(m));
    s.append(" ");
    s.append(show_i64(y).as_str());
    s.append(" ");
    s.append(show_padded((rem / 3600) as u64, 2).as_str());
    s.append(":");
    s.append(show_padded(((rem % 3600) / 60) as u64, 2).as_str());
    s.append(":");
    s.append(show_padded((rem % 60) as u64, 2).as_str());
    s.append(" +0000");
    s
}

/// A line of a body as it is sent: a line that begins with a dot gets a second one, and every line
/// ends in a carriage return and a line feed.
pub open spec fn sent_line(l: Seq<char>) -> Seq<char> {
    let t = if l.len() > 0 && l.last() == '\r' {
        l.drop_last()
    } else {
        l
    };
    if t.len() > 0 && t[0] == '.' {
        seq!['.'] + t + seq!['\r', '\n']
    } else {
        t + seq!['\r', '\n']
    }
}

/// Lines as they are sent.
pub open spec fn sent_lines(ls: Seq<Seq<char>>) -> Seq<char>
    decreases ls.len(),
{
    if ls.len() == 0 {
        Seq::empty()
    } else {
        sent_lines(ls.drop_last()) + sent_line(ls.last())
    }
}

/// The body of a mail as it is sent.
pub fn dot_stuff(body: &str) -> (r: String)
    ensures
        r@ == sent_lines(pieces(body@, '\n')),
{
    let v = chars_of(body);
    let ls = split(v.as_slice(), '\n');
    let ghost all = pieces(body@, '\n');
    let mut out = String::new();
    let mut i: usize = 0;
    assert(all.take(0) =~= Seq::empty());
    while i < ls.len()
        invariant
            all == views(ls@),
            i <= ls@.len(),
            out@ == sent_lines(all.take(i as int)),
        decreases ls@.len() - i,
    {
        assert(all.take(i + 1).drop_last() =~= all.take(i as int));
        assert(all.take(i + 1).last() == ls@[i as int]@);
        let l = ls[i];
        let mut n: usize = l.len();
        if n > 0 && l[n - 1] == '\r' {
            n = n - 1;
        }
        let t = slice_subrange(l, 0, n);
        if n > 0 && t[0] == '.' {
            out.push('.');
        }
        out.append(string_of(t).as_str());
        out.push('\r');
        out.push('\n');
        proof {
            let x = ls@[i as int]@;
            if x.len() > 0 && x.last() == '\r' {
                assert(t@ =~= x.drop_last());
            } else {
                assert(t@ =~= x);
            }
            assert(out@ =~= sent_lines(all.take(i as int)) + sent_line(x));
        }
        i = i + 1;
    }
    assert(all.take(i as int) =~= all);
    out
}

/// A line with a dot alone begins at a place of a text.
pub open spec fn lone_dot_at(s: Seq<char>, i: int) -> bool {
    &&& 0 <= i
    &&& i + 1 < s.len()
    &&& s[i] == '.'
    &&& s[i + 1] == '\r'
    &&& (i == 0 || s[i - 1] == '\n')
}

proof fn lemma_no_lone_dot(ls: Seq<Seq<char>>)
    requires
        forall|i: int| 0 <= i < ls.len() ==> !(#[trigger] ls[i]).contains('\n'),
    ensures
        forall|i: int| !lone_dot_at(sent_lines(ls), i),
        sent_lines(ls).len() > 0 ==> sent_lines(ls).last() == '\n',
    decreases ls.len(),
{
    if ls.len() > 0 {
        let a = sent_lines(ls.drop_last());
        let l = ls.last();
        let b = sent_line(l);
        assert(!ls[ls.len() - 1].contains('\n'));
        assert forall|i: int| 0 <= i < ls.drop_last().len() implies !(#[trigger] ls.drop_last()[i])
            .contains('\n') by {
            assert(ls.drop_last()[i] == ls[i]);
        }
        lemma_no_lone_dot(ls.drop_last());
        assert forall|i: int| !lone_dot_at(a + b, i) by {
            if lone_dot_at(a + b, i) {
                if i + 1 < a.len() {
                    assert(a[i] == (a + b)[i]);
                    assert(lone_dot_at(a, i));
                } else if i < a.len() {
                    assert(i == a.len() - 1);
                    assert(a.last() == '.');
                } else {
                    let k = i - a.len();
                    assert(b[k] == '.');
                    assert(b[k + 1] == '\r');
                    if k == 0 {
                        assert(b[0] == '.');
                        assert(b[1] == '.');
                    } else {
                        assert(b[k - 1] == '\n');
                        assert(k - 1 < b.len() - 2);
                        let t = if l.len() > 0 && l.last() == '\r' {
                            l.drop_last()
                        } else {
                            l
                        };
                        if t.len() > 0 && t[0] == '.' {
                            if k >= 2 {
                                assert(b[k - 1] == l[k - 2]);
                                assert(l.contains('\n'));
                            }
                        } else {
                            assert(b[k - 1] == l[k - 1]);
                            assert(l.contains('\n'));
                        }
                    }
                }
            }
        }
    }
}

/// Whatever the body of a mail holds, none of the lines that are sent is a dot alone: only the line
/// behind the body ends the mail.
pub proof fn lemma_body_does_not_end_the_mail(body: Seq<char>)
    ensures
        forall|i: int| !lone_dot_at(sent_lines(pieces(body, '\n')), i),
        sent_lines(pieces(body, '\n')).len() > 0,
        sent_lines(pieces(body, '\n')).last() == '\n',
{
    let p = pieces(body, '\n');
    crate::text::lemma_pieces(body, '\n');
    lemma_no_lone_dot(p);
    assert(sent_line(p.last()).len() >= 2);
}

/// The mail with its headers, the body and the line that ends it. The subject is in base64.
pub open spec fn mail_text(
    from: Seq<char>,
    to: Seq<char>,
    subj: Seq<char>,
    body: Seq<char>,
    date: Seq<char>,
) -> Seq<char> {
    "From: <"@ + from + ">\r\nTo: <"@ + to + ">\r\nSubject: =?UTF-8?B?"@ + base64_of(
        encode_utf8(subj),
    ) + "?=\r\nDate: "@ + date
        + "\r\nMIME-Version: 1.0\r\nContent-Type: text/plain; charset=UTF-8\r\nContent-Transfer-Encoding: 8bit\r\n\r\n"@
        + sent_lines(pieces(body, '\n')) + ".\r\n"@
}

/// The mail with its headers, the body and the line that ends it.
pub fn build_message(from: &str, to: &str, subj: &str, body: &str, date: &str) -> (r: String)
    ensures
        r@ == mail_text(from@, to@, subj@, body@, date@),
{
    let subject = b64(subj.as_bytes());
    let lines = dot_stuff(body);
    let mut s = "From: <".to_string();
    s.append(from);
    s.append(">\r\nTo: <");
    s.append(to);
    s.append(">\r\nSubject: =?UTF-8?B?");
    s.append(subject.as_str());
    s.append("?=\r\nDate: ");
    s.append(date);
    s.append(
        "\r\nMIME-Version: 1.0\r\nContent-Type: text/plain; charset=UTF-8\r\nContent-Transfer-Encoding: 8bit\r\n\r\n",
    );
    s.append(lines.as_str());
    s.append(".\r\n");
    s
}

/// The subject of a mail: at most 200 characters, and no line end among them.
pub open spec fn subject_of(s: Seq<char>) -> Seq<char> {
    crate::common::first_chars(on_one_line(s), 200)
}

/// The subject of a mail.
pub fn clean_subject(subject: &str) -> (r: String)
    ensures
        r@ == subject_of(subject@),
{
    let v = chars_of(subject);
    let out = without_line_ends(v.as_slice());
    if out.len() > 200 {
        let t = slice_subrange(out.as_slice(), 0, 200);
        assert(t@ =~= out@.take(200));
        string_of(t)
    } else {
        string_of(out.as_slice())
    }
}

/// The subject holds no line end and is not long.
pub proof fn lemma_subject(s: Seq<char>)
    ensures
        subject_of(s).len() <= 200,
        !subject_of(s).contains('\r'),
        !subject_of(s).contains('\n'),
{
    lemma_on_one_line(s);
    let o = on_one_line(s);
    assert forall|i: int| 0 <= i < subject_of(s).len() implies #[trigger] subject_of(s)[i] != '\r'
        && subject_of(s)[i] != '\n' by {
        assert(subject_of(s)[i] == o[i]);
    }
}

// ---------------------------------------------------------------------------
// Sending
// ---------------------------------------------------------------------------

/// Why mails are not sent with this configuration, if they are not.
pub open spec fn mail_refused(c: SmtpCfg) -> Option<Seq<char>> {
    if c.host@.len() == 0 || byte_len(c.host@) > 255 {
        Some("SMTP 主机非法"@)
    } else if !mail_address(c.from@) || !mail_address(c.to@) {
        Some("发件/收件邮箱格式非法"@)
    } else if byte_len(c.username@) > 320 || byte_len(c.password@) > 256 || c.username@.len() == 0 {
        Some("SMTP 凭据非法"@)
    } else {
        None
    }
}

/// Whether mails are sent with this configuration: host, addresses and credentials are looked at.
pub fn check_mail(cfg: &SmtpCfg) -> (r: Result<(), &'static str>)
    ensures
        r is Ok <==> mail_refused(*cfg) is None,
        r matches Err(e) ==> mail_refused(*cfg) == Some(e@),
{
    if cfg.host.as_str().is_empty() || byte_count(cfg.host.as_str()) > 255 {
        return Err("SMTP 主机非法");
    }
    if !valid_email(cfg.from.as_str()) || !valid_email(cfg.to.as_str()) {
        return Err("发件/收件邮箱格式非法");
    }
    if byte_count(cfg.username.as_str()) > 320 || byte_count(cfg.password.as_str()) > 256
        || cfg.username.as_str().is_empty() {
        return Err("SMTP 凭据非法");
    }
    Ok(())
}

/// The answer that the dialogue with the server waits for.
#[derive(Debug, Clone, Copy, PartialEq, Eq, Structural)]
pub enum Stage {
    /// To the connection.
    Greeting,
    /// To `EHLO`.
    Hello,
    /// To `AUTH LOGIN`.
    Login,
    /// To the name of the user.
    Name,
    /// To the password.
    Secret,
    /// To `MAIL FROM`.
    From,
    /// To `RCPT TO`.
    To,
    /// To `DATA`.
    Data,
    /// To the mail.
    Mail,
    /// The mail was taken.
    Done,
}

/// The status that an answer must have.
pub open spec fn wanted(stage: Stage) -> u16 {
    match stage {
        Stage::Greeting => 220,
        Stage::Hello => 250,
        Stage::Login => 334,
        Stage::Name => 334,
        Stage::Secret => 235,
        Stage::From => 250,
        Stage::To => 250,
        Stage::Data => 354,
        Stage::Mail => 250,
        Stage::Done => 250,
    }
}

/// What the dialogue waits for when an answer was the one that it waited for.
pub open spec fn following(stage: Stage) -> Stage {
    match stage {
        Stage::Greeting => Stage::Hello,
        Stage::Hello => Stage::Login,
        Stage::Login => Stage::Name,
        Stage::Name => Stage::Secret,
        Stage::Secret => Stage::From,
        Stage::From => Stage::To,
        Stage::To => Stage::Data,
        Stage::Data => Stage::Mail,
        Stage::Mail => Stage::Done,
        Stage::Done => Stage::Done,
    }
}

/// What is sent when the answer was the one that the dialogue waited for.
pub open spec fn said(
    stage: Stage,
    cfg: SmtpCfg,
    subject: Seq<char>,
    body: Seq<char>,
    now: int,
) -> Seq<char> {
    match stage {
        Stage::Greeting => "EHLO outpost\r\n"@,
        Stage::Hello => "AUTH LOGIN\r\n"@,
        Stage::Login => base64_of(encode_utf8(cfg.username@)) + "\r\n"@,
        Stage::Name => base64_of(encode_utf8(cfg.password@)) + "\r\n"@,
        Stage::Secret => "MAIL FROM:<"@ + cfg.from@ + ">\r\n"@,
        Stage::From => "RCPT TO:<"@ + cfg.to@ + ">\r\n"@,
        Stage::To => "DATA\r\n"@,
        Stage::Data => mail_text(cfg.from@, cfg.to@, subject_of(subject), body, mail_date(now)),
        Stage::Mail => "QUIT\r\n"@,
        Stage::Done => Seq::empty(),
    }
}

/// What is reported when an answer was not the one that the dialogue waited for.
pub open spec fn complaint(stage: Stage, code: u16) -> Seq<char> {
    match stage {
        Stage::Greeting => "SMTP 服务器问候异常"@,
        Stage::Mail => "邮件提交返回 "@ + decimal(code as nat),
        _ => "SMTP 返回 "@ + decimal(code as nat) + "(期望 "@ + decimal(wanted(stage) as nat) + ")"@,
    }
}

fn wanted_code(stage: Stage) -> (r: u16)
    ensures
        r == wanted(stage),
{
    match stage {
        Stage::Greeting => 220,
        Stage::Hello => 250,
        Stage::Login => 334,
        Stage::Name => 334,
        Stage::Secret => 235,
        Stage::From => 250,
        Stage::To => 250,
        Stage::Data => 354,
        Stage::Mail => 250,
        Stage::Done => 250,
    }
}

/// One step of the dialogue: the server answered with a status. Gives what to say and the answer to
/// wait for then, or what to report.
pub fn send(
    stage: Stage,
    code: u16,
    cfg: &SmtpCfg,
    subject: &str,
    body: &str,
    now: i64,
) -> (r: Result<(Stage, String), String>)
    ensures
        r is Ok <==> code == wanted(stage),
        r matches Ok(p) ==> p.0 == following(stage) && p.1@ == said(
            stage,
            *cfg,
            subject@,
            body@,
            now as int,
        ),
        r matches Err(e) ==> e@ == complaint(stage, code),
{
    let want: u16 = wanted_code(stage);
    if code != want {
        let shown = show_u64(code as u64);
        return match stage {
            Stage::Greeting => Err("SMTP 服务器问候异常".to_string()),
            Stage::Mail => {
                let mut e = "邮件提交返回 ".to_string();
                e.append(shown.as_str());
                Err(e)
            },
            _ => {
                let mut e = "SMTP 返回 ".to_string();
                e.append(shown.as_str());
                e.append("(期望 ");
                e.append(show_u64(want as u64).as_str());
                e.append(")");
                Err(e)
            },
        };
    }
    match stage {
        Stage::Greeting => Ok((Stage::Hello, "EHLO outpost\r\n".to_string())),
        Stage::Hello => Ok((Stage::Login, "AUTH LOGIN\r\n".to_string())),
        Stage::Login => {
            let mut s = b64(cfg.username.as_str().as_bytes());
            s.append("\r\n");
            Ok((Stage::Name, s))
        },
        Stage::Name => {
            let mut s = b64(cfg.password.as_str().as_bytes());
            s.append("\r\n");
            Ok((Stage::Secret, s))
        },
        Stage::Secret => {
            let mut s = "MAIL FROM:<".to_string();
            s.append(cfg.from.as_str());
            s.append(">\r\n");
            Ok((Stage::From, s))
        },
        Stage::From => {
            let mut s = "RCPT TO:<".to_string();
            s.append(cfg.to.as_str());
            s.append(">\r\n");
            Ok((Stage::To, s))
        },
        Stage::To => Ok((Stage::Data, "DATA\r\n".to_string())),
        Stage::Data => {
            let subj = clean_subject(subject);
            let date = rfc5322_date(now);
            Ok(
                (
                    Stage::Mail,
                    build_message(
                        cfg.from.as_str(),
                        cfg.to.as_str(),
                        subj.as_str(),
                        body,
                        date.as_str(),
                    ),
                ),
            )
        },
        Stage::Mail => Ok((Stage::Done, "QUIT\r\n".to_string())),
        Stage::Done => Ok((Stage::Done, String::new())),
    }
}

/// Where a dialogue stands after some answers; nothing once one of them was not the one that it
/// waited for.
pub open spec fn after_answers(codes: Seq<u16>) -> Option<Stage>
    decreases codes.len(),
{
    if codes.len() == 0 {
        Some(Stage::Greeting)
    } else {
        match after_answers(codes.drop_last()) {
            Some(s) => if codes.last() == wanted(s) {
                Some(following(s))
            } else {
                None
            },
            None => None,
        }
    }
}

/// A mail counts as taken after nine answers only when each of them was the one of its turn: the
/// credentials were accepted before the addresses, the addresses before the mail.
pub proof fn lemma_mail_needs_every_answer(codes: Seq<u16>)
    requires
        codes.len() == 9,
    ensures
        after_answers(codes) == Some(Stage::Done) <==> codes =~= seq![
            220u16,
            250,
            334,
            334,
            235,
            250,
            250,
            354,
            250,
        ],
{
    reveal_with_fuel(after_answers, 10);
    let c8 = codes.drop_last();
    let c7 = c8.drop_last();
    let c6 = c7.drop_last();
    let c5 = c6.drop_last();
    let c4 = c5.drop_last();
    let c3 = c4.drop_last();
    let c2 = c3.drop_last();
    let c1 = c2.drop_last();
    assert(c1.drop_last() =~= Seq::empty());
    assert(c8.last() == codes[7] && c7.last() == codes[6] && c6.last() == codes[5] && c5.last()
        == codes[4] && c4.last() == codes[3] && c3.last() == codes[2] && c2.last() == codes[1]
        && c1.last() == codes[0]);
}

} // verus!
