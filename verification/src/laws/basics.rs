//! Addresses, dates, quoted texts, and the names of disks and mount points.

use crate::agent::parsers::{
    load_procs, local_fs, mount_index, mount_line, mounts_of, mounts_with, not_negative,
    physical_disk, MountView,
};
use crate::calendar::{day_number, days_before_month, days_before_year, month_len, valid_date};
use crate::clock::unix_time;
use crate::common::hex_char;
use crate::ip::{
    ip_value, ipv4_value, loopback, octet_value, public_v4, public_v6, socket_value,
    IpAddr, SocketAddr,
};
use crate::json::{json_escape, json_escaped, json_items, json_list, json_quoted};
use crate::laws::dataout::lemma_cells;
use crate::laws::notify::lemma_in_between;
use crate::measure::{lemma_rank_orders, Measure};
use crate::num::{all_digits, decimal, lemma_decimal, lemma_decimal_roundtrip};
use crate::server::handlers::dataout::{label_escape, label_text};
use crate::text::{
    after, before, byte_len, contains, ends_with, first_index, is_ascii_lower, is_control, is_digit, joined,
    lemma_first_index, starts_with, words,
};
use crate::common::hex_of;
use crate::ip::{
    double_colon, groups_number, groups_of, groups_upto, hex_number, hex_value, ipv6_groups, is_group,
};
use crate::num::nearest_i64;
use crate::server::db::setting;
use crate::text::{ascii_upper, pieces};
use vstd::prelude::*;
use vstd::string::*;

verus! {

// ---------------------------------------------------------------------------
// Addresses
// ---------------------------------------------------------------------------

/// Four numbers with points between them.
pub open spec fn dotted(a: u8, b: u8, c: u8, d: u8) -> Seq<char> {
    joined(seq![decimal(a as nat), decimal(b as nat), decimal(c as nat), decimal(d as nat)], '.')
}

proof fn lemma_octet(a: u8)
    ensures
        octet_value(decimal(a as nat)) == Some(a as nat),
        !decimal(a as nat).contains('.'),
        !decimal(a as nat).contains(':'),
        decimal(a as nat).len() >= 1,
{
    lemma_decimal(a as nat);
    reveal_with_fuel(decimal, 4);
    let d = decimal(a as nat);
    assert(1 <= d.len() <= 3);
    assert(d.len() > 1 ==> d[0] != '0');
    assert forall|i: int| 0 <= i < d.len() implies is_digit(#[trigger] d[i]) by {}
}

/// An address of four numbers is worth its numbers, each two hundred and fifty-six times the next.
pub proof fn lemma_dotted(a: u8, b: u8, c: u8, d: u8)
    ensures
        ipv4_value(dotted(a, b, c, d)) == Some(
            (0x100_0000 * a + 0x1_0000 * b + 0x100 * c + d) as u32,
        ),
        ip_value(dotted(a, b, c, d)) == Some(
            IpAddr::V4((0x100_0000 * a + 0x1_0000 * b + 0x100 * c + d) as u32),
        ),
{
    lemma_octet(a);
    lemma_octet(b);
    lemma_octet(c);
    lemma_octet(d);
    let p = seq![decimal(a as nat), decimal(b as nat), decimal(c as nat), decimal(d as nat)];
    assert forall|i: int| 0 <= i < p.len() implies !(#[trigger] p[i]).contains('.') by {}
    lemma_cells(p, '.');
}

/// A place to listen at is an address and, behind a colon, a port.
pub proof fn lemma_place(a: u8, b: u8, c: u8, d: u8, port: u16)
    ensures
        socket_value(dotted(a, b, c, d) + seq![':'] + decimal(port as nat)) == Some(
            SocketAddr {
                ip: IpAddr::V4((0x100_0000 * a + 0x1_0000 * b + 0x100 * c + d) as u32),
                port,
                scope: 0,
            },
        ),
{
    lemma_dotted(a, b, c, d);
    lemma_octet(a);
    lemma_octet(b);
    lemma_octet(c);
    lemma_octet(d);
    lemma_decimal(port as nat);
    let x = dotted(a, b, c, d);
    lemma_dotted_text(a, b, c, d);
    let s = x + seq![':'] + decimal(port as nat);
    assert(s[0] == x[0]);
    assert(s[x.len() as int] == ':');
    assert(s.contains(':'));
    lemma_first_index(s, ':');
    let k = first_index(s, ':');
    assert(k == x.len()) by {
        if k < x.len() {
            assert(s[k] == x[k]);
        }
    }
    assert(before(s, ':') =~= x);
    assert(after(s, ':') =~= decimal(port as nat));
}

proof fn lemma_dotted_text(a: u8, b: u8, c: u8, d: u8)
    ensures
        dotted(a, b, c, d).len() > 0,
        dotted(a, b, c, d)[0] != '[',
        forall|i: int| 0 <= i < dotted(a, b, c, d).len() ==> #[trigger] dotted(a, b, c, d)[i] != ':',
{
    lemma_octet(a);
    lemma_octet(b);
    lemma_octet(c);
    lemma_octet(d);
    lemma_decimal(a as nat);
    let (w, x, y, z) = (
        decimal(a as nat),
        decimal(b as nat),
        decimal(c as nat),
        decimal(d as nat),
    );
    let p = seq![w, x, y, z];
    reveal_with_fuel(joined, 5);
    assert(p.drop_last() =~= seq![w, x, y]);
    assert(p.drop_last().drop_last() =~= seq![w, x]);
    assert(p.drop_last().drop_last().drop_last() =~= seq![w]);
    let s = joined(p, '.');
    assert(s =~= w + seq!['.'] + x + seq!['.'] + y + seq!['.'] + z);
    assert(is_digit(w[0]));
    assert(s[0] == w[0]);
    assert forall|i: int| 0 <= i < s.len() implies #[trigger] s[i] != ':' by {
        let (k, l, m) = (
            w.len() as int,
            (w.len() + 1 + x.len()) as int,
            (w.len() + 2 + x.len() + y.len()) as int,
        );
        if i < k {
            assert(s[i] == w[i]);
            assert(w.contains(w[i]));
        } else if k < i < l {
            assert(s[i] == x[i - k - 1]);
            assert(x.contains(x[i - k - 1]));
        } else if l < i < m {
            assert(s[i] == y[i - l - 1]);
            assert(y.contains(y[i - l - 1]));
        } else if i > m {
            assert(s[i] == z[i - m - 1]);
            assert(z.contains(z[i - m - 1]));
        }
    }
}

/// A machine's own address begins with 127.
pub proof fn lemma_own_address(ip: u32)
    ensures
        loopback(IpAddr::V4(ip)) <==> 0x7f00_0000 <= ip <= 0x7fff_ffff,
        loopback(IpAddr::V6(1)),
{
}

/// An address is public that lies in none of the ranges set apart: for this network, private ones,
/// shared ones, the machine itself, links, assignments, documentation, measurements, groups and the
/// future.
pub proof fn lemma_public_addresses(ip: u32)
    ensures
        public_v4(ip) <==> {
            &&& !(ip < 0x0100_0000)
            &&& !(0x0a00_0000 <= ip < 0x0b00_0000)
            &&& !(0x6440_0000 <= ip < 0x6480_0000)
            &&& !(0x7f00_0000 <= ip < 0x8000_0000)
            &&& !(0xa9fe_0000 <= ip < 0xa9ff_0000)
            &&& !(0xac10_0000 <= ip < 0xac20_0000)
            &&& !(0xc000_0000 <= ip < 0xc000_0100)
            &&& !(0xc000_0200 <= ip < 0xc000_0300)
            &&& !(0xc0a8_0000 <= ip < 0xc0a9_0000)
            &&& !(0xc612_0000 <= ip < 0xc614_0000)
            &&& !(0xc633_6400 <= ip < 0xc633_6500)
            &&& !(0xcb00_7100 <= ip < 0xcb00_7200)
            &&& ip < 0xe000_0000
        },
{
    let a = ip / 0x100_0000;
    let b = (ip / 0x1_0000) % 0x100;
    let c = (ip / 0x100) % 0x100;
    let d = ip % 0x100;
    assert(ip == 0x100_0000 * a + 0x1_0000 * b + 0x100 * c + d) by {
        assert(ip / 0x1_0000 == (ip / 0x100) / 0x100);
        assert(ip / 0x100_0000 == (ip / 0x1_0000) / 0x100);
    }
}

/// The long addresses that are not public: none and the machine itself, links, private ones, groups and
/// documentation.
pub proof fn lemma_public_long_addresses(ip: u128)
    ensures
        public_v6(ip) ==> {
            &&& ip > 1
            &&& !(0xfc00_0000_0000_0000_0000_0000_0000_0000 <= ip
                < 0xfe00_0000_0000_0000_0000_0000_0000_0000)
            &&& !(0xfe80_0000_0000_0000_0000_0000_0000_0000 <= ip
                < 0xfec0_0000_0000_0000_0000_0000_0000_0000)
            &&& ip < 0xff00_0000_0000_0000_0000_0000_0000_0000
            &&& !(0x2001_0db8_0000_0000_0000_0000_0000_0000 <= ip
                < 0x2001_0db9_0000_0000_0000_0000_0000_0000)
        },
        0x2001_0db9_0000_0000_0000_0000_0000_0000 <= ip < 0xfc00_0000_0000_0000_0000_0000_0000_0000
            ==> public_v6(ip),
        0x1_0000_0000_0000 <= ip < 0x2001_0db8_0000_0000_0000_0000_0000_0000 ==> public_v6(ip),
{
}

// ---------------------------------------------------------------------------
// Dates and times
// ---------------------------------------------------------------------------

/// Days are counted from the first of 1970, one by one, over the ends of months and years.
pub proof fn lemma_days_are_counted(y: int, m: int, d: int)
    requires
        valid_date(y, m, d),
    ensures
        day_number(1970, 1, 1) == 0,
        d < month_len(y, m) ==> day_number(y, m, d + 1) == day_number(y, m, d) + 1,
        d == month_len(y, m) && m < 12 ==> day_number(y, m + 1, 1) == day_number(y, m, d) + 1,
        d == month_len(y, m) && m == 12 ==> day_number(y + 1, 1, 1) == day_number(y, m, d) + 1,
{
    crate::calendar::lemma_year_len(y);
    assert(days_before_year(1970) == 719_162);
    assert(days_before_month(1970, 1) == 0);
    assert(days_before_month(y + 1, 1) == 0);
}

/// The months have their lengths, and a year its day more every four years but for three in four hundred.
pub proof fn lemma_months(y: int)
    ensures
        month_len(y, 1) + month_len(y, 3) + month_len(y, 5) + month_len(y, 7) + month_len(y, 8)
            + month_len(y, 10) + month_len(y, 12) == 7 * 31,
        month_len(y, 4) + month_len(y, 6) + month_len(y, 9) + month_len(y, 11) == 4 * 30,
        month_len(y, 2) == 29 <==> y % 400 == 0 || (y % 4 == 0 && y % 100 != 0),
        month_len(y, 2) == 28 || month_len(y, 2) == 29,
        days_before_year(y + 400) == days_before_year(y) + 400 * 365 + 97,
{
}

/// A clock that stands before the beginning tells 0, and any other what it tells.
pub proof fn lemma_clock(s: u64)
    ensures
        unix_time(None) == 0,
        s <= i64::MAX ==> unix_time(Some(s)) == s,
{
}

// ---------------------------------------------------------------------------
// Quoted texts
// ---------------------------------------------------------------------------

/// In a quoted text a letter stands for itself, and quotation marks, backslashes and line ends behind a
/// backslash, each with its own sign; any other control character is told by its number.
pub proof fn lemma_quoting(c: char)
    ensures
        c > '\u{1f}' && c != '"' && c != '\\' ==> json_escape(c) == seq![c],
        json_escape('"') == seq!['\\', '"'],
        json_escape('\\') == seq!['\\', '\\'],
        json_escape('\n') == seq!['\\', 'n'],
        json_escape('\r') == seq!['\\', 'r'],
        json_escape('\t') == seq!['\\', 't'],
        json_escape('\u{8}') == seq!['\\', 'b'],
        json_escape('\u{c}') == seq!['\\', 'f'],
        c <= '\u{1f}' && json_escape(c).len() != 2 ==> {
            let s = json_escape(c);
            &&& s.len() == 6
            &&& s.take(4) == seq!['\\', 'u', '0', '0']
            &&& exists|h: int, l: int|
                0 <= h < 2 && 0 <= l < 16 && 16 * h + l == c as int && s[4] == #[trigger] hex_char(h)
                    && s[5] == #[trigger] hex_char(l)
        },
{
    if c <= '\u{1f}' && json_escape(c).len() != 2 {
        let s = json_escape(c);
        let (h, l) = (c as int / 16, c as int % 16);
        assert(s[4] == hex_char(h) && s[5] == hex_char(l));
        assert(16 * h + l == c as int);
        assert(s.take(4) =~= seq!['\\', 'u', '0', '0']);
    }
}

/// A text is quoted letter by letter.
pub proof fn lemma_quoted_texts(a: Seq<char>, b: Seq<char>)
    ensures
        json_escaped(a + b) == json_escaped(a) + json_escaped(b),
        json_quoted(a) == seq!['"'] + json_escaped(a) + seq!['"'],
    decreases a.len(),
{
    if a.len() == 0 {
        assert(a + b =~= b);
        assert(json_escaped(a) + json_escaped(b) =~= json_escaped(b));
    } else {
        let t = a.drop_first();
        lemma_quoted_texts(t, b);
        assert((a + b).drop_first() =~= t + b);
        assert((a + b)[0] == a[0]);
        assert(json_escaped(a + b) =~= json_escaped(a) + json_escaped(b));
    }
}

/// A list holds each of its texts, quoted.
pub proof fn lemma_quoted_lists(v: Seq<Seq<char>>, i: int)
    requires
        0 <= i < v.len(),
    ensures
        contains(json_list(v), json_quoted(v[i])),
{
    lemma_items(v, i);
    let (a, b) = choose|a: Seq<char>, b: Seq<char>|
        #![trigger a + json_quoted(v[i]) + b]
        json_items(v) == a + json_quoted(v[i]) + b;
    let q = json_quoted(v[i]);
    lemma_in_between(seq!['['] + a, q, b + seq![']']);
    assert(seq!['['] + a + q + (b + seq![']']) =~= json_list(v));
}

proof fn lemma_items(v: Seq<Seq<char>>, i: int)
    requires
        0 <= i < v.len(),
    ensures
        exists|a: Seq<char>, b: Seq<char>|
            #![trigger a + json_quoted(v[i]) + b]
            json_items(v) == a + json_quoted(v[i]) + b,
    decreases v.len(),
{
    let q = json_quoted(v[i]);
    let e = Seq::<char>::empty();
    if v.len() == 1 {
        assert(json_items(v) =~= e + q + e);
    } else {
        let t = v.drop_last();
        let x = json_items(t);
        let l = json_quoted(v.last());
        if i == v.len() - 1 {
            assert(json_items(v) =~= (x + seq![',']) + q + e);
        } else {
            lemma_items(t, i);
            assert(t[i] == v[i]);
            let (a, b) = choose|a: Seq<char>, b: Seq<char>|
                #![trigger a + json_quoted(t[i]) + b]
                x == a + json_quoted(t[i]) + b;
            assert(json_items(v) =~= a + q + (b + seq![','] + l));
        }
    }
}

/// In a label a letter stands for itself, and quotation marks, backslashes and line ends behind a
/// backslash; other control characters are left out.
pub proof fn lemma_labels(c: char, a: Seq<char>, b: Seq<char>)
    ensures
        !is_control(c) && c != '"' && c != '\\' ==> label_escape(c) == seq![c],
        label_escape('"') == seq!['\\', '"'],
        label_escape('\\') == seq!['\\', '\\'],
        label_escape('\n') == seq!['\\', 'n'],
        is_control(c) && c != '\n' ==> label_escape(c) == Seq::<char>::empty(),
        label_text(a + b) == label_text(a) + label_text(b),
        label_text(seq![c]) == label_escape(c),
    decreases b.len(),
{
    assert(seq![c].drop_last() =~= Seq::empty());
    assert(label_text(Seq::<char>::empty()) + label_escape(c) =~= label_escape(c));
    assert(!is_control('"') && !is_control('\\'));
    if b.len() == 0 {
        assert(a + b =~= a);
        assert(label_text(a) + label_text(b) =~= label_text(a));
    } else {
        lemma_labels(c, a, b.drop_last());
        assert((a + b).drop_last() =~= a + b.drop_last());
        assert(label_text(a + b) =~= label_text(a) + label_text(b));
    }
}

// ---------------------------------------------------------------------------
// Loads, disks and mount points
// ---------------------------------------------------------------------------

/// The number of processes is the one behind the slash.
pub proof fn lemma_number_of_processes(w: Seq<Seq<char>>, running: u32, all: u32)
    requires
        w.len() > 3,
        w[3] == decimal(running as nat) + seq!['/'] + decimal(all as nat),
    ensures
        load_procs(w) == all,
{
    lemma_decimal(running as nat);
    lemma_decimal(all as nat);
    lemma_decimal_roundtrip(all as int);
    let (a, b) = (decimal(running as nat), decimal(all as nat));
    let p = seq![a, b];
    assert forall|i: int| 0 <= i < p.len() implies !(#[trigger] p[i]).contains('/') by {
        assert(all_digits(p[i]));
        if p[i].contains('/') {
            let k = choose|k: int| 0 <= k < p[i].len() && p[i][k] == '/';
            assert(is_digit(p[i][k]));
        }
    }
    lemma_cells(p, '/');
    reveal_with_fuel(joined, 3);
    assert(p.drop_last() =~= seq![a]);
    assert(joined(p, '/') =~= w[3]);
}

/// A load below 0 counts as none, and any other as it is.
pub proof fn lemma_load_is_not_negative(v: Measure)
    requires
        v.finite(),
    ensures
        v.scaled() >= 0 ==> not_negative(v) == v,
        v.scaled() < 0 ==> not_negative(v).scaled() == 0,
{
    let zero = Measure { bits: 0 };
    assert(zero.scaled() == 0);
    lemma_rank_orders(v, zero);
}

/// A disk is named by a prefix and letters; with a number behind them it is a part of one.
pub proof fn lemma_names_of_disks(l: Seq<char>, d: char, more: Seq<char>)
    requires
        0 < l.len() <= 20,
        forall|i: int| 0 <= i < l.len() ==> is_ascii_lower(#[trigger] l[i]),
        is_digit(d),
    ensures
        physical_disk("sd"@ + l),
        physical_disk("vd"@ + l),
        physical_disk("hd"@ + l),
        !physical_disk("sd"@ + l + seq![d]),
        !physical_disk("vd"@ + l + seq![d]),
        !physical_disk("hd"@ + l + seq![d]),
        !physical_disk("loop"@ + more),
        !physical_disk("ram"@ + more),
        !physical_disk("dm-"@ + more),
{
    reveal_strlit("sd");
    reveal_strlit("vd");
    reveal_strlit("xvd");
    reveal_strlit("hd");
    reveal_strlit("nvme");
    reveal_strlit("mmcblk");
    reveal_strlit("loop");
    reveal_strlit("ram");
    reveal_strlit("dm-");
    let (s, v, h) = ("sd"@ + l, "vd"@ + l, "hd"@ + l);
    assert(s.take(2) =~= "sd"@ && s.skip(2) =~= l);
    assert(v.take(2) =~= "vd"@ && v.skip(2) =~= l);
    assert(h.take(2) =~= "hd"@ && h.skip(2) =~= l);
    assert(v.take(2)[0] == 'v' && h.take(2)[0] == 'h');
    assert(h[0] == 'h');
    assert(!starts_with(h, "xvd"@)) by {
        if starts_with(h, "xvd"@) {
            assert(h.take(3)[0] == h[0]);
        }
    }
    let e = l + seq![d];
    assert(!crate::agent::parsers::letters(e)) by {
        assert(e[l.len() as int] == d);
        assert(!is_ascii_lower(d));
    }
    let (s1, v1, h1) = ("sd"@ + l + seq![d], "vd"@ + l + seq![d], "hd"@ + l + seq![d]);
    assert(s1.take(2) =~= "sd"@ && s1.skip(2) =~= e);
    assert(v1.take(2) =~= "vd"@ && v1.skip(2) =~= e);
    assert(h1.take(2) =~= "hd"@ && h1.skip(2) =~= e);
    assert(v1.take(2)[0] == 'v' && h1.take(2)[0] == 'h');
    assert(!starts_with(h1, "xvd"@)) by {
        if starts_with(h1, "xvd"@) {
            assert(h1.take(3)[0] == h1[0]);
        }
    }
    lemma_no_disk("loop"@ + more);
    lemma_no_disk("ram"@ + more);
    lemma_no_disk("dm-"@ + more);
}

proof fn lemma_no_disk(s: Seq<char>)
    requires
        s.len() > 0,
        s[0] == 'l' || s[0] == 'r' || s[0] == 'd',
    ensures
        !physical_disk(s),
{
    reveal_strlit("sd");
    reveal_strlit("vd");
    reveal_strlit("xvd");
    reveal_strlit("hd");
    reveal_strlit("nvme");
    reveal_strlit("mmcblk");
    if starts_with(s, "sd"@) || starts_with(s, "vd"@) || starts_with(s, "hd"@) {
        assert(s.take(2)[0] == s[0]);
    }
    if starts_with(s, "xvd"@) {
        assert(s.take(3)[0] == s[0]);
    }
    if starts_with(s, "nvme"@) {
        assert(s.take(4)[0] == s[0]);
    }
    if starts_with(s, "mmcblk"@) {
        assert(s.take(6)[0] == s[0]);
    }
}

/// Every mount point that is listed is that of a line with its device, its path and its kind, or of
/// another line of the device.
pub proof fn lemma_mount_points_are_told(ls: Seq<Seq<char>>, k: int)
    requires
        0 <= k < mounts_of(ls).len(),
    ensures
        exists|i: int|
            #![trigger ls[i]]
            0 <= i < ls.len() && mount_line(words(ls[i])) && words(ls[i])[0] == mounts_of(ls)[k].0
                && words(ls[i])[1] == mounts_of(ls)[k].1,
        exists|i: int|
            #![trigger ls[i]]
            0 <= i < ls.len() && mount_line(words(ls[i])) && words(ls[i])[0] == mounts_of(ls)[k].0
                && words(ls[i])[2] == mounts_of(ls)[k].2,
    decreases ls.len(),
{
    let t = ls.drop_last();
    let n = ls.len() - 1;
    let m = mounts_of(t);
    let w = words(ls.last());
    assert(ls[n] == ls.last());
    let j = mount_index(m, w[0]);
    lemma_mount_index(m, w[0]);
    if k < m.len() {
        lemma_mount_points_are_told(t, k);
        let a = choose|i: int|
            #![trigger t[i]]
            0 <= i < t.len() && mount_line(words(t[i])) && words(t[i])[0] == m[k].0 && words(t[i])[1]
                == m[k].1;
        let b = choose|i: int|
            #![trigger t[i]]
            0 <= i < t.len() && mount_line(words(t[i])) && words(t[i])[0] == m[k].0 && words(t[i])[2]
                == m[k].2;
        assert(ls[a] == t[a] && ls[b] == t[b]);
        if mounts_of(ls)[k] != m[k] {
            assert(j == k);
            assert(words(ls[n])[0] == m[k].0);
        }
    }
}

proof fn lemma_mount_index(m: Seq<MountView>, dev: Seq<char>)
    ensures
        0 <= mount_index(m, dev) <= m.len(),
        mount_index(m, dev) < m.len() ==> m[mount_index(m, dev)].0 == dev,
    decreases m.len(),
{
    if m.len() > 0 && m[0].0 != dev {
        lemma_mount_index(m.drop_first(), dev);
    }
}

/// A line about a device that is new to the list, of a kind that lies on this machine, adds its mount
/// point at the end, up to sixteen.
pub proof fn lemma_new_mount_point(
    m: Seq<MountView>,
    dev: Seq<char>,
    path: Seq<char>,
    fs: Seq<char>,
    rest: Seq<Seq<char>>,
)
    requires
        m.len() < 16,
        forall|i: int| 0 <= i < m.len() ==> (#[trigger] m[i]).0 != dev,
        byte_len(path) <= 128,
    ensures
        mounts_with(m, seq![dev, path, fs] + rest) == if local_fs(fs) {
            m.push((dev, path, fs))
        } else {
            m
        },
        local_fs("ext4"@) && local_fs("xfs"@) && local_fs("btrfs"@) && local_fs("vfat"@) && local_fs(
            "zfs"@,
        ),
        local_fs(fs) ==> seq![
            "ext2"@,
            "ext3"@,
            "ext4"@,
            "xfs"@,
            "btrfs"@,
            "f2fs"@,
            "vfat"@,
            "exfat"@,
            "zfs"@,
        ].contains(fs),
{
    lemma_mount_index(m, dev);
    let w = seq![dev, path, fs] + rest;
    assert(w[0] == dev && w[1] == path && w[2] == fs);
    let a = seq![
        "ext2"@,
        "ext3"@,
        "ext4"@,
        "xfs"@,
        "btrfs"@,
        "f2fs"@,
        "vfat"@,
        "exfat"@,
        "zfs"@,
    ];
    assert(a[0] == "ext2"@ && a[1] == "ext3"@ && a[2] == "ext4"@ && a[3] == "xfs"@);
    assert(a[4] == "btrfs"@ && a[5] == "f2fs"@ && a[6] == "vfat"@ && a[7] == "exfat"@);
    assert(a[8] == "zfs"@);
}

// ---------------------------------------------------------------------------
// Digits
// ---------------------------------------------------------------------------

/// Ten digits stand for the numbers below ten, and six letters for those up to fifteen.
pub proof fn lemma_digits(d: nat)
    ensures
        d < 10 ==> decimal(d) == seq![('0' as int + d) as char],
        decimal(0) == seq!['0'],
        decimal(9) == seq!['9'],
        decimal(10 * d + 7) == if d == 0 {
            seq!['7']
        } else {
            decimal(d) + seq!['7']
        },
        hex_char(0) == '0',
        hex_char(9) == '9',
        hex_char(10) == 'a',
        hex_char(15) == 'f',
        crate::num::decimal_int(-1 - (d as int)) == seq!['-'] + decimal(d + 1),
{
    if d > 0 {
        assert((10 * d + 7) / 10 == d && (10 * d + 7) % 10 == 7);
        assert(decimal(10 * d + 7) =~= decimal(d) + seq!['7']);
    }
}

/// A byte is told in two digits to the base sixteen, the greater first, and bytes one behind the other.
pub proof fn lemma_bytes_in_digits(b: Seq<u8>, i: int)
    requires
        0 <= i < b.len(),
    ensures
        hex_of(b).len() == 2 * b.len(),
        exists|h: int, l: int|
            0 <= h < 16 && 0 <= l < 16 && 16 * h + l == b[i] && hex_of(b)[2 * i] == #[trigger] hex_char(
                h,
            ) && hex_of(b)[2 * i + 1] == #[trigger] hex_char(l),
{
    let (h, l) = (b[i] as int / 16, b[i] as int % 16);
    assert((2 * i) / 2 == i && (2 * i + 1) / 2 == i);
    assert(16 * h + l == b[i]);
    assert(hex_of(b)[2 * i] == hex_char(h) && hex_of(b)[2 * i + 1] == hex_char(l));
}

/// A number that can be stored is stored as it is, and one that cannot as the nearest that can.
pub proof fn lemma_nearest(x: int)
    ensures
        -0x8000_0000_0000_0000 <= x <= 0x7fff_ffff_ffff_ffff ==> nearest_i64(x) == x,
        x < -0x8000_0000_0000_0000 ==> nearest_i64(x) == -0x8000_0000_0000_0000,
        x > 0x7fff_ffff_ffff_ffff ==> nearest_i64(x) == 0x7fff_ffff_ffff_ffff,
{
}

/// A number that is told for a setting counts as it is within its limits, and as the nearer limit outside
/// them; what is no number counts for nothing.
pub proof fn lemma_settings(n: i64, default: i64, lo: i64, hi: i64, s: Seq<char>)
    requires
        lo <= hi,
    ensures
        n < lo ==> setting(Some(crate::num::decimal_int(n as int)), default, lo, hi) == lo,
        n > hi ==> setting(Some(crate::num::decimal_int(n as int)), default, lo, hi) == hi,
        lo <= n <= hi ==> setting(Some(crate::num::decimal_int(n as int)), default, lo, hi) == n,
        setting(None, default, lo, hi) == default,
        crate::num::parsed_i64(s) is None ==> setting(Some(s), default, lo, hi) == default,
{
    lemma_decimal_roundtrip(n as int);
}

/// Small letters have their capital ones, and nothing else has.
pub proof fn lemma_capitals(c: char)
    ensures
        ascii_upper('a') == 'A',
        ascii_upper('z') == 'Z',
        !('a' <= c && c <= 'z') ==> ascii_upper(c) == c,
        'a' <= c && c <= 'z' ==> ascii_upper(c) as int == c as int - 'a' as int + 'A' as int,
{
}

// ---------------------------------------------------------------------------
// Long addresses
// ---------------------------------------------------------------------------

/// A digit to the base sixteen is worth the same in capitals.
pub proof fn lemma_hex_values(s: Seq<char>, d: char)
    ensures
        hex_value('0') == 0,
        hex_value('9') == 9,
        hex_value('a') == 10,
        hex_value('f') == 15,
        hex_value('A') == 10,
        hex_value('F') == 15,
        hex_number(s.push(d)) == 16 * hex_number(s) + hex_value(d),
{
    assert(s.push(d).drop_last() =~= s);
}

/// A long address is worth its groups, each sixteen binary digits above the next.
pub proof fn lemma_groups(g: Seq<u16>, x: u16)
    ensures
        groups_number(g.push(x)) == 0x1_0000 * groups_number(g) + x,
        groups_number(Seq::empty()) == 0,
{
    assert(g.push(x).drop_last() =~= g);
}

/// Groups with colons between them are read as their numbers, in their order.
pub proof fn lemma_groups_in_order(p: Seq<Seq<char>>, v4: bool)
    requires
        p.len() > 0,
        forall|i: int| 0 <= i < p.len() ==> is_group(#[trigger] p[i]),
    ensures
        groups_of(joined(p, ':'), v4) == Some(
            p.map_values(|s: Seq<char>| hex_number(s) as u16),
        ),
{
    assert forall|i: int| 0 <= i < p.len() implies !(#[trigger] p[i]).contains(':') by {
        assert(is_group(p[i]));
        if p[i].contains(':') {
            let k = choose|k: int| 0 <= k < p[i].len() && p[i][k] == ':';
            assert(crate::ip::is_any_hex(p[i][k]));
        }
    }
    lemma_cells(p, ':');
    lemma_groups_upto(p, p.len() as int, v4);
    assert(p.take(p.len() as int) =~= p);
    let s = joined(p, ':');
    assert(s.len() > 0) by {
        if s.len() == 0 {
            assert(s =~= Seq::empty());
            assert(pieces(s, ':') =~= seq![Seq::<char>::empty()]);
            assert(p[0].len() == 0);
            assert(is_group(p[0]));
        }
    }
}

proof fn lemma_groups_upto(p: Seq<Seq<char>>, n: int, v4: bool)
    requires
        0 <= n <= p.len(),
        forall|i: int| 0 <= i < p.len() ==> is_group(#[trigger] p[i]),
    ensures
        groups_upto(p, n, v4) == Some(
            p.take(n).map_values(|s: Seq<char>| hex_number(s) as u16),
        ),
    decreases n,
{
    let f = |s: Seq<char>| hex_number(s) as u16;
    if n > 0 {
        lemma_groups_upto(p, n - 1, v4);
        assert(is_group(p[n - 1]));
        assert(p.take(n).map_values(f) =~= p.take(n - 1).map_values(f).push(hex_number(p[n - 1]) as u16));
    } else {
        assert(p.take(0).map_values(f) =~= Seq::empty());
    }
}

/// Where two colons stand together, as many groups of 0 are left out as make eight.
pub proof fn lemma_left_out_groups(h: Seq<Seq<char>>, t: Seq<Seq<char>>)
    requires
        h.len() > 0,
        t.len() > 0,
        h.len() + t.len() <= 7,
        forall|i: int| 0 <= i < h.len() ==> is_group(#[trigger] h[i]),
        forall|i: int| 0 <= i < t.len() ==> is_group(#[trigger] t[i]),
        double_colon(joined(h, ':') + seq![':', ':'] + joined(t, ':')) == joined(h, ':').len(),
    ensures
        ({
            let g = ipv6_groups(joined(h, ':') + seq![':', ':'] + joined(t, ':'));
            &&& g is Some
            &&& (g->0).len() == 8
            &&& forall|i: int| 0 <= i < h.len() ==> #[trigger] (g->0)[i] == hex_number(h[i]) as u16
            &&& forall|i: int| h.len() <= i < 8 - t.len() ==> #[trigger] (g->0)[i] == 0
            &&& forall|i: int|
                8 - t.len() <= i < 8 ==> #[trigger] (g->0)[i] == hex_number(
                    t[i - (8 - t.len())],
                ) as u16
        }),
{
    let (a, b) = (joined(h, ':'), joined(t, ':'));
    let s = a + seq![':', ':'] + b;
    lemma_groups_in_order(h, false);
    lemma_groups_in_order(t, true);
    assert(s.take(a.len() as int) =~= a);
    assert(s.skip(a.len() as int + 2) =~= b);
}

// ---------------------------------------------------------------------------
// Texts
// ---------------------------------------------------------------------------

/// The kinds of characters, by their numbers.
pub proof fn lemma_kinds_of_characters(c: char)
    ensures
        is_digit(c) <==> 48 <= c as int <= 57,
        is_ascii_lower(c) <==> 97 <= c as int <= 122,
        crate::text::is_ascii_alpha(c) <==> 65 <= c as int <= 90 || 97 <= c as int <= 122,
        crate::text::is_ascii_alnum(c) <==> is_digit(c) || 65 <= c as int <= 90 || 97 <= c as int <= 122,
        crate::text::is_ascii_graphic(c) <==> 33 <= c as int <= 126,
        is_control(c) <==> (c as int) < 32 || 127 <= c as int <= 159,
        crate::common::is_hex_digit(c) <==> is_digit(c) || 97 <= c as int <= 102,
        (c as int) < 128 ==> (crate::text::is_space(c) <==> 9 <= c as int <= 13 || c as int == 32),
        crate::server::handlers::auth::is_user_char(c) <==> crate::text::is_ascii_alnum(c) || c as int
            == 95 || c as int == 46 || c as int == 45,
        crate::server::alerts::is_token_char(c) <==> crate::text::is_ascii_alnum(c) || c as int == 95
            || c as int == 45,
        crate::server::alerts::is_channel_char(c) <==> crate::text::is_ascii_alnum(c) || c as int == 95,
        crate::agent::config::is_unit_char(c) <==> crate::text::is_ascii_alnum(c) || seq![
            '@',
            '.',
            '_',
            '-',
            ':',
        ].contains(c),
{
    let s = seq!['@', '.', '_', '-', ':'];
    assert(s[0] == '@' && s[1] == '.' && s[2] == '_' && s[3] == '-' && s[4] == ':');
}

/// A text begins, ends or goes on with another exactly where it is that other and something more.
pub proof fn lemma_parts_of_texts(s: Seq<char>, p: Seq<char>)
    ensures
        starts_with(s, p) <==> exists|r: Seq<char>| s == #[trigger] (p + r),
        ends_with(s, p) <==> exists|r: Seq<char>| s == #[trigger] (r + p),
        contains(s, p) <==> exists|a: Seq<char>, b: Seq<char>| s == #[trigger] (a + p + b),
{
    if starts_with(s, p) {
        assert(s =~= p + s.skip(p.len() as int));
    }
    if exists|r: Seq<char>| s == #[trigger] (p + r) {
        let r = choose|r: Seq<char>| s == #[trigger] (p + r);
        assert(s.take(p.len() as int) =~= p);
    }
    if ends_with(s, p) {
        assert(s =~= s.take(s.len() - p.len()) + p);
    }
    if exists|r: Seq<char>| s == #[trigger] (r + p) {
        let r = choose|r: Seq<char>| s == #[trigger] (r + p);
        assert(s.skip(s.len() - p.len()) =~= p);
    }
    if contains(s, p) {
        let i = choose|i: int| crate::text::occurs_at(s, p, i);
        assert(s =~= s.take(i) + p + s.skip(i + p.len()));
    }
    if exists|a: Seq<char>, b: Seq<char>| s == #[trigger] (a + p + b) {
        let (a, b) = choose|a: Seq<char>, b: Seq<char>| s == #[trigger] (a + p + b);
        lemma_in_between(a, p, b);
    }
}

/// White space at both ends goes, and nothing else.
pub proof fn lemma_trimming(a: Seq<char>, s: Seq<char>, b: Seq<char>)
    requires
        forall|i: int| 0 <= i < a.len() ==> crate::text::is_space(#[trigger] a[i]),
        forall|i: int| 0 <= i < b.len() ==> crate::text::is_space(#[trigger] b[i]),
        s.len() > 0,
        !crate::text::is_space(s[0]),
        !crate::text::is_space(s.last()),
    ensures
        crate::text::trimmed(a + s + b) == s,
    decreases a.len() + b.len(),
{
    let t = a + s + b;
    lemma_trimmed_start(a, s + b);
    assert(t =~= a + (s + b));
    lemma_trimmed_end(s, b);
}

proof fn lemma_trimmed_start(a: Seq<char>, t: Seq<char>)
    requires
        forall|i: int| 0 <= i < a.len() ==> crate::text::is_space(#[trigger] a[i]),
        t.len() > 0,
        !crate::text::is_space(t[0]),
    ensures
        crate::text::trim_start(a + t) == t,
    decreases a.len(),
{
    if a.len() == 0 {
        assert(a + t =~= t);
    } else {
        let d = a.drop_first();
        assert(crate::text::is_space(a[0]));
        assert forall|i: int| 0 <= i < d.len() implies crate::text::is_space(#[trigger] d[i]) by {
            assert(d[i] == a[i + 1]);
        }
        lemma_trimmed_start(d, t);
        assert((a + t)[0] == a[0]);
        assert((a + t).drop_first() =~= d + t);
    }
}

proof fn lemma_trimmed_end(t: Seq<char>, b: Seq<char>)
    requires
        forall|i: int| 0 <= i < b.len() ==> crate::text::is_space(#[trigger] b[i]),
        t.len() > 0,
        !crate::text::is_space(t.last()),
    ensures
        crate::text::trim_end(t + b) == t,
    decreases b.len(),
{
    if b.len() == 0 {
        assert(t + b =~= t);
    } else {
        let d = b.drop_last();
        assert(crate::text::is_space(b[b.len() - 1]));
        assert forall|i: int| 0 <= i < d.len() implies crate::text::is_space(#[trigger] d[i]) by {
            assert(d[i] == b[i]);
        }
        lemma_trimmed_end(t, d);
        assert((t + b).last() == b[b.len() - 1]);
        assert((t + b).drop_last() =~= t + d);
    }
}

/// A text is cut at the first sign: what stands before it, and what stands behind it.
pub proof fn lemma_cut_at_a_sign(a: Seq<char>, c: char, b: Seq<char>)
    requires
        !a.contains(c),
    ensures
        before(a + seq![c] + b, c) == a,
        after(a + seq![c] + b, c) == b,
        before(a, c) == a,
{
    let s = a + seq![c] + b;
    assert(s[a.len() as int] == c);
    lemma_first_index(s, c);
    let k = first_index(s, c);
    assert(k == a.len()) by {
        if k < a.len() {
            assert(a[k] == s[k]);
        }
    }
    assert(before(s, c) =~= a);
    assert(after(s, c) =~= b);
    lemma_first_index(a, c);
    assert(before(a, c) =~= a);
}

/// Of two numbers the larger is one of them and not below the other; a number is moved between its limits
/// only where it lies outside.
pub proof fn lemma_larger(a: i64, b: i64, x: i64)
    ensures
        crate::num::larger(a, b) >= a && crate::num::larger(a, b) >= b,
        crate::num::larger(a, b) == a || crate::num::larger(a, b) == b,
        a <= x <= b ==> crate::num::clamped_i64(x, a, b) == x,
        x < a <= b ==> crate::num::clamped_i64(x, a, b) == a,
        a <= b < x ==> crate::num::clamped_i64(x, a, b) == b,
{
}

/// A number of an address has one to three digits, none too many in front, and is below two hundred and
/// fifty-six.
pub proof fn lemma_numbers_of_addresses(s: Seq<char>)
    ensures
        octet_value(s) matches Some(n) ==> {
            &&& all_digits(s)
            &&& 1 <= s.len() <= 3
            &&& s.len() > 1 ==> s[0] != '0'
            &&& n <= 255
            &&& n == crate::num::digits_value(s)
        },
        ipv4_value(s) is Some ==> pieces(s, '.').len() == 4,
{
}

} // verus!
