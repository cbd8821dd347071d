//! What is handed to other programs: figures and tables, read back.

use crate::laws::notify::lemma_in_between;
use crate::num::{decimal, decimal_int, lemma_decimal, lemma_decimal_roundtrip};
use crate::server::handlers::dataout::{
    all_figures, export_head, export_line, export_lines, export_start, figure, gauge, gauges,
    label_text, lemma_label_is_closed, node_figures, node_label, ExportRow, PromRow,
};
use crate::server::handlers::nodes::online;
use crate::text::{
    contains, is_control, joined, lemma_pieces_nonempty, lemma_pieces_of_two, lines, pieces,
    starts_with, without_cr,
};
use vstd::prelude::*;
use vstd::string::*;

verus! {

// ---------------------------------------------------------------------------
// Lines
// ---------------------------------------------------------------------------

/// Nothing in `s` ends a line.
pub open spec fn one_line(s: Seq<char>) -> bool {
    forall|i: int| 0 <= i < s.len() ==> #[trigger] s[i] != '\n' && s[i] != '\r'
}

/// `s` is made of whole lines.
pub open spec fn whole(s: Seq<char>) -> bool {
    pieces(s, '\n').last().len() == 0
}

/// The one line that begins with `head` goes on with `value` and ends there.
pub open spec fn told(ls: Seq<Seq<char>>, head: Seq<char>, value: Seq<char>) -> bool {
    exists|i: int|
        0 <= i < ls.len() && #[trigger] ls[i] == head + value && forall|j: int|
            0 <= j < ls.len() && starts_with(#[trigger] ls[j], head) ==> j == i
}

proof fn lemma_one_line_of_two(a: Seq<char>, b: Seq<char>)
    requires
        one_line(a),
        one_line(b),
    ensures
        one_line(a + b),
{
    assert forall|i: int| 0 <= i < (a + b).len() implies #[trigger] (a + b)[i] != '\n' && (a + b)[i]
        != '\r' by {
        if i < a.len() {
            assert((a + b)[i] == a[i]);
        } else {
            assert((a + b)[i] == b[i - a.len()]);
        }
    }
}

proof fn lemma_number_is_one_line(n: int)
    ensures
        one_line(decimal_int(n)),
{
    let m: nat = if n < 0 {
        (-n) as nat
    } else {
        n as nat
    };
    lemma_decimal(m);
    let d = decimal(m);
    assert forall|i: int| 0 <= i < d.len() implies #[trigger] d[i] != '\n' && d[i] != '\r' by {
        assert(crate::text::is_digit(d[i]));
    }
    if n < 0 {
        lemma_one_line_of_two(seq!['-'], d);
    }
}

proof fn lemma_pieces_go_on(x: Seq<char>, b: Seq<char>, c: char)
    requires
        forall|i: int| 0 <= i < b.len() ==> #[trigger] b[i] != c,
    ensures
        pieces(x + b, c) == pieces(x, c).drop_last().push(pieces(x, c).last() + b),
    decreases b.len(),
{
    lemma_pieces_nonempty(x, c);
    let p = pieces(x, c);
    if b.len() == 0 {
        assert(x + b =~= x);
        assert(p.last() + b =~= p.last());
        assert(p.drop_last().push(p.last()) =~= p);
    } else {
        let t = b.drop_last();
        assert forall|i: int| 0 <= i < t.len() implies #[trigger] t[i] != c by {
            assert(t[i] == b[i]);
        }
        lemma_pieces_go_on(x, t, c);
        assert((x + b).drop_last() =~= x + t);
        assert((x + b).last() == b[b.len() - 1]);
        let q = pieces(x + t, c);
        assert(q.drop_last() =~= p.drop_last());
        assert(q.last().push(b.last()) =~= p.last() + b);
    }
}

/// A line behind whole lines is the last of the lines.
pub proof fn lemma_add_line(x: Seq<char>, b: Seq<char>)
    requires
        whole(x),
        one_line(b),
    ensures
        lines(x + b.push('\n')) == lines(x).push(b),
        whole(x + b.push('\n')),
{
    lemma_pieces_go_on(x, b, '\n');
    lemma_pieces_nonempty(x, '\n');
    let s = x + b.push('\n');
    assert(s.drop_last() =~= x + b);
    let p = pieces(x, '\n');
    assert(p.last() + b =~= b);
    let q = pieces(s, '\n');
    assert(q =~= p.drop_last().push(b).push(Seq::empty()));
    assert(without_cr(b) == b) by {
        if b.len() > 0 {
            assert(b[b.len() - 1] != '\r');
        }
    }
    assert(lines(s) =~= lines(x).push(b));
}

proof fn lemma_whole_lines_add_up(x: Seq<char>, y: Seq<char>)
    requires
        whole(x),
    ensures
        lines(x + y) == lines(x) + lines(y),
        whole(y) ==> whole(x + y),
    decreases x.len(),
{
    lemma_pieces_nonempty(x, '\n');
    lemma_pieces_nonempty(y, '\n');
    if x.len() == 0 {
        assert(x + y =~= y);
        assert(pieces(x, '\n').len() == 1);
        assert(lines(x) =~= Seq::empty());
        assert(lines(x) + lines(y) =~= lines(y));
    } else {
        let t = x.drop_last();
        lemma_pieces_nonempty(t, '\n');
        assert(x.last() == '\n');
        assert(x =~= t.push('\n'));
        lemma_pieces_of_two(t, y, '\n');
        let (p, q) = (pieces(t, '\n'), pieces(y, '\n'));
        assert(pieces(x, '\n') =~= p.push(Seq::empty()));
        assert(pieces(x + y, '\n') == p + q);
        assert((p + q).last() == q.last());
        assert(lines(x + y) =~= lines(x) + lines(y));
    }
}

// ---------------------------------------------------------------------------
// Figures
// ---------------------------------------------------------------------------

/// What the line of the figure `name` of a node begins with.
pub open spec fn head_of(name: Seq<char>, r: PromRow) -> Seq<char> {
    "outpost_"@ + name + node_label(r) + " "@
}

/// A name that is told apart from the label behind it.
pub open spec fn figure_name(s: Seq<char>) -> bool {
    forall|i: int| 0 <= i < s.len() ==> #[trigger] s[i] != '\n' && s[i] != '\r' && s[i] != '{'
}

proof fn lemma_heads_differ(a: Seq<char>, b: Seq<char>, r: PromRow, v: Seq<char>)
    requires
        figure_name(a),
        figure_name(b),
        starts_with(head_of(a, r) + v, head_of(b, r)),
    ensures
        a == b,
{
    let o = "outpost_"@;
    let (s, h) = (head_of(a, r) + v, head_of(b, r));
    reveal_strlit("{node=\"");
    let l = node_label(r);
    assert(l[0] == '{');
    assert(s.take(h.len() as int) == h);
    assert forall|i: int| 0 <= i < h.len() implies h[i] == s[i] by {
        assert(s.take(h.len() as int)[i] == s[i]);
    }
    assert(h[(o.len() + b.len()) as int] == '{');
    assert(s[(o.len() + a.len()) as int] == '{');
    if a.len() < b.len() {
        assert(h[(o.len() + a.len()) as int] == b[a.len() as int]);
    } else if b.len() < a.len() {
        assert(s[(o.len() + b.len()) as int] == a[b.len() as int]);
    }
    assert forall|i: int| 0 <= i < a.len() implies a[i] == b[i] by {
        assert(s[o.len() + i] == a[i]);
        assert(h[o.len() + i] == b[i]);
    }
    assert(a =~= b);
}

proof fn lemma_label_is_one_line(r: PromRow)
    ensures
        one_line(node_label(r)),
{
    lemma_label_is_closed(r.name@);
    let t = label_text(r.name@);
    assert forall|i: int| 0 <= i < t.len() implies #[trigger] t[i] != '\n' && t[i] != '\r' by {
        assert(!is_control(t[i]));
    }
    lemma_number_is_one_line(r.id as int);
    reveal_strlit("{node=\"");
    reveal_strlit("\",node_id=\"");
    reveal_strlit("\"}");
    let (a, b, c) = ("{node=\""@, "\",node_id=\""@, "\"}"@);
    lemma_one_line_of_two(a, t);
    lemma_one_line_of_two(a + t, b);
    lemma_one_line_of_two(a + t + b, decimal_int(r.id as int));
    lemma_one_line_of_two(a + t + b + decimal_int(r.id as int), c);
}

proof fn lemma_figure_line(x: Seq<char>, name: Seq<char>, r: PromRow, v: Seq<char>)
    requires
        whole(x),
        figure_name(name),
        one_line(v),
    ensures
        whole(x + figure(name, node_label(r), v)),
        lines(x + figure(name, node_label(r), v)) == lines(x).push(head_of(name, r) + v),
{
    reveal_strlit("outpost_");
    reveal_strlit(" ");
    reveal_strlit("\n");
    let (o, l) = ("outpost_"@, node_label(r));
    assert(one_line(o) && one_line(" "@) && one_line(name));
    lemma_label_is_one_line(r);
    lemma_one_line_of_two(o, name);
    lemma_one_line_of_two(o + name, l);
    lemma_one_line_of_two(o + name + l, " "@);
    lemma_one_line_of_two(head_of(name, r), v);
    assert(figure(name, l, v) =~= (head_of(name, r) + v).push('\n'));
    lemma_add_line(x, head_of(name, r) + v);
}

proof fn lemma_told(ls: Seq<Seq<char>>, names: Seq<Seq<char>>, values: Seq<Seq<char>>, r: PromRow, k: int)
    requires
        ls.len() == names.len() == values.len(),
        0 <= k < ls.len(),
        forall|i: int| 0 <= i < ls.len() ==> figure_name(#[trigger] names[i]),
        forall|i: int|
            0 <= i < ls.len() ==> #[trigger] ls[i] == head_of(names[i], r) + values[i],
        forall|i: int| 0 <= i < ls.len() && i != k ==> #[trigger] names[i] != names[k],
    ensures
        told(ls, head_of(names[k], r), values[k]),
{
    let h = head_of(names[k], r);
    assert(ls[k] == h + values[k]);
    assert forall|j: int| 0 <= j < ls.len() && starts_with(#[trigger] ls[j], h) implies j == k by {
        lemma_heads_differ(names[j], names[k], r, values[j]);
    }
}

/// The names of the figures of a node, each with a place of its own.
pub open spec fn figure_names() -> Seq<Seq<char>> {
    seq![
        "up"@,
        "cpu_percent"@,
        "mem_used_bytes"@,
        "mem_total_bytes"@,
        "disk_used_bytes"@,
        "disk_total_bytes"@,
        "load1"@,
        "net_rx_bps"@,
        "net_tx_bps"@,
        "uptime_seconds"@,
        "procs"@,
    ]
}

proof fn lemma_figure_names()
    ensures
        figure_names().len() == 11,
        forall|i: int| 0 <= i < 11 ==> figure_name(#[trigger] figure_names()[i]),
        forall|i: int, k: int|
            #![trigger figure_names()[i], figure_names()[k]]
            0 <= i < 11 && 0 <= k < 11 && i != k ==> figure_names()[i] != figure_names()[k],
{
    reveal_strlit("up");
    reveal_strlit("cpu_percent");
    reveal_strlit("mem_used_bytes");
    reveal_strlit("mem_total_bytes");
    reveal_strlit("disk_used_bytes");
    reveal_strlit("disk_total_bytes");
    reveal_strlit("load1");
    reveal_strlit("net_rx_bps");
    reveal_strlit("net_tx_bps");
    reveal_strlit("uptime_seconds");
    reveal_strlit("procs");
    let n = figure_names();
    assert(figure_name("up"@) && figure_name("cpu_percent"@));
    assert(figure_name("mem_used_bytes"@) && figure_name("mem_total_bytes"@));
    assert(figure_name("disk_used_bytes"@) && figure_name("disk_total_bytes"@));
    assert(figure_name("load1"@) && figure_name("procs"@));
    assert(figure_name("net_rx_bps"@) && figure_name("net_tx_bps"@));
    assert(figure_name("uptime_seconds"@));
    assert(n[0].len() == 2 && n[1].len() == 11 && n[2].len() == 14 && n[3].len() == 15);
    assert(n[4].len() == 15 && n[5].len() == 16 && n[6].len() == 5 && n[7].len() == 10);
    assert(n[8].len() == 10 && n[9].len() == 14 && n[10].len() == 5);
    assert(n[7][4] == 'r' && n[8][4] == 't');
    assert(n[3][0] == 'm' && n[4][0] == 'd');
    assert(n[2][0] == 'm' && n[9][0] == 'u');
    assert(n[6][0] == 'l' && n[10][0] == 'p');
    assert forall|i: int, k: int|
        #![trigger n[i], n[k]]
        0 <= i < 11 && 0 <= k < 11 && i != k implies n[i] != n[k] by {
        if n[i] == n[k] {
            assert(n[i].len() == n[k].len());
            assert(n[i][0] == n[k][0] && n[i][4] == n[k][4]);
        }
    }
}

/// A row whose texts each fit on a line.
pub open spec fn tellable(r: PromRow) -> bool {
    &&& r.cpu matches Some(c) && one_line(c@)
    &&& one_line(r.load1@)
}

/// The values of the figures of a node with a report, under [`figure_names`].
spec fn figure_values(r: PromRow, up: Seq<char>) -> Seq<Seq<char>> {
    seq![
        up,
        (r.cpu->0)@,
        decimal_int(r.mem_used as int),
        decimal_int(r.mem_total as int),
        decimal_int(r.disk_used as int),
        decimal_int(r.disk_total as int),
        r.load1@,
        decimal_int(r.net_rx_bps as int),
        decimal_int(r.net_tx_bps as int),
        decimal_int(r.uptime_secs as int),
        decimal_int(r.procs as int),
    ]
}

/// The first `k` figures with the names `n` and the values `v`, one line each.
spec fn shown(n: Seq<Seq<char>>, v: Seq<Seq<char>>, r: PromRow, k: nat) -> Seq<char>
    decreases k,
{
    if k == 0 {
        Seq::empty()
    } else {
        shown(n, v, r, (k - 1) as nat) + line_at(n, v, r, k - 1)
    }
}

#[verifier::opaque]
spec fn line_at(n: Seq<Seq<char>>, v: Seq<Seq<char>>, r: PromRow, k: int) -> Seq<char> {
    figure(n[k], node_label(r), v[k])
}

proof fn lemma_shown(n: Seq<Seq<char>>, v: Seq<Seq<char>>, r: PromRow, k: nat)
    requires
        k <= n.len() == v.len(),
        forall|i: int| 0 <= i < n.len() ==> figure_name(#[trigger] n[i]),
        forall|i: int| 0 <= i < n.len() ==> one_line(#[trigger] v[i]),
    ensures
        whole(shown(n, v, r, k)),
        lines(shown(n, v, r, k)).len() == k,
        forall|i: int|
            0 <= i < k ==> #[trigger] lines(shown(n, v, r, k))[i] == head_of(n[i], r) + v[i],
    decreases k,
{
    if k == 0 {
        let e = Seq::<char>::empty();
        assert(pieces(e, '\n').len() == 1);
        assert(lines(e) =~= Seq::empty());
    } else {
        let x = shown(n, v, r, (k - 1) as nat);
        lemma_shown(n, v, r, (k - 1) as nat);
        lemma_figure_line(x, n[k - 1], r, v[k - 1]);
        reveal(line_at);
        let ls = lines(shown(n, v, r, k));
        assert forall|i: int| 0 <= i < k implies #[trigger] ls[i] == head_of(n[i], r) + v[i] by {
            if i < k - 1 {
                assert(ls[i] == lines(x)[i]);
            }
        }
    }
}

proof fn lemma_grouped(a: Seq<char>, b: Seq<char>, c: Seq<char>)
    ensures
        a + (b + c) == (a + b) + c,
{
    assert(a + (b + c) =~= (a + b) + c);
}

spec fn same(a: Seq<char>, b: Seq<char>) -> bool {
    a == b
}

#[verifier::spinoff_prover]
#[verifier::rlimit(30)]
proof fn lemma_node_is_eleven(r: PromRow, interval: i64, now: i64, up: Seq<char>)
    requires
        r.cpu is Some,
        up == if online(r.last_seen, interval, now) {
            "1"@
        } else {
            "0"@
        },
    ensures
        ({
            let (n, v) = (figure_names(), figure_values(r, up));
            same(
                node_figures(r, interval, now),
                line_at(n, v, r, 0) + (line_at(n, v, r, 1) + line_at(n, v, r, 2) + line_at(n, v, r, 3)
                    + line_at(n, v, r, 4) + line_at(n, v, r, 5) + line_at(n, v, r, 6) + line_at(
                    n,
                    v,
                    r,
                    7,
                ) + line_at(n, v, r, 8) + line_at(n, v, r, 9) + line_at(n, v, r, 10)),
            )
        }),
{
    reveal(line_at);
}

#[verifier::spinoff_prover]
proof fn lemma_shown_is_all(r: PromRow, interval: i64, now: i64, up: Seq<char>)
    requires
        r.cpu is Some,
        up == if online(r.last_seen, interval, now) {
            "1"@
        } else {
            "0"@
        },
    ensures
        same(node_figures(r, interval, now), shown(figure_names(), figure_values(r, up), r, 11)),
{
    lemma_node_is_eleven(r, interval, now, up);
    lemma_shown_is_eleven(figure_names(), figure_values(r, up), r);
}

proof fn lemma_shown_is_eleven(n: Seq<Seq<char>>, v: Seq<Seq<char>>, r: PromRow)
    ensures
        same(
            shown(n, v, r, 11),
            line_at(n, v, r, 0) + (line_at(n, v, r, 1) + line_at(n, v, r, 2) + line_at(n, v, r, 3)
                + line_at(n, v, r, 4) + line_at(n, v, r, 5) + line_at(n, v, r, 6) + line_at(
                n,
                v,
                r,
                7,
            ) + line_at(n, v, r, 8) + line_at(n, v, r, 9) + line_at(n, v, r, 10)),
        ),
{
    let f0 = line_at(n, v, r, 0);
    let f1 = line_at(n, v, r, 1);
    let f2 = line_at(n, v, r, 2);
    let f3 = line_at(n, v, r, 3);
    let f4 = line_at(n, v, r, 4);
    let f5 = line_at(n, v, r, 5);
    let f6 = line_at(n, v, r, 6);
    let f7 = line_at(n, v, r, 7);
    let f8 = line_at(n, v, r, 8);
    let f9 = line_at(n, v, r, 9);
    let f10 = line_at(n, v, r, 10);
    lemma_shown_next(n, v, r, 0);
    lemma_shown_next(n, v, r, 1);
    lemma_shown_next(n, v, r, 2);
    lemma_shown_next(n, v, r, 3);
    lemma_shown_next(n, v, r, 4);
    lemma_shown_next(n, v, r, 5);
    lemma_shown_next(n, v, r, 6);
    lemma_shown_next(n, v, r, 7);
    lemma_shown_next(n, v, r, 8);
    lemma_shown_next(n, v, r, 9);
    lemma_shown_next(n, v, r, 10);
    lemma_nothing_before(f0);
    lemma_eleven(f0, f1, f2, f3, f4, f5, f6, f7, f8, f9, f10);
}

proof fn lemma_shown_next(n: Seq<Seq<char>>, v: Seq<Seq<char>>, r: PromRow, k: nat)
    ensures
        shown(n, v, r, k + 1) == shown(n, v, r, k) + line_at(n, v, r, k as int),
        k == 0 ==> shown(n, v, r, k) == Seq::<char>::empty(),
{
}

proof fn lemma_nothing_before(s: Seq<char>)
    ensures
        Seq::<char>::empty() + s == s,
{
    assert(Seq::<char>::empty() + s =~= s);
}

proof fn lemma_eleven(
    f0: Seq<char>,
    f1: Seq<char>,
    f2: Seq<char>,
    f3: Seq<char>,
    f4: Seq<char>,
    f5: Seq<char>,
    f6: Seq<char>,
    f7: Seq<char>,
    f8: Seq<char>,
    f9: Seq<char>,
    f10: Seq<char>,
)
    ensures
        f0 + (f1 + f2 + f3 + f4 + f5 + f6 + f7 + f8 + f9 + f10) == f0 + f1 + f2 + f3 + f4 + f5 + f6
            + f7 + f8 + f9 + f10,
{
    lemma_grouped(f0, f1, f2);
    lemma_grouped(f0, f1 + f2, f3);
    lemma_grouped(f0, f1 + f2 + f3, f4);
    lemma_grouped(f0, f1 + f2 + f3 + f4, f5);
    lemma_grouped(f0, f1 + f2 + f3 + f4 + f5, f6);
    lemma_grouped(f0, f1 + f2 + f3 + f4 + f5 + f6, f7);
    lemma_grouped(f0, f1 + f2 + f3 + f4 + f5 + f6 + f7, f8);
    lemma_grouped(f0, f1 + f2 + f3 + f4 + f5 + f6 + f7 + f8, f9);
    lemma_grouped(f0, f1 + f2 + f3 + f4 + f5 + f6 + f7 + f8 + f9, f10);
}

proof fn lemma_lines_of_a_node(r: PromRow, interval: i64, now: i64, up: Seq<char>)
    requires
        tellable(r),
        up == if online(r.last_seen, interval, now) {
            "1"@
        } else {
            "0"@
        },
    ensures
        whole(node_figures(r, interval, now)),
        ({
            let ls = lines(node_figures(r, interval, now));
            &&& ls.len() == 11
            &&& forall|i: int|
                0 <= i < 11 ==> #[trigger] ls[i] == head_of(figure_names()[i], r) + figure_values(
                    r,
                    up,
                )[i]
        }),
{
    lemma_figure_names();
    let v = figure_values(r, up);
    reveal_strlit("1");
    reveal_strlit("0");
    lemma_number_is_one_line(r.mem_used as int);
    lemma_number_is_one_line(r.mem_total as int);
    lemma_number_is_one_line(r.disk_used as int);
    lemma_number_is_one_line(r.disk_total as int);
    lemma_number_is_one_line(r.net_rx_bps as int);
    lemma_number_is_one_line(r.net_tx_bps as int);
    lemma_number_is_one_line(r.uptime_secs as int);
    lemma_number_is_one_line(r.procs as int);
    assert(one_line(up));
    assert forall|i: int| 0 <= i < 11 implies one_line(#[trigger] v[i]) by {}
    lemma_shown_is_all(r, interval, now, up);
    lemma_shown(figure_names(), v, r, 11);
}

/// Each figure of a node with a report is read back as the field of its name: one line begins with the
/// name and the node's label, and it ends with that field.
pub proof fn lemma_figures_are_read_back(r: PromRow, interval: i64, now: i64)
    requires
        tellable(r),
    ensures
        ({
            let ls = lines(node_figures(r, interval, now));
            &&& ls.len() == 11
            &&& online(r.last_seen, interval, now) ==> told(ls, head_of("up"@, r), seq!['1'])
            &&& !online(r.last_seen, interval, now) ==> told(ls, head_of("up"@, r), seq!['0'])
            &&& told(ls, head_of("cpu_percent"@, r), (r.cpu->0)@)
            &&& told(ls, head_of("mem_used_bytes"@, r), decimal_int(r.mem_used as int))
            &&& told(ls, head_of("mem_total_bytes"@, r), decimal_int(r.mem_total as int))
            &&& told(ls, head_of("disk_used_bytes"@, r), decimal_int(r.disk_used as int))
            &&& told(ls, head_of("disk_total_bytes"@, r), decimal_int(r.disk_total as int))
            &&& told(ls, head_of("load1"@, r), r.load1@)
            &&& told(ls, head_of("net_rx_bps"@, r), decimal_int(r.net_rx_bps as int))
            &&& told(ls, head_of("net_tx_bps"@, r), decimal_int(r.net_tx_bps as int))
            &&& told(ls, head_of("uptime_seconds"@, r), decimal_int(r.uptime_secs as int))
            &&& told(ls, head_of("procs"@, r), decimal_int(r.procs as int))
        }),
{
    let up = if online(r.last_seen, interval, now) {
        "1"@
    } else {
        "0"@
    };
    lemma_figure_names();
    lemma_lines_of_a_node(r, interval, now, up);
    let ls = lines(node_figures(r, interval, now));
    let (n, v) = (figure_names(), figure_values(r, up));
    assert forall|k: int| 0 <= k < 11 implies #[trigger] told(ls, head_of(n[k], r), v[k]) by {
        lemma_told(ls, n, v, r, k);
    }
    reveal_strlit("1");
    reveal_strlit("0");
    assert("1"@ =~= seq!['1'] && "0"@ =~= seq!['0']);
    assert(told(ls, head_of(n[0], r), v[0]));
    assert(told(ls, head_of(n[1], r), v[1]));
    assert(told(ls, head_of(n[2], r), v[2]));
    assert(told(ls, head_of(n[3], r), v[3]));
    assert(told(ls, head_of(n[4], r), v[4]));
    assert(told(ls, head_of(n[5], r), v[5]));
    assert(told(ls, head_of(n[6], r), v[6]));
    assert(told(ls, head_of(n[7], r), v[7]));
    assert(told(ls, head_of(n[8], r), v[8]));
    assert(told(ls, head_of(n[9], r), v[9]));
    assert(told(ls, head_of(n[10], r), v[10]));
}

proof fn lemma_told_once(ls: Seq<Seq<char>>, head: Seq<char>, a: Seq<char>, b: Seq<char>)
    requires
        told(ls, head, a),
        told(ls, head, b),
    ensures
        a == b,
{
    let i = choose|i: int|
        0 <= i < ls.len() && #[trigger] ls[i] == head + a && forall|j: int|
            0 <= j < ls.len() && starts_with(#[trigger] ls[j], head) ==> j == i;
    let k = choose|i: int|
        0 <= i < ls.len() && #[trigger] ls[i] == head + b && forall|j: int|
            0 <= j < ls.len() && starts_with(#[trigger] ls[j], head) ==> j == i;
    assert((head + b).take(head.len() as int) =~= head);
    assert(starts_with(ls[k], head));
    assert(k == i);
    assert((head + a).skip(head.len() as int) =~= a);
    assert((head + b).skip(head.len() as int) =~= b);
}

proof fn lemma_numbers_differ(a: int, b: int)
    requires
        decimal_int(a) == decimal_int(b),
    ensures
        a == b,
{
    lemma_decimal_roundtrip(a);
    lemma_decimal_roundtrip(b);
}

/// Two rows of one node that differ in a figure give different texts.
pub proof fn lemma_figures_tell_rows_apart(a: PromRow, b: PromRow, interval: i64, now: i64)
    requires
        tellable(a),
        tellable(b),
        a.id == b.id,
        a.name@ == b.name@,
        node_figures(a, interval, now) == node_figures(b, interval, now),
    ensures
        (a.cpu->0)@ == (b.cpu->0)@,
        a.mem_used == b.mem_used,
        a.mem_total == b.mem_total,
        a.disk_used == b.disk_used,
        a.disk_total == b.disk_total,
        a.load1@ == b.load1@,
        a.net_rx_bps == b.net_rx_bps,
        a.net_tx_bps == b.net_tx_bps,
        a.uptime_secs == b.uptime_secs,
        a.procs == b.procs,
        online(a.last_seen, interval, now) == online(b.last_seen, interval, now),
{
    lemma_figures_are_read_back(a, interval, now);
    lemma_figures_are_read_back(b, interval, now);
    let ls = lines(node_figures(a, interval, now));
    lemma_told_once(ls, head_of("cpu_percent"@, a), (a.cpu->0)@, (b.cpu->0)@);
    lemma_told_once(ls, head_of("load1"@, a), a.load1@, b.load1@);
    lemma_told_once(
        ls,
        head_of("mem_used_bytes"@, a),
        decimal_int(a.mem_used as int),
        decimal_int(b.mem_used as int),
    );
    lemma_numbers_differ(a.mem_used as int, b.mem_used as int);
    lemma_told_once(
        ls,
        head_of("mem_total_bytes"@, a),
        decimal_int(a.mem_total as int),
        decimal_int(b.mem_total as int),
    );
    lemma_numbers_differ(a.mem_total as int, b.mem_total as int);
    lemma_told_once(
        ls,
        head_of("disk_used_bytes"@, a),
        decimal_int(a.disk_used as int),
        decimal_int(b.disk_used as int),
    );
    lemma_numbers_differ(a.disk_used as int, b.disk_used as int);
    lemma_told_once(
        ls,
        head_of("disk_total_bytes"@, a),
        decimal_int(a.disk_total as int),
        decimal_int(b.disk_total as int),
    );
    lemma_numbers_differ(a.disk_total as int, b.disk_total as int);
    lemma_told_once(
        ls,
        head_of("net_rx_bps"@, a),
        decimal_int(a.net_rx_bps as int),
        decimal_int(b.net_rx_bps as int),
    );
    lemma_numbers_differ(a.net_rx_bps as int, b.net_rx_bps as int);
    lemma_told_once(
        ls,
        head_of("net_tx_bps"@, a),
        decimal_int(a.net_tx_bps as int),
        decimal_int(b.net_tx_bps as int),
    );
    lemma_numbers_differ(a.net_tx_bps as int, b.net_tx_bps as int);
    lemma_told_once(
        ls,
        head_of("uptime_seconds"@, a),
        decimal_int(a.uptime_secs as int),
        decimal_int(b.uptime_secs as int),
    );
    lemma_numbers_differ(a.uptime_secs as int, b.uptime_secs as int);
    lemma_told_once(
        ls,
        head_of("procs"@, a),
        decimal_int(a.procs as int),
        decimal_int(b.procs as int),
    );
    lemma_numbers_differ(a.procs as int, b.procs as int);
    if online(a.last_seen, interval, now) != online(b.last_seen, interval, now) {
        lemma_told_once(ls, head_of("up"@, a), seq!['1'], seq!['0']);
        assert(seq!['1'][0] == seq!['0'][0]);
    }
}

/// A node without any report has one line, and it tells whether the node is connected.
pub proof fn lemma_node_without_a_report(r: PromRow, interval: i64, now: i64)
    requires
        r.cpu is None,
    ensures
        lines(node_figures(r, interval, now)) == seq![
            head_of("up"@, r) + if online(r.last_seen, interval, now) {
                seq!['1']
            } else {
                seq!['0']
            },
        ],
{
    let up = if online(r.last_seen, interval, now) {
        "1"@
    } else {
        "0"@
    };
    reveal_strlit("1");
    reveal_strlit("0");
    assert("1"@ =~= seq!['1'] && "0"@ =~= seq!['0']);
    lemma_figure_names();
    assert(figure_name(figure_names()[0]));
    let e = Seq::<char>::empty();
    assert(pieces(e, '\n').len() == 1);
    assert(lines(e) =~= Seq::empty());
    lemma_figure_line(e, "up"@, r, up);
    assert(node_figures(r, interval, now) =~= e + figure("up"@, node_label(r), up));
    assert(lines(node_figures(r, interval, now)) =~= seq![head_of("up"@, r) + up]);
}

/// The lines of many nodes are those of each, one node behind the other.
#[verifier::rlimit(30)]
pub proof fn lemma_nodes_one_by_one(rows: Seq<PromRow>, r: PromRow, interval: i64, now: i64)
    requires
        forall|i: int|
            0 <= i < rows.len() && (#[trigger] rows[i]).cpu is Some ==> tellable(rows[i]),
    ensures
        whole(all_figures(rows, interval, now)),
        lines(all_figures(rows.push(r), interval, now)) == lines(all_figures(rows, interval, now))
            + lines(node_figures(r, interval, now)),
        all_figures(Seq::empty(), interval, now) == Seq::<char>::empty(),
    decreases rows.len(),
{
    assert(rows.push(r).drop_last() =~= rows);
    let x = all_figures(rows, interval, now);
    if rows.len() == 0 {
        assert(pieces(x, '\n').len() == 1);
    } else {
        let t = rows.drop_last();
        let q = rows[rows.len() - 1];
        assert forall|i: int| 0 <= i < t.len() && (#[trigger] t[i]).cpu is Some implies tellable(
            t[i],
        ) by {
            assert(t[i] == rows[i]);
        }
        lemma_nodes_one_by_one(t, q, interval, now);
        let up = if online(q.last_seen, interval, now) {
            "1"@
        } else {
            "0"@
        };
        if q.cpu is Some {
            lemma_lines_of_a_node(q, interval, now, up);
        } else {
            lemma_figure_names();
            assert(figure_name(figure_names()[0]));
            reveal_strlit("1");
            reveal_strlit("0");
            let e = Seq::<char>::empty();
            assert(pieces(e, '\n').len() == 1);
            lemma_figure_line(e, "up"@, q, up);
            assert(node_figures(q, interval, now) =~= e + figure("up"@, node_label(q), up));
        }
        lemma_whole_lines_add_up(all_figures(t, interval, now), node_figures(q, interval, now));
    }
    lemma_whole_lines_add_up(x, node_figures(r, interval, now));
}

proof fn lemma_gauge(name: Seq<char>, help: Seq<char>, a: Seq<char>, b: Seq<char>)
    ensures
        contains(a + gauge(name, help) + b, "# HELP outpost_"@ + name + " "@ + help + "\n"@),
        contains(a + gauge(name, help) + b, "# TYPE outpost_"@ + name + " gauge\n"@),
{
    reveal_strlit("\n# TYPE outpost_");
    reveal_strlit("\n");
    reveal_strlit("# TYPE outpost_");
    let h = "# HELP outpost_"@ + name + " "@ + help;
    let t = "# TYPE outpost_"@ + name + " gauge\n"@;
    assert("\n# TYPE outpost_"@ =~= "\n"@ + "# TYPE outpost_"@);
    let g = gauge(name, help);
    assert(g =~= h + "\n"@ + t);
    let s = a + g + b;
    lemma_in_between(a, h + "\n"@, t + b);
    assert(a + (h + "\n"@) + (t + b) =~= s);
    lemma_in_between(a + h + "\n"@, t, b);
    assert(a + h + "\n"@ + t + b =~= s);
}

/// The explanation of the figure `name` stands in `s`.
pub open spec fn explained(s: Seq<char>, name: Seq<char>, help: Seq<char>) -> bool {
    &&& contains(s, "# HELP outpost_"@ + name + " "@ + help + "\n"@)
    &&& contains(s, "# TYPE outpost_"@ + name + " gauge\n"@)
}

proof fn lemma_still_explained(s: Seq<char>, t: Seq<char>, name: Seq<char>, help: Seq<char>)
    requires
        explained(s, name, help),
    ensures
        explained(s + t, name, help),
{
    let a = "# HELP outpost_"@ + name + " "@ + help + "\n"@;
    let b = "# TYPE outpost_"@ + name + " gauge\n"@;
    let i = choose|i: int| crate::text::occurs_at(s, a, i);
    assert((s + t).subrange(i, i + a.len()) =~= s.subrange(i, i + a.len()));
    assert(crate::text::occurs_at(s + t, a, i));
    let j = choose|j: int| crate::text::occurs_at(s, b, j);
    assert((s + t).subrange(j, j + b.len()) =~= s.subrange(j, j + b.len()));
    assert(crate::text::occurs_at(s + t, b, j));
}

proof fn lemma_now_explained(s: Seq<char>, name: Seq<char>, help: Seq<char>)
    ensures
        explained(s + gauge(name, help), name, help),
{
    lemma_gauge(name, help, s, Seq::empty());
    assert(s + gauge(name, help) + Seq::<char>::empty() =~= s + gauge(name, help));
}

/// Every figure is explained, under its own name.
#[verifier::rlimit(30)]
pub proof fn lemma_figures_are_explained()
    ensures
        explained(gauges(), "up"@, "Node online (1) or offline (0)"@),
        explained(gauges(), "cpu_percent"@, "CPU usage percent"@),
        explained(gauges(), "mem_used_bytes"@, "Memory used bytes"@),
        explained(gauges(), "mem_total_bytes"@, "Memory total bytes"@),
        explained(gauges(), "disk_used_bytes"@, "Primary disk used bytes"@),
        explained(gauges(), "disk_total_bytes"@, "Primary disk total bytes"@),
        explained(gauges(), "load1"@, "1-minute load average"@),
        explained(gauges(), "net_rx_bps"@, "Network receive bytes/sec"@),
        explained(gauges(), "net_tx_bps"@, "Network transmit bytes/sec"@),
        explained(gauges(), "uptime_seconds"@, "Uptime seconds"@),
        explained(gauges(), "procs"@, "Process count"@),
{
    let n = seq![
        ("up"@, "Node online (1) or offline (0)"@),
        ("cpu_percent"@, "CPU usage percent"@),
        ("mem_used_bytes"@, "Memory used bytes"@),
        ("mem_total_bytes"@, "Memory total bytes"@),
        ("disk_used_bytes"@, "Primary disk used bytes"@),
        ("disk_total_bytes"@, "Primary disk total bytes"@),
        ("load1"@, "1-minute load average"@),
        ("net_rx_bps"@, "Network receive bytes/sec"@),
        ("net_tx_bps"@, "Network transmit bytes/sec"@),
        ("uptime_seconds"@, "Uptime seconds"@),
        ("procs"@, "Process count"@),
    ];
    lemma_explanations(n, 11);
    reveal_with_fuel(explanations, 12);
    let g0 = gauge(n[0].0, n[0].1);
    assert(Seq::<char>::empty() + g0 =~= g0);
    assert(explanations(n, 11) == gauges());
    assert(explained(gauges(), n[0].0, n[0].1));
    assert(explained(gauges(), n[1].0, n[1].1));
    assert(explained(gauges(), n[2].0, n[2].1));
    assert(explained(gauges(), n[3].0, n[3].1));
    assert(explained(gauges(), n[4].0, n[4].1));
    assert(explained(gauges(), n[5].0, n[5].1));
    assert(explained(gauges(), n[6].0, n[6].1));
    assert(explained(gauges(), n[7].0, n[7].1));
    assert(explained(gauges(), n[8].0, n[8].1));
    assert(explained(gauges(), n[9].0, n[9].1));
    assert(explained(gauges(), n[10].0, n[10].1));
}

/// The first `k` explanations, one behind the other.
spec fn explanations(n: Seq<(Seq<char>, Seq<char>)>, k: nat) -> Seq<char>
    decreases k,
{
    if k == 0 {
        Seq::empty()
    } else {
        explanations(n, (k - 1) as nat) + gauge(n[k - 1].0, n[k - 1].1)
    }
}

proof fn lemma_explanations(n: Seq<(Seq<char>, Seq<char>)>, k: nat)
    requires
        k <= n.len(),
    ensures
        forall|i: int|
            #![trigger n[i]]
            0 <= i < k ==> explained(explanations(n, k), n[i].0, n[i].1),
    decreases k,
{
    if k > 0 {
        let x = explanations(n, (k - 1) as nat);
        lemma_explanations(n, (k - 1) as nat);
        let g = gauge(n[k - 1].0, n[k - 1].1);
        assert forall|i: int|
            #![trigger n[i]]
            0 <= i < k implies explained(explanations(n, k), n[i].0, n[i].1) by {
            if i < k - 1 {
                lemma_still_explained(x, g, n[i].0, n[i].1);
            } else {
                lemma_now_explained(x, n[i].0, n[i].1);
            }
        }
    }
}

// ---------------------------------------------------------------------------
// Tables
// ---------------------------------------------------------------------------

/// Cells with separators between them are read back as they were.
pub proof fn lemma_cells(ps: Seq<Seq<char>>, c: char)
    requires
        ps.len() > 0,
        forall|i: int| 0 <= i < ps.len() ==> !(#[trigger] ps[i]).contains(c),
    ensures
        pieces(joined(ps, c), c) == ps,
    decreases ps.len(),
{
    let w = ps.last();
    assert(!ps[ps.len() - 1].contains(c));
    assert forall|i: int| 0 <= i < w.len() implies #[trigger] w[i] != c by {
        if w[i] == c {
            assert(w.contains(c));
        }
    }
    let e = Seq::<char>::empty();
    lemma_pieces_go_on(e, w, c);
    assert(e + w =~= w);
    assert(pieces(w, c) =~= seq![w]);
    if ps.len() > 1 {
        let t = ps.drop_last();
        assert forall|i: int| 0 <= i < t.len() implies !(#[trigger] t[i]).contains(c) by {
            assert(t[i] == ps[i]);
        }
        lemma_cells(t, c);
        lemma_pieces_of_two(joined(t, c), w, c);
        assert(t + seq![w] =~= ps);
    } else {
        assert(seq![w] =~= ps);
    }
}

/// The heads of the columns of a table.
pub open spec fn columns() -> Seq<Seq<char>> {
    seq![
        "ts"@,
        "cpu_pct"@,
        "load1"@,
        "mem_used"@,
        "mem_total"@,
        "disk_used"@,
        "disk_total"@,
        "net_rx_bps"@,
        "net_tx_bps"@,
        "procs"@,
    ]
}

/// A text that can stand in a cell.
pub open spec fn in_a_cell(s: Seq<char>) -> bool {
    forall|i: int| 0 <= i < s.len() ==> #[trigger] s[i] != '\n' && s[i] != '\r' && s[i] != ','
}

/// The cell of the line `l` that stands under the head `name`.
pub open spec fn cell(l: Seq<char>, name: Seq<char>) -> Seq<char> {
    let h = pieces(lines(export_head())[0], ',');
    pieces(l, ',')[choose|k: int| 0 <= k < h.len() && #[trigger] h[k] == name]
}

proof fn lemma_columns()
    ensures
        lines(export_head()) == seq![joined(columns(), ',')],
        whole(export_head()),
        pieces(joined(columns(), ','), ',') == columns(),
        forall|i: int, k: int|
            #![trigger columns()[i], columns()[k]]
            0 <= i < 10 && 0 <= k < 10 && i != k ==> columns()[i] != columns()[k],
{
    reveal_strlit("ts");
    reveal_strlit("cpu_pct");
    reveal_strlit("load1");
    reveal_strlit("mem_used");
    reveal_strlit("mem_total");
    reveal_strlit("disk_used");
    reveal_strlit("disk_total");
    reveal_strlit("net_rx_bps");
    reveal_strlit("net_tx_bps");
    reveal_strlit("procs");
    let n = columns();
    assert(in_a_cell("ts"@) && in_a_cell("cpu_pct"@) && in_a_cell("load1"@));
    assert(in_a_cell("mem_used"@) && in_a_cell("mem_total"@));
    assert(in_a_cell("disk_used"@) && in_a_cell("disk_total"@));
    assert(in_a_cell("net_rx_bps"@) && in_a_cell("net_tx_bps"@) && in_a_cell("procs"@));
    assert forall|i: int| 0 <= i < n.len() implies !(#[trigger] n[i]).contains(',') by {
        assert(in_a_cell(n[i]));
    }
    lemma_cells(n, ',');
    lemma_joined_10(n);
    reveal_strlit(
        "ts,cpu_pct,load1,mem_used,mem_total,disk_used,disk_total,net_rx_bps,net_tx_bps,procs\n",
    );
    let j = joined(n, ',');
    assert(export_head() =~= j.push('\n'));
    let e = Seq::<char>::empty();
    assert(one_line(j)) by {
        assert forall|i: int| 0 <= i < j.len() implies #[trigger] j[i] != '\n' && j[i] != '\r' by {
            assert(export_head()[i] == j[i]);
        }
    }
    assert(pieces(e, '\n').len() == 1);
    assert(lines(e) =~= Seq::empty());
    lemma_add_line(e, j);
    assert(e + j.push('\n') =~= export_head());
    lemma_columns_differ();
}

proof fn lemma_columns_differ()
    ensures
        forall|i: int, k: int|
            #![trigger columns()[i], columns()[k]]
            0 <= i < 10 && 0 <= k < 10 && i != k ==> columns()[i] != columns()[k],
{
    reveal_strlit("ts");
    reveal_strlit("cpu_pct");
    reveal_strlit("load1");
    reveal_strlit("mem_used");
    reveal_strlit("mem_total");
    reveal_strlit("disk_used");
    reveal_strlit("disk_total");
    reveal_strlit("net_rx_bps");
    reveal_strlit("net_tx_bps");
    reveal_strlit("procs");
    let n = columns();
    assert(n[0].len() == 2 && n[1].len() == 7 && n[2].len() == 5 && n[3].len() == 8);
    assert(n[4].len() == 9 && n[5].len() == 9 && n[6].len() == 10 && n[7].len() == 10);
    assert(n[8].len() == 10 && n[9].len() == 5);
    assert(n[2][0] == 'l' && n[9][0] == 'p' && n[4][0] == 'm' && n[5][0] == 'd' && n[6][0] == 'd');
    assert(n[7][0] == 'n' && n[8][0] == 'n' && n[7][4] == 'r' && n[8][4] == 't');
    assert forall|i: int, k: int|
        #![trigger n[i], n[k]]
        0 <= i < 10 && 0 <= k < 10 && i != k implies n[i] != n[k] by {
        if n[i] == n[k] {
            assert(n[i].len() == n[k].len());
            assert(n[i][0] == n[k][0] && n[i][4] == n[k][4]);
        }
    }
}

proof fn lemma_joined_10(n: Seq<Seq<char>>)
    requires
        n.len() == 10,
    ensures
        joined(n, ',') == n[0].push(',') + n[1].push(',') + n[2].push(',') + n[3].push(',')
            + n[4].push(',') + n[5].push(',') + n[6].push(',') + n[7].push(',') + n[8].push(',')
            + n[9],
{
    reveal_with_fuel(joined, 11);
    let n9 = n.drop_last();
    let n8 = n9.drop_last();
    let n7 = n8.drop_last();
    let n6 = n7.drop_last();
    let n5 = n6.drop_last();
    let n4 = n5.drop_last();
    let n3 = n4.drop_last();
    let n2 = n3.drop_last();
    let n1 = n2.drop_last();
    assert(joined(n1, ',') == n[0]);
    assert(joined(n2, ',') =~= n[0].push(',') + n[1]);
    assert(joined(n3, ',') =~= n[0].push(',') + n[1].push(',') + n[2]);
    assert(joined(n4, ',') =~= n[0].push(',') + n[1].push(',') + n[2].push(',') + n[3]);
    assert(joined(n5, ',') =~= n[0].push(',') + n[1].push(',') + n[2].push(',') + n[3].push(',')
        + n[4]);
    assert(joined(n6, ',') =~= n[0].push(',') + n[1].push(',') + n[2].push(',') + n[3].push(',')
        + n[4].push(',') + n[5]);
    assert(joined(n7, ',') =~= n[0].push(',') + n[1].push(',') + n[2].push(',') + n[3].push(',')
        + n[4].push(',') + n[5].push(',') + n[6]);
    assert(joined(n8, ',') =~= n[0].push(',') + n[1].push(',') + n[2].push(',') + n[3].push(',')
        + n[4].push(',') + n[5].push(',') + n[6].push(',') + n[7]);
    assert(joined(n9, ',') =~= n[0].push(',') + n[1].push(',') + n[2].push(',') + n[3].push(',')
        + n[4].push(',') + n[5].push(',') + n[6].push(',') + n[7].push(',') + n[8]);
    assert(joined(n, ',') =~= n[0].push(',') + n[1].push(',') + n[2].push(',') + n[3].push(',')
        + n[4].push(',') + n[5].push(',') + n[6].push(',') + n[7].push(',') + n[8].push(',') + n[9]);
}

/// A number can stand in a cell.
pub proof fn lemma_number_in_a_cell(n: int)
    ensures
        in_a_cell(decimal_int(n)),
{
    let m: nat = if n < 0 {
        (-n) as nat
    } else {
        n as nat
    };
    lemma_decimal(m);
    let d = decimal(m);
    assert forall|i: int| 0 <= i < d.len() implies crate::text::is_digit(#[trigger] d[i]) by {}
    let s = decimal_int(n);
    assert forall|i: int| 0 <= i < s.len() implies #[trigger] s[i] != '\n' && s[i] != '\r' && s[i]
        != ',' by {
        if n < 0 {
            if i > 0 {
                assert(s[i] == d[i - 1]);
            }
        } else {
            assert(s[i] == d[i]);
        }
    }
}

spec fn cells_of(r: ExportRow) -> Seq<Seq<char>> {
    seq![
        decimal_int(r.ts as int),
        r.cpu_pct@,
        r.load1@,
        decimal_int(r.mem_used as int),
        decimal_int(r.mem_total as int),
        decimal_int(r.disk_used as int),
        decimal_int(r.disk_total as int),
        decimal_int(r.net_rx_bps as int),
        decimal_int(r.net_tx_bps as int),
        decimal_int(r.procs as int),
    ]
}

#[verifier::rlimit(40)]
proof fn lemma_line_of_a_row(r: ExportRow)
    requires
        in_a_cell(r.cpu_pct@),
        in_a_cell(r.load1@),
    ensures
        export_line(r) == joined(cells_of(r), ',').push('\n'),
        pieces(joined(cells_of(r), ','), ',') == cells_of(r),
        one_line(joined(cells_of(r), ',')),
{
    lemma_number_in_a_cell(r.ts as int);
    lemma_number_in_a_cell(r.mem_used as int);
    lemma_number_in_a_cell(r.mem_total as int);
    lemma_number_in_a_cell(r.disk_used as int);
    lemma_number_in_a_cell(r.disk_total as int);
    lemma_number_in_a_cell(r.net_rx_bps as int);
    lemma_number_in_a_cell(r.net_tx_bps as int);
    lemma_number_in_a_cell(r.procs as int);
    let n = cells_of(r);
    assert forall|i: int| 0 <= i < n.len() implies in_a_cell(#[trigger] n[i]) by {}
    assert forall|i: int| 0 <= i < n.len() implies !(#[trigger] n[i]).contains(',') by {
        assert(in_a_cell(n[i]));
    }
    lemma_cells(n, ',');
    lemma_joined_10(n);
    reveal_strlit(",");
    reveal_strlit("\n");
    let c = ","@;
    assert(c =~= seq![',']);
    let a1 = n[0] + c + n[1];
    let a2 = a1 + c + n[2];
    let a3 = a2 + c + n[3];
    let a4 = a3 + c + n[4];
    let a5 = a4 + c + n[5];
    let a6 = a5 + c + n[6];
    let a7 = a6 + c + n[7];
    let a8 = a7 + c + n[8];
    let a9 = a8 + c + n[9];
    assert(export_line(r) =~= a9 + "\n"@);
    lemma_joined_cells(n);
    assert(joined(n, ',') == a9);
    assert(export_line(r) =~= a9.push('\n'));
    lemma_joined_is_one_line(n);
}

proof fn lemma_joined_cells(n: Seq<Seq<char>>)
    requires
        n.len() == 10,
    ensures
        joined(n, ',') == n[0] + seq![','] + n[1] + seq![','] + n[2] + seq![','] + n[3] + seq![',']
            + n[4] + seq![','] + n[5] + seq![','] + n[6] + seq![','] + n[7] + seq![','] + n[8]
            + seq![','] + n[9],
{
    lemma_joined_10(n);
    assert(n[0].push(',') =~= n[0] + seq![',']);
    assert(n[1].push(',') =~= n[1] + seq![',']);
    assert(n[2].push(',') =~= n[2] + seq![',']);
    assert(n[3].push(',') =~= n[3] + seq![',']);
    assert(n[4].push(',') =~= n[4] + seq![',']);
    assert(n[5].push(',') =~= n[5] + seq![',']);
    assert(n[6].push(',') =~= n[6] + seq![',']);
    assert(n[7].push(',') =~= n[7] + seq![',']);
    assert(n[8].push(',') =~= n[8] + seq![',']);
    assert(joined(n, ',') =~= n[0] + seq![','] + n[1] + seq![','] + n[2] + seq![','] + n[3] + seq![
        ',',
    ] + n[4] + seq![','] + n[5] + seq![','] + n[6] + seq![','] + n[7] + seq![','] + n[8] + seq![
        ',',
    ] + n[9]);
}

proof fn lemma_joined_is_one_line(ps: Seq<Seq<char>>)
    requires
        forall|i: int| 0 <= i < ps.len() ==> in_a_cell(#[trigger] ps[i]),
    ensures
        one_line(joined(ps, ',')),
    decreases ps.len(),
{
    if ps.len() >= 1 {
        assert(in_a_cell(ps[ps.len() - 1]));
        assert(one_line(ps[ps.len() - 1]));
        if ps.len() > 1 {
            let t = ps.drop_last();
            assert forall|i: int| 0 <= i < t.len() implies in_a_cell(#[trigger] t[i]) by {
                assert(t[i] == ps[i]);
            }
            lemma_joined_is_one_line(t);
            lemma_one_line_of_two(joined(t, ','), seq![',']);
            assert(joined(t, ',') + seq![','] =~= joined(t, ',').push(','));
            lemma_one_line_of_two(joined(t, ',').push(','), ps.last());
        }
    }
}

proof fn lemma_cell(l: Seq<char>, ps: Seq<Seq<char>>, k: int)
    requires
        pieces(l, ',') == ps,
        ps.len() == 10,
        0 <= k < 10,
    ensures
        cell(l, columns()[k]) == ps[k],
{
    lemma_columns();
    let h = pieces(lines(export_head())[0], ',');
    assert(h == columns());
    let name = columns()[k];
    assert(h[k] == name);
    let c = choose|c: int| 0 <= c < h.len() && #[trigger] h[c] == name;
    assert(h[c] == name);
    assert(c == k);
}

/// In a table, every row has its own line, in order, behind the heads of the columns, and under each head
/// stands the field of that name.
pub proof fn lemma_table_is_read_back(rows: Seq<ExportRow>, i: int)
    requires
        0 <= i < rows.len(),
        forall|j: int|
            0 <= j < rows.len() ==> in_a_cell((#[trigger] rows[j]).cpu_pct@) && in_a_cell(
                rows[j].load1@,
            ),
    ensures
        ({
            let ls = lines(export_head() + export_lines(rows));
            let r = rows[i];
            &&& ls.len() == rows.len() + 1
            &&& cell(ls[i + 1], "ts"@) == decimal_int(r.ts as int)
            &&& cell(ls[i + 1], "cpu_pct"@) == r.cpu_pct@
            &&& cell(ls[i + 1], "load1"@) == r.load1@
            &&& cell(ls[i + 1], "mem_used"@) == decimal_int(r.mem_used as int)
            &&& cell(ls[i + 1], "mem_total"@) == decimal_int(r.mem_total as int)
            &&& cell(ls[i + 1], "disk_used"@) == decimal_int(r.disk_used as int)
            &&& cell(ls[i + 1], "disk_total"@) == decimal_int(r.disk_total as int)
            &&& cell(ls[i + 1], "net_rx_bps"@) == decimal_int(r.net_rx_bps as int)
            &&& cell(ls[i + 1], "net_tx_bps"@) == decimal_int(r.net_tx_bps as int)
            &&& cell(ls[i + 1], "procs"@) == decimal_int(r.procs as int)
        }),
{
    lemma_columns();
    lemma_lines_of_rows(rows);
    let ls = lines(export_head() + export_lines(rows));
    lemma_whole_lines_add_up(export_head(), export_lines(rows));
    let l = ls[i + 1];
    assert(l == lines(export_lines(rows))[i]);
    lemma_line_of_a_row(rows[i]);
    let ps = cells_of(rows[i]);
    assert(l == joined(ps, ','));
    let n = columns();
    assert(cell(l, n[0]) == ps[0]) by {
        lemma_cell(l, ps, 0);
    }
    assert(cell(l, n[1]) == ps[1]) by {
        lemma_cell(l, ps, 1);
    }
    assert(cell(l, n[2]) == ps[2]) by {
        lemma_cell(l, ps, 2);
    }
    assert(cell(l, n[3]) == ps[3]) by {
        lemma_cell(l, ps, 3);
    }
    assert(cell(l, n[4]) == ps[4]) by {
        lemma_cell(l, ps, 4);
    }
    assert(cell(l, n[5]) == ps[5]) by {
        lemma_cell(l, ps, 5);
    }
    assert(cell(l, n[6]) == ps[6]) by {
        lemma_cell(l, ps, 6);
    }
    assert(cell(l, n[7]) == ps[7]) by {
        lemma_cell(l, ps, 7);
    }
    assert(cell(l, n[8]) == ps[8]) by {
        lemma_cell(l, ps, 8);
    }
    assert(cell(l, n[9]) == ps[9]) by {
        lemma_cell(l, ps, 9);
    }
}

proof fn lemma_lines_of_rows(rows: Seq<ExportRow>)
    requires
        forall|j: int|
            0 <= j < rows.len() ==> in_a_cell((#[trigger] rows[j]).cpu_pct@) && in_a_cell(
                rows[j].load1@,
            ),
    ensures
        whole(export_lines(rows)),
        lines(export_lines(rows)).len() == rows.len(),
        forall|j: int|
            0 <= j < rows.len() ==> #[trigger] lines(export_lines(rows))[j] == joined(
                cells_of(rows[j]),
                ',',
            ),
    decreases rows.len(),
{
    let s = export_lines(rows);
    if rows.len() == 0 {
        assert(pieces(s, '\n').len() == 1);
        assert(lines(s) =~= Seq::empty());
    } else {
        let t = rows.drop_last();
        assert forall|j: int| 0 <= j < t.len() implies in_a_cell((#[trigger] t[j]).cpu_pct@)
            && in_a_cell(t[j].load1@) by {
            assert(t[j] == rows[j]);
        }
        lemma_lines_of_rows(t);
        let r = rows[rows.len() - 1];
        lemma_line_of_a_row(r);
        lemma_add_line(export_lines(t), joined(cells_of(r), ','));
        let ls = lines(s);
        assert(ls == lines(export_lines(t)).push(joined(cells_of(r), ',')));
        assert forall|j: int| 0 <= j < rows.len() implies #[trigger] ls[j] == joined(
            cells_of(rows[j]),
            ',',
        ) by {
            if j < t.len() {
                assert(ls[j] == lines(export_lines(t))[j]);
                assert(t[j] == rows[j]);
            }
        }
    }
}

/// A table starts as many seconds ago as was asked for, but not less than five minutes and not more than
/// ninety days.
pub proof fn lemma_table_start(secs: i64, now: i64)
    requires
        now >= 0,
    ensures
        300 <= secs <= 90 * 86_400 ==> export_start(secs, now) + secs == now,
        secs < 300 ==> export_start(secs, now) + 300 == now,
        secs > 90 * 86_400 ==> export_start(secs, now) + 90 * 86_400 == now,
{
}

// ---------------------------------------------------------------------------
// Labels
// ---------------------------------------------------------------------------

/// The label of a node tells its name and its number.
pub proof fn lemma_label_tells(r: PromRow)
    ensures
        starts_with(node_label(r), "{node=\""@ + label_text(r.name@) + "\","@),
        crate::text::ends_with(node_label(r), ",node_id=\""@ + decimal_int(r.id as int) + "\"}"@),
{
    reveal_strlit("\",node_id=\"");
    reveal_strlit(",node_id=\"");
    reveal_strlit("\",");
    let s = node_label(r);
    let a = "{node=\""@ + label_text(r.name@) + "\","@;
    let b = ",node_id=\""@ + decimal_int(r.id as int) + "\"}"@;
    assert(s.take(a.len() as int) =~= a);
    assert(s.skip(s.len() - b.len()) =~= b);
}

/// Nodes with different numbers have different labels, whatever their names.
pub proof fn lemma_labels_differ(a: PromRow, b: PromRow)
    requires
        node_label(a) == node_label(b),
    ensures
        a.id == b.id,
{
    reveal_strlit("\",node_id=\"");
    reveal_strlit("\"}");
    let (x, y) = (decimal_int(a.id as int), decimal_int(b.id as int));
    let p = "{node=\""@ + label_text(a.name@) + "\",node_id=\""@;
    let q = "{node=\""@ + label_text(b.name@) + "\",node_id=\""@;
    let s = node_label(a);
    assert(s =~= p + x + "\"}"@);
    assert(s =~= q + y + "\"}"@);
    assert(p.last() == '"' && q.last() == '"');
    lemma_number_has_no_quote(a.id as int);
    lemma_number_has_no_quote(b.id as int);
    if x.len() < y.len() {
        let k = s.len() - 3 - x.len();
        assert(s[k] == p.last());
        assert(s[k] == y[k - q.len()]);
    } else if y.len() < x.len() {
        let k = s.len() - 3 - y.len();
        assert(s[k] == q.last());
        assert(s[k] == x[k - p.len()]);
    }
    assert(p.len() == q.len());
    assert forall|i: int| 0 <= i < x.len() implies x[i] == y[i] by {
        assert(s[p.len() + i] == x[i]);
        assert(s[q.len() + i] == y[i]);
    }
    assert(x =~= y);
    lemma_numbers_differ(a.id as int, b.id as int);
}

proof fn lemma_number_has_no_quote(n: int)
    ensures
        forall|i: int| 0 <= i < decimal_int(n).len() ==> #[trigger] decimal_int(n)[i] != '"',
{
    let m: nat = if n < 0 {
        (-n) as nat
    } else {
        n as nat
    };
    lemma_decimal(m);
    let d = decimal(m);
    assert forall|i: int| 0 <= i < d.len() implies crate::text::is_digit(#[trigger] d[i]) by {}
    let s = decimal_int(n);
    assert forall|i: int| 0 <= i < s.len() implies #[trigger] s[i] != '"' by {
        if n < 0 {
            if i > 0 {
                assert(s[i] == d[i - 1]);
            }
        } else {
            assert(s[i] == d[i]);
        }
    }
}

} // verus!
