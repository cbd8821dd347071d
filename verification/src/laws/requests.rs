//! What administrators set: the service, its rules and its channels, and what is shown of them.

use crate::common::{cleaned, short_name};
use crate::json::json_quoted;
use crate::laws::dataout::{in_a_cell, one_line};
use crate::laws::notify::lemma_in_between;
use crate::measure::{exponent, fraction, lemma_rank_orders, Measure};
use crate::num::{decimal, decimal_int};
use crate::server::alerts::{
    chat_id, known_channel_kind, known_metric, known_roc_metric, known_severity,
    telegram_token,
};
use crate::server::audit::AuditEntry;
use crate::server::handlers::alerts::{
    channel_refused, masked, possible_threshold, rule_refused, silence_refused, smtp_json, smtp_port,
    target_fields, target_refused, test_refused, ChannelReq, RuleReq, SilenceReq, BITS_MILLION,
};
use crate::server::handlers::settings::{
    audit_line, audit_lines, begins_formula, cell, cell_text, filled_lines, settings_refused,
    SettingsReq,
};
use crate::server::notify_smtp::mail_address;
use crate::text::{
    before, byte_len, contains, doubled, first_index, lemma_first_index, lines, on_one_line, pieces,
    starts_with, trimmed,
};
use vstd::arithmetic::power2::pow2;
use vstd::prelude::*;
use vstd::string::*;

verus! {

// ---------------------------------------------------------------------------
// The service
// ---------------------------------------------------------------------------

/// Settings are taken exactly where each number is in its range, the address is told and secure but for a
/// local preview, and so are at most sixteen further ones.
pub proof fn lemma_accepted_settings(q: SettingsReq, dev: bool)
    ensures
        settings_refused(q, dev) is None <==> {
            let url = trimmed(q.public_url@);
            let extra = filled_lines(lines(q.extra_origins@));
            &&& 1 <= q.report_interval_secs <= 3600
            &&& 1 <= q.retention_days <= 3650
            &&& 0 <= q.auto_backup_hours <= 7 * 24
            &&& 1 <= q.auto_backup_keep <= 90
            &&& url.len() > 0 && byte_len(url) <= 200
            &&& starts_with(url, "https://"@) || (dev && starts_with(url, "http://"@))
            &&& extra.len() <= 16
            &&& forall|i: int|
                0 <= i < extra.len() ==> byte_len(#[trigger] extra[i]) <= 200 && (starts_with(
                    extra[i],
                    "https://"@,
                ) || (dev && starts_with(extra[i], "http://"@)))
        },
{
}

/// Of lines, those count that hold more than white space, without the white space at their ends, in their
/// order.
pub proof fn lemma_lines_that_count(ls: Seq<Seq<char>>)
    ensures
        filled_lines(ls) == ls.map_values(|l: Seq<char>| trimmed(l)).filter(
            |l: Seq<char>| l.len() > 0,
        ),
    decreases ls.len(),
{
    reveal(Seq::filter);
    let m = ls.map_values(|l: Seq<char>| trimmed(l));
    if ls.len() > 0 {
        lemma_lines_that_count(ls.drop_last());
        assert(m.drop_last() =~= ls.drop_last().map_values(|l: Seq<char>| trimmed(l)));
        assert(m.last() == trimmed(ls.last()));
    } else {
        assert(m =~= Seq::empty());
    }
}

// ---------------------------------------------------------------------------
// Tables for people
// ---------------------------------------------------------------------------

/// A text that needs no care in a table.
pub open spec fn plain(s: Seq<char>) -> bool {
    in_a_cell(s) && !s.contains('"') && (s.len() > 0 ==> !begins_formula(s[0]))
}

proof fn lemma_already_one_line(s: Seq<char>)
    requires
        one_line(s),
    ensures
        on_one_line(s) == s,
    decreases s.len(),
{
    if s.len() > 0 {
        let t = s.drop_last();
        assert forall|i: int| 0 <= i < t.len() implies #[trigger] t[i] != '\n' && t[i] != '\r' by {
            assert(t[i] == s[i]);
        }
        lemma_already_one_line(t);
        assert(s[s.len() - 1] != '\n' && s[s.len() - 1] != '\r');
        assert(t.push(s.last()) =~= s);
    } else {
        assert(on_one_line(s) =~= s);
    }
}

/// A plain text stands in its cell as it is. One that a program would compute with is put behind a mark,
/// and one with a comma or a quotation mark between quotation marks.
pub proof fn lemma_cells(s: Seq<char>)
    requires
        one_line(s),
    ensures
        plain(s) ==> cell(s) == s,
        s.len() > 0 && begins_formula(s[0]) ==> cell_text(s) == seq!['\''] + s,
        s.len() > 0 && !begins_formula(s[0]) && (s.contains(',') || s.contains('"')) ==> cell(s)
            == seq!['"'] + doubled(s, '"') + seq!['"'],
{
    lemma_already_one_line(s);
    if plain(s) && s.contains(',') {
        let i = choose|i: int| 0 <= i < s.len() && s[i] == ',';
        assert(s[i] != ',');
    }
}

/// An entry of the record stands on one line: when, again when, who, from where, what, and the details.
pub proof fn lemma_entry_is_read_back(e: AuditEntry)
    requires
        plain(e.username@),
        plain(e.ip@),
        plain(e.action@),
        plain(e.detail@),
    ensures
        audit_line(e).last() == '\n',
        pieces(audit_line(e).drop_last(), ',') == seq![
            decimal_int(e.ts as int),
            decimal_int(e.ts as int),
            e.username@,
            e.ip@,
            e.action@,
            e.detail@,
        ],
{
    lemma_cells(e.username@);
    lemma_cells(e.ip@);
    lemma_cells(e.action@);
    lemma_cells(e.detail@);
    crate::laws::dataout::lemma_number_in_a_cell(e.ts as int);
    reveal_strlit(",");
    reveal_strlit("\n");
    let t = decimal_int(e.ts as int);
    let (u, i, a, d) = (e.username@, e.ip@, e.action@, e.detail@);
    let w = seq![t, t, u, i, a, d];
    assert forall|k: int| 0 <= k < w.len() implies !(#[trigger] w[k]).contains(',') by {
        assert(in_a_cell(w[k]));
    }
    crate::laws::dataout::lemma_cells(w, ',');
    lemma_joined_6(w);
    let j = crate::text::joined(w, ',');
    assert(","@ =~= seq![',']);
    lemma_line(t, t, u, i, a, d);
    assert(audit_line(e).last() == '\n');
    assert(audit_line(e).drop_last() == j);
}

proof fn lemma_joined_6(n: Seq<Seq<char>>)
    requires
        n.len() == 6,
    ensures
        crate::text::joined(n, ',') == n[0] + seq![','] + n[1] + seq![','] + n[2] + seq![','] + n[3]
            + seq![','] + n[4] + seq![','] + n[5],
{
    reveal_with_fuel(crate::text::joined, 7);
    let n5 = n.drop_last();
    let n4 = n5.drop_last();
    let n3 = n4.drop_last();
    let n2 = n3.drop_last();
    let n1 = n2.drop_last();
    let c = seq![','];
    assert(crate::text::joined(n1, ',') == n[0]);
    assert(crate::text::joined(n2, ',') =~= n[0] + c + n[1]);
    assert(crate::text::joined(n3, ',') =~= n[0] + c + n[1] + c + n[2]);
    assert(crate::text::joined(n4, ',') =~= n[0] + c + n[1] + c + n[2] + c + n[3]);
    assert(crate::text::joined(n5, ',') =~= n[0] + c + n[1] + c + n[2] + c + n[3] + c + n[4]);
    assert(crate::text::joined(n, ',') =~= n[0] + c + n[1] + c + n[2] + c + n[3] + c + n[4] + c + n[5]);
}

proof fn lemma_line(
    a: Seq<char>,
    b: Seq<char>,
    c: Seq<char>,
    d: Seq<char>,
    e: Seq<char>,
    f: Seq<char>,
)
    ensures
        ({
            let s = a + seq![','] + b + seq![','] + c + seq![','] + d + seq![','] + e + seq![','] + f;
            &&& (s + "\n"@).last() == '\n'
            &&& (s + "\n"@).drop_last() == s
        }),
{
    reveal_strlit("\n");
    let s = a + seq![','] + b + seq![','] + c + seq![','] + d + seq![','] + e + seq![','] + f;
    assert((s + "\n"@).drop_last() =~= s);
}

/// Entries stand one below the other, in their order.
pub proof fn lemma_entries_one_by_one(v: Seq<AuditEntry>, e: AuditEntry)
    ensures
        audit_lines(v.push(e)) == audit_lines(v) + audit_line(e),
        audit_lines(Seq::empty()) == Seq::<char>::empty(),
{
    assert(v.push(e).drop_last() =~= v);
}

// ---------------------------------------------------------------------------
// Rules and channels
// ---------------------------------------------------------------------------

proof fn lemma_million()
    ensures
        (Measure { bits: BITS_MILLION }).finite(),
        (Measure { bits: BITS_MILLION }).scaled() == 1_000_000 * pow2(1074),
{
    vstd::arithmetic::power2::lemma2_to64_rest();
    vstd::arithmetic::power2::lemma_pow2_adds(1041, 33);
    assert(exponent(BITS_MILLION) == 1042 && fraction(BITS_MILLION) == 0xe_8480_0000_0000);
    assert(0x1e_8480_0000_0000 * pow2(1041) == 1_000_000 * (pow2(1041) * 0x2_0000_0000))
        by (nonlinear_arith);
}

/// A threshold is a number from 0 to a million.
pub proof fn lemma_thresholds(t: Measure)
    requires
        t.finite(),
    ensures
        possible_threshold(t) <==> 0 <= t.scaled() <= 1_000_000 * pow2(1074),
{
    lemma_million();
    let (zero, most) = (Measure { bits: 0 }, Measure { bits: BITS_MILLION });
    assert(zero.scaled() == 0);
    lemma_rank_orders(zero, t);
    lemma_rank_orders(t, zero);
    lemma_rank_orders(t, most);
    lemma_rank_orders(most, t);
}

/// A rule is taken exactly where it has a name, watches one of the metrics in one of the ways, with a
/// possible threshold, a patience of at most a day and a severity; one of change only of what has a past,
/// over half a minute to a day, with a threshold above 0.
pub proof fn lemma_accepted_rules(q: RuleReq)
    ensures
        rule_refused(q) is None <==> {
            &&& short_name(cleaned(q.name@, 64))
            &&& known_metric(q.metric@)
            &&& q.comparator@ == "gt"@ || q.comparator@ == "lt"@ || q.comparator@ == "gte"@
                || q.comparator@ == "lte"@ || q.comparator@ == "roc"@
            &&& possible_threshold(q.threshold)
            &&& 0 <= q.duration_secs <= 86_400
            &&& q.severity@ == "info"@ || q.severity@ == "warning"@ || q.severity@ == "critical"@
            &&& q.comparator@ == "roc"@ ==> {
                &&& known_roc_metric(q.metric@)
                &&& 30 <= q.roc_window_secs <= 86_400
                &&& q.threshold.scaled() > 0
            }
        },
{
    lemma_million();
    let zero = Measure { bits: 0 };
    assert(zero.scaled() == 0);
    if q.threshold.finite() {
        lemma_rank_orders(zero, q.threshold);
    }
}

/// What can be watched: shares of the processors, memory, swap, disks and inodes, the load, the
/// temperature, connections, services that are down, and whether a node is there. The past is known of
/// the first four and the load.
pub proof fn lemma_what_can_be_watched(m: Seq<char>)
    ensures
        known_metric(m) <==> seq![
            "cpu_pct"@,
            "mem_pct"@,
            "swap_pct"@,
            "disk_pct"@,
            "load1"@,
            "inode_pct"@,
            "cpu_temp"@,
            "tcp_conns"@,
            "services_down"@,
            "offline"@,
        ].contains(m),
        known_roc_metric(m) <==> seq![
            "cpu_pct"@,
            "mem_pct"@,
            "swap_pct"@,
            "disk_pct"@,
            "load1"@,
        ].contains(m),
{
    let a = seq![
        "cpu_pct"@,
        "mem_pct"@,
        "swap_pct"@,
        "disk_pct"@,
        "load1"@,
        "inode_pct"@,
        "cpu_temp"@,
        "tcp_conns"@,
        "services_down"@,
        "offline"@,
    ];
    let b = seq!["cpu_pct"@, "mem_pct"@, "swap_pct"@, "disk_pct"@, "load1"@];
    assert(a[0] == "cpu_pct"@ && a[1] == "mem_pct"@ && a[2] == "swap_pct"@ && a[3] == "disk_pct"@);
    assert(a[4] == "load1"@ && a[5] == "inode_pct"@ && a[6] == "cpu_temp"@ && a[7] == "tcp_conns"@);
    assert(a[8] == "services_down"@ && a[9] == "offline"@);
    assert(b[0] == "cpu_pct"@ && b[1] == "mem_pct"@ && b[2] == "swap_pct"@ && b[3] == "disk_pct"@);
    assert(b[4] == "load1"@);
}

/// A channel is taken exactly where it has a name, a severity and a target of its kind.
pub proof fn lemma_accepted_channels(q: ChannelReq)
    ensures
        channel_refused(q) is None <==> {
            &&& short_name(cleaned(q.name@, 64))
            &&& known_severity(q.min_severity@)
            &&& target_refused(q) is None
        },
        q.kind@ == "webhook"@ || q.kind@ == "bark"@ ==> (target_refused(q) is None <==> starts_with(
            trimmed(q.url@),
            "https://"@,
        ) && byte_len(trimmed(q.url@)) <= 2048),
        q.kind@ == "telegram"@ ==> (target_refused(q) is None <==> telegram_token(trimmed(q.url@))
            && chat_id(trimmed(q.target@))),
        q.kind@ == "smtp"@ ==> (target_refused(q) is None <==> {
            &&& 0 < trimmed(q.smtp_host@).len() && byte_len(trimmed(q.smtp_host@)) <= 255
            &&& mail_address(q.smtp_from@) && mail_address(q.smtp_to@)
            &&& 0 < q.smtp_user@.len() && byte_len(q.smtp_user@) <= 320
            &&& 0 < q.smtp_pass@.len() && byte_len(q.smtp_pass@) <= 256
        }),
        !known_channel_kind(q.kind@) ==> target_refused(q) is Some,
{
    lemma_kinds();
}

proof fn lemma_kinds()
    ensures
        "webhook"@ != "telegram"@,
        "webhook"@ != "smtp"@,
        "bark"@ != "telegram"@,
        "bark"@ != "smtp"@,
        "telegram"@ != "smtp"@,
        "webhook"@ != "bark"@,
{
    reveal_strlit("webhook");
    reveal_strlit("telegram");
    reveal_strlit("bark");
    reveal_strlit("smtp");
    assert("webhook"@.len() == 7 && "telegram"@.len() == 8 && "bark"@.len() == 4);
    assert("smtp"@.len() == 4 && "bark"@[0] == 'b' && "smtp"@[0] == 's');
}

/// What is kept of a channel is its address; of a bot also the chat; of a mail server each of its parts
/// under its own name, with 465 for the port where none is told.
#[verifier::rlimit(40)]
pub proof fn lemma_what_is_kept_of_a_channel(q: ChannelReq)
    ensures
        q.kind@ == "webhook"@ || q.kind@ == "bark"@ ==> target_fields(q).0 == trimmed(q.url@),
        q.kind@ == "telegram"@ ==> target_fields(q) == (trimmed(q.url@), trimmed(q.target@)),
        q.kind@ == "smtp"@ ==> {
            let (u, x) = target_fields(q);
            &&& u == trimmed(q.smtp_host@)
            &&& contains(x, "\"from\":"@ + json_quoted(trimmed(q.smtp_from@)) + ","@)
            &&& contains(x, "\"host\":"@ + json_quoted(trimmed(q.smtp_host@)) + ","@)
            &&& contains(x, "\"password\":"@ + json_quoted(q.smtp_pass@) + ","@)
            &&& contains(x, "\"to\":"@ + json_quoted(trimmed(q.smtp_to@)) + ","@)
            &&& contains(x, "\"username\":"@ + json_quoted(q.smtp_user@) + "}"@)
            &&& q.smtp_port matches Some(p) ==> contains(x, "\"port\":"@ + decimal(p as nat) + ","@)
            &&& q.smtp_port is None ==> contains(x, "\"port\":"@ + decimal(465) + ","@)
        },
{
    lemma_kinds();
    let x = smtp_json(q);
    let f = json_quoted(trimmed(q.smtp_from@));
    let h = json_quoted(trimmed(q.smtp_host@));
    let p = json_quoted(q.smtp_pass@);
    let n = decimal(smtp_port(q) as nat);
    let t = json_quoted(trimmed(q.smtp_to@));
    let u = json_quoted(q.smtp_user@);
    reveal_strlit("{\"from\":");
    reveal_strlit("{");
    reveal_strlit("\"from\":");
    reveal_strlit(",\"host\":");
    reveal_strlit("\"host\":");
    reveal_strlit(",\"password\":");
    reveal_strlit("\"password\":");
    reveal_strlit(",\"port\":");
    reveal_strlit("\"port\":");
    reveal_strlit(",\"to\":");
    reveal_strlit("\"to\":");
    reveal_strlit(",\"username\":");
    reveal_strlit("\"username\":");
    reveal_strlit(",");
    let c = ","@;
    assert("{\"from\":"@ =~= "{"@ + "\"from\":"@);
    assert(",\"host\":"@ =~= c + "\"host\":"@);
    assert(",\"password\":"@ =~= c + "\"password\":"@);
    assert(",\"port\":"@ =~= c + "\"port\":"@);
    assert(",\"to\":"@ =~= c + "\"to\":"@);
    assert(",\"username\":"@ =~= c + "\"username\":"@);
    let b = "{"@;
    let p1 = "\"from\":"@ + f + c;
    let p2 = "\"host\":"@ + h + c;
    let p3 = "\"password\":"@ + p + c;
    let p4 = "\"port\":"@ + n + c;
    let p5 = "\"to\":"@ + t + c;
    let p6 = "\"username\":"@ + u + "}"@;
    let e = Seq::<char>::empty();
    assert(x =~= b + p1 + p2 + p3 + p4 + p5 + p6);
    lemma_in_between(b, p1, p2 + p3 + p4 + p5 + p6);
    assert(b + p1 + (p2 + p3 + p4 + p5 + p6) =~= x);
    lemma_in_between(b + p1, p2, p3 + p4 + p5 + p6);
    assert(b + p1 + p2 + (p3 + p4 + p5 + p6) =~= x);
    lemma_in_between(b + p1 + p2, p3, p4 + p5 + p6);
    assert(b + p1 + p2 + p3 + (p4 + p5 + p6) =~= x);
    lemma_in_between(b + p1 + p2 + p3, p4, p5 + p6);
    assert(b + p1 + p2 + p3 + p4 + (p5 + p6) =~= x);
    lemma_in_between(b + p1 + p2 + p3 + p4, p5, p6);
    lemma_in_between(b + p1 + p2 + p3 + p4 + p5, p6, e);
    assert(b + p1 + p2 + p3 + p4 + p5 + p6 + e =~= x);
}

/// Of the target of a channel is shown where it is, but not what opens it: the host of an address without
/// its path, the number of a bot without its key, the server and the receiver of mails.
pub proof fn lemma_what_is_shown_of_a_channel(
    host: Seq<char>,
    path: Seq<char>,
    id: Seq<char>,
    key: Seq<char>,
    extra: Seq<char>,
    to: Seq<char>,
)
    requires
        host.len() > 0,
        !host.contains('/'),
        !id.contains(':'),
    ensures
        masked("webhook"@, "https://"@ + host + seq!['/'] + path, extra, to) == "https://"@ + host
            + "/***"@,
        masked("bark"@, "https://"@ + host + seq!['/'] + path, extra, to) == "https://"@ + host
            + "/***"@,
        starts_with(
            masked("telegram"@, id + seq![':'] + key, extra, to),
            "Telegram bot "@ + id + "···"@,
        ),
        contains(masked("telegram"@, id + seq![':'] + key, extra, to), extra),
        contains(masked("smtp"@, host, extra, to), host),
        contains(masked("smtp"@, host, extra, to), to),
{
    lemma_kinds();
    let p = "https://"@;
    let url = p + host + seq!['/'] + path;
    assert(url.take(p.len() as int) =~= p);
    let r = url.skip(p.len() as int);
    assert(r =~= host + seq!['/'] + path);
    lemma_first_index(r, '/');
    assert(r[host.len() as int] == '/');
    assert(first_index(r, '/') == host.len()) by {
        let k = first_index(r, '/');
        if k < host.len() {
            assert(host[k] == r[k]);
        }
    }
    assert(before(r, '/') =~= host);
    let t = id + seq![':'] + key;
    lemma_first_index(t, ':');
    assert(t[id.len() as int] == ':');
    assert(first_index(t, ':') == id.len()) by {
        let k = first_index(t, ':');
        if k < id.len() {
            assert(id[k] == t[k]);
        }
    }
    assert(before(t, ':') =~= id);
    reveal_strlit("··· → ");
    reveal_strlit("···");
    let m = masked("telegram"@, t, extra, to);
    let h = "Telegram bot "@ + id + "···"@;
    assert(m.take(h.len() as int) =~= h);
    let e = Seq::<char>::empty();
    lemma_in_between("Telegram bot "@ + id + "··· → "@, extra, e);
    assert("Telegram bot "@ + id + "··· → "@ + extra + e =~= m);
    let s = masked("smtp"@, host, extra, to);
    lemma_in_between("SMTP "@, host, " → "@ + to);
    assert("SMTP "@ + host + (" → "@ + to) =~= s);
    lemma_in_between("SMTP "@ + host + " → "@, to, e);
    assert("SMTP "@ + host + " → "@ + to + e =~= s);
}

/// A message sent as a test has arrived where the answer's status is from 200 to 299. A silence needs the
/// node and the rule that it names, and room among two hundred.
pub proof fn lemma_tests_and_silences(code: u16, q: SilenceReq, nodes: i64, rules: i64, silences: i64)
    ensures
        test_refused(Ok(code)) is None <==> 200 <= code <= 299,
        silence_refused(q, nodes, rules, silences) is None <==> (q.node_id is Some ==> nodes != 0) && (
        q.rule_id is Some ==> rules != 0) && silences < 200,
{
}

/// A text that begins with a sign of a formula, or with a tabulator, is one that a program would compute
/// with; no other is. A name that can be shown has one to sixty-four characters, and no control character.
pub proof fn lemma_signs_and_names(c: char, s: Seq<char>)
    ensures
        begins_formula(c) <==> seq!['=', '+', '-', '@', '\t'].contains(c),
        short_name(s) <==> 1 <= s.len() <= 64 && forall|i: int|
            0 <= i < s.len() ==> !crate::text::is_control(#[trigger] s[i]),
{
    let f = seq!['=', '+', '-', '@', '\t'];
    assert(f[0] == '=' && f[1] == '+' && f[2] == '-' && f[3] == '@' && f[4] == '\t');
}

} // verus!
