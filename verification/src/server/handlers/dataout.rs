//! Data for others: the latest figures for Prometheus, and histories as tables.

use crate::num::{clamp_i64, clamped_i64, decimal_int, nearest_i64, sat_sub, show_i64};
use crate::server::errors::{refusal, AppError, ErrorView};
use crate::server::handlers::nodes::{is_online, online};
use crate::text::{chars_of, is_control, same};
use vstd::prelude::*;
use vstd::string::*;

verus! {

/// Which history is asked for.
#[derive(Debug)]
pub struct ExportQuery {
    /// How far back it goes, in seconds.
    pub secs: i64,
    /// `csv` or `json`.
    pub format: String,
}

/// The form of a history where a request does not say.
pub fn default_fmt() -> (r: String)
    ensures
        r@ == "csv"@,
{
    "csv".to_string()
}

// ---------------------------------------------------------------------------
// Prometheus
// ---------------------------------------------------------------------------

/// How a character stands in a label: a backslash, a quotation mark and a line feed behind a
/// backslash; other control characters not at all.
pub open spec fn label_escape(c: char) -> Seq<char> {
    if c == '\\' {
        seq!['\\', '\\']
    } else if c == '"' {
        seq!['\\', '"']
    } else if c == '\n' {
        seq!['\\', 'n']
    } else if is_control(c) {
        Seq::empty()
    } else {
        seq![c]
    }
}

/// A text as it stands in a label.
pub open spec fn label_text(s: Seq<char>) -> Seq<char>
    decreases s.len(),
{
    if s.len() == 0 {
        Seq::empty()
    } else {
        label_text(s.drop_last()) + label_escape(s.last())
    }
}

/// A text as it stands in a label.
pub fn esc_label(s: &str) -> (r: String)
    ensures
        r@ == label_text(s@),
{
    let v = chars_of(s);
    let mut out = String::new();
    let mut i: usize = 0;
    assert(v@.take(0) =~= Seq::empty());
    while i < v.len()
        invariant
            v@ == s@,
            i <= v@.len(),
            out@ == label_text(v@.take(i as int)),
        decreases v@.len() - i,
    {
        assert(v@.take(i + 1).drop_last() =~= v@.take(i as int));
        let c = v[i];
        if c == '\\' {
            out.push('\\');
            out.push('\\');
        } else if c == '"' {
            out.push('\\');
            out.push('"');
        } else if c == '\n' {
            out.push('\\');
            out.push('n');
        } else if !is_control(c) {
            out.push(c);
        }
        assert(out@ =~= label_text(v@.take(i as int)) + label_escape(c));
        i = i + 1;
    }
    assert(v@.take(i as int) =~= v@);
    out
}

/// The end of a label is found: reading from the left, a quotation mark that no backslash escapes.
pub open spec fn open_after(s: Seq<char>) -> Option<bool>
    decreases s.len(),
{
    if s.len() == 0 {
        Some(false)
    } else {
        match open_after(s.drop_last()) {
            None => None,
            Some(true) => Some(false),
            Some(false) => if s.last() == '\\' {
                Some(true)
            } else if s.last() == '"' {
                None
            } else {
                Some(false)
            },
        }
    }
}

proof fn lemma_open_after(s: Seq<char>, t: Seq<char>)
    requires
        open_after(s) == Some(false),
        t.len() <= 2,
        t.len() == 1 ==> t[0] != '\\' && t[0] != '"',
        t.len() == 2 ==> t[0] == '\\',
    ensures
        open_after(s + t) == Some(false),
{
    if t.len() == 0 {
        assert(s + t =~= s);
    } else if t.len() == 1 {
        assert((s + t).drop_last() =~= s);
    } else {
        assert((s + t).drop_last() =~= s.push('\\'));
        assert(s.push('\\').drop_last() =~= s);
        assert(open_after(s.push('\\')) == Some(true));
    }
}

/// Whatever the name of a node holds, its label ends where it should and stays on its line: no
/// quotation mark in it ends the label, no line feed ends the line, and no backslash at its end
/// hides the quotation mark behind it.
pub proof fn lemma_label_is_closed(s: Seq<char>)
    ensures
        open_after(label_text(s)) == Some(false),
        forall|i: int| 0 <= i < label_text(s).len() ==> !is_control(#[trigger] label_text(s)[i]),
    decreases s.len(),
{
    if s.len() > 0 {
        let a = label_text(s.drop_last());
        lemma_label_is_closed(s.drop_last());
        lemma_open_after(a, label_escape(s.last()));
        assert forall|i: int| 0 <= i < label_text(s).len() implies !is_control(
            #[trigger] label_text(s)[i],
        ) by {
            if i < a.len() {
                assert(label_text(s)[i] == a[i]);
            }
        }
    }
}

/// The latest figures of a node. Measures are texts, as they are shown.
#[derive(Debug)]
pub struct PromRow {
    pub id: i64,
    pub name: String,
    pub last_seen: Option<i64>,
    /// The use of the processor; a node without any report has none.
    pub cpu: Option<String>,
    pub load1: String,
    pub mem_used: i64,
    pub mem_total: i64,
    pub disk_used: i64,
    pub disk_total: i64,
    pub net_rx_bps: i64,
    pub net_tx_bps: i64,
    pub uptime_secs: i64,
    pub procs: i64,
}

/// The explanation of a figure.
pub open spec fn gauge(name: Seq<char>, help: Seq<char>) -> Seq<char> {
    "# HELP outpost_"@ + name + " "@ + help + "\n# TYPE outpost_"@ + name + " gauge\n"@
}

/// The explanations of all figures.
pub open spec fn gauges() -> Seq<char> {
    gauge("up"@, "Node online (1) or offline (0)"@) + gauge("cpu_percent"@, "CPU usage percent"@)
        + gauge("mem_used_bytes"@, "Memory used bytes"@) + gauge(
        "mem_total_bytes"@,
        "Memory total bytes"@,
    ) + gauge("disk_used_bytes"@, "Primary disk used bytes"@) + gauge(
        "disk_total_bytes"@,
        "Primary disk total bytes"@,
    ) + gauge("load1"@, "1-minute load average"@) + gauge(
        "net_rx_bps"@,
        "Network receive bytes/sec"@,
    ) + gauge("net_tx_bps"@, "Network transmit bytes/sec"@) + gauge(
        "uptime_seconds"@,
        "Uptime seconds"@,
    ) + gauge("procs"@, "Process count"@)
}

/// The label of a node.
pub open spec fn node_label(r: PromRow) -> Seq<char> {
    "{node=\""@ + label_text(r.name@) + "\",node_id=\""@ + decimal_int(r.id as int) + "\"}"@
}

/// One figure of a node.
pub open spec fn figure(name: Seq<char>, label: Seq<char>, value: Seq<char>) -> Seq<char> {
    "outpost_"@ + name + label + " "@ + value + "\n"@
}

/// The figures of a node. One without any report has only the first.
pub open spec fn node_figures(r: PromRow, interval: i64, now: i64) -> Seq<char> {
    let l = node_label(r);
    figure(
        "up"@,
        l,
        if online(r.last_seen, interval, now) {
            "1"@
        } else {
            "0"@
        },
    ) + match r.cpu {
        Some(cpu) => figure("cpu_percent"@, l, cpu@) + figure(
            "mem_used_bytes"@,
            l,
            decimal_int(r.mem_used as int),
        ) + figure("mem_total_bytes"@, l, decimal_int(r.mem_total as int)) + figure(
            "disk_used_bytes"@,
            l,
            decimal_int(r.disk_used as int),
        ) + figure("disk_total_bytes"@, l, decimal_int(r.disk_total as int)) + figure(
            "load1"@,
            l,
            r.load1@,
        ) + figure("net_rx_bps"@, l, decimal_int(r.net_rx_bps as int)) + figure(
            "net_tx_bps"@,
            l,
            decimal_int(r.net_tx_bps as int),
        ) + figure("uptime_seconds"@, l, decimal_int(r.uptime_secs as int)) + figure(
            "procs"@,
            l,
            decimal_int(r.procs as int),
        ),
        None => Seq::empty(),
    }
}

/// The figures of all nodes.
pub open spec fn all_figures(rows: Seq<PromRow>, interval: i64, now: i64) -> Seq<char>
    decreases rows.len(),
{
    if rows.len() == 0 {
        Seq::empty()
    } else {
        all_figures(rows.drop_last(), interval, now) + node_figures(rows.last(), interval, now)
    }
}

fn add_gauge(b: &mut String, name: &str, help: &str)
    ensures
        final(b)@ == old(b)@ + gauge(name@, help@),
{
    let ghost before = b@;
    b.append("# HELP outpost_");
    b.append(name);
    b.append(" ");
    b.append(help);
    b.append("\n# TYPE outpost_");
    b.append(name);
    b.append(" gauge\n");
    assert(b@ =~= before + gauge(name@, help@));
}

fn add_figure(b: &mut String, name: &str, label: &str, value: &str)
    ensures
        final(b)@ == old(b)@ + figure(name@, label@, value@),
{
    let ghost before = b@;
    b.append("outpost_");
    b.append(name);
    b.append(label);
    b.append(" ");
    b.append(value);
    b.append("\n");
    assert(b@ =~= before + figure(name@, label@, value@));
}

fn add_number(b: &mut String, name: &str, label: &str, value: i64)
    ensures
        final(b)@ == old(b)@ + figure(name@, label@, decimal_int(value as int)),
{
    let v = show_i64(value);
    add_figure(b, name, label, v.as_str());
}

fn label_of(r: &PromRow) -> (l: String)
    ensures
        l@ == node_label(*r),
{
    let mut l = "{node=\"".to_string();
    l.append(esc_label(r.name.as_str()).as_str());
    l.append("\",node_id=\"");
    l.append(show_i64(r.id).as_str());
    l.append("\"}");
    l
}

fn figure_text(name: &str, label: &str, value: &str) -> (b: String)
    ensures
        b@ == figure(name@, label@, value@),
{
    let mut b = "outpost_".to_string();
    b.append(name);
    b.append(label);
    b.append(" ");
    b.append(value);
    b.append("\n");
    b
}

fn node_text(r: &PromRow, interval: i64, now: i64) -> (b: String)
    ensures
        b@ == node_figures(*r, interval, now),
{
    let l = label_of(r);
    let up = if is_online(r.last_seen, interval, now) {
        "1"
    } else {
        "0"
    };
    let mut b = figure_text("up", l.as_str(), up);
    match &r.cpu {
        Some(cpu) => {
            let mut x = figure_text("cpu_percent", l.as_str(), cpu.as_str());
            add_number(&mut x, "mem_used_bytes", l.as_str(), r.mem_used);
            add_number(&mut x, "mem_total_bytes", l.as_str(), r.mem_total);
            add_number(&mut x, "disk_used_bytes", l.as_str(), r.disk_used);
            add_number(&mut x, "disk_total_bytes", l.as_str(), r.disk_total);
            add_figure(&mut x, "load1", l.as_str(), r.load1.as_str());
            add_number(&mut x, "net_rx_bps", l.as_str(), r.net_rx_bps);
            add_number(&mut x, "net_tx_bps", l.as_str(), r.net_tx_bps);
            add_number(&mut x, "uptime_seconds", l.as_str(), r.uptime_secs);
            add_number(&mut x, "procs", l.as_str(), r.procs);
            b.append(x.as_str());
        },
        None => {
            assert(b@ + Seq::<char>::empty() =~= b@);
        },
    }
    b
}

/// The latest figures of all nodes, in the text form of Prometheus.
pub fn prometheus(rows: &[PromRow], interval: i64, now: i64) -> (r: String)
    ensures
        r@ == gauges() + all_figures(rows@, interval, now),
{
    let mut b = String::new();
    add_gauge(&mut b, "up", "Node online (1) or offline (0)");
    add_gauge(&mut b, "cpu_percent", "CPU usage percent");
    add_gauge(&mut b, "mem_used_bytes", "Memory used bytes");
    add_gauge(&mut b, "mem_total_bytes", "Memory total bytes");
    add_gauge(&mut b, "disk_used_bytes", "Primary disk used bytes");
    add_gauge(&mut b, "disk_total_bytes", "Primary disk total bytes");
    add_gauge(&mut b, "load1", "1-minute load average");
    add_gauge(&mut b, "net_rx_bps", "Network receive bytes/sec");
    add_gauge(&mut b, "net_tx_bps", "Network transmit bytes/sec");
    add_gauge(&mut b, "uptime_seconds", "Uptime seconds");
    add_gauge(&mut b, "procs", "Process count");
    assert(b@ =~= gauges());
    let mut i: usize = 0;
    assert(rows@.take(0) =~= Seq::empty());
    assert(b@ =~= gauges() + all_figures(rows@.take(0), interval, now));
    while i < rows.len()
        invariant
            i <= rows@.len(),
            b@ == gauges() + all_figures(rows@.take(i as int), interval, now),
        decreases rows@.len() - i,
    {
        assert(rows@.take(i + 1).drop_last() =~= rows@.take(i as int));
        let t = node_text(&rows[i], interval, now);
        let ghost done = all_figures(rows@.take(i as int), interval, now);
        b.append(t.as_str());
        assert(gauges() + done + t@ =~= gauges() + (done + t@));
        i = i + 1;
    }
    assert(rows@.take(i as int) =~= rows@);
    b
}

// ---------------------------------------------------------------------------
// Histories
// ---------------------------------------------------------------------------

/// From when on a history is exported: between five minutes and ninety days back.
pub open spec fn export_start(secs: i64, now: i64) -> i64 {
    nearest_i64(now - clamped_i64(secs, 300, 7_776_000))
}

/// From when on a history is exported, and whether as JSON; any other form is a table.
pub fn export(q: &ExportQuery, now: i64) -> (r: (i64, bool))
    ensures
        r.0 == export_start(q.secs, now),
        r.1 == (q.format@ == "json"@),
{
    let s: i64 = clamp_i64(q.secs, 300, 7_776_000);
    (sat_sub(now, s), same(q.format.as_str(), "json"))
}

/// A node without figures: it is not found where it does not exist, and exported empty where it does.
pub fn exportable(rows: usize, nodes: i64) -> (r: Result<(), AppError>)
    ensures
        refusal(r) == if rows == 0 && nodes == 0 {
            Some(ErrorView::NotFound)
        } else {
            None::<ErrorView>
        },
{
    if rows == 0 && nodes == 0 {
        Err(AppError::NotFound)
    } else {
        Ok(())
    }
}

/// One line of a history. Measures are texts, with two decimals.
#[derive(Debug)]
pub struct ExportRow {
    pub ts: i64,
    pub cpu_pct: String,
    pub load1: String,
    pub mem_used: i64,
    pub mem_total: i64,
    pub disk_used: i64,
    pub disk_total: i64,
    pub net_rx_bps: i64,
    pub net_tx_bps: i64,
    pub procs: i64,
}

/// One line of a history as a table.
pub open spec fn export_line(r: ExportRow) -> Seq<char> {
    decimal_int(r.ts as int) + ","@ + r.cpu_pct@ + ","@ + r.load1@ + ","@ + decimal_int(
        r.mem_used as int,
    ) + ","@ + decimal_int(r.mem_total as int) + ","@ + decimal_int(r.disk_used as int) + ","@
        + decimal_int(r.disk_total as int) + ","@ + decimal_int(r.net_rx_bps as int) + ","@
        + decimal_int(r.net_tx_bps as int) + ","@ + decimal_int(r.procs as int) + "\n"@
}

/// The lines of a history as a table.
pub open spec fn export_lines(v: Seq<ExportRow>) -> Seq<char>
    decreases v.len(),
{
    if v.len() == 0 {
        Seq::empty()
    } else {
        export_lines(v.drop_last()) + export_line(v.last())
    }
}

/// The heads of the columns of a history.
pub open spec fn export_head() -> Seq<char> {
    "ts,cpu_pct,load1,mem_used,mem_total,disk_used,disk_total,net_rx_bps,net_tx_bps,procs\n"@
}

fn add_cell(csv: &mut String, x: i64)
    ensures
        final(csv)@ == old(csv)@ + ","@ + decimal_int(x as int),
{
    csv.append(",");
    csv.append(show_i64(x).as_str());
}

fn line_text(e: &ExportRow) -> (t: String)
    ensures
        t@ == export_line(*e),
{
    let mut t = show_i64(e.ts);
    t.append(",");
    t.append(e.cpu_pct.as_str());
    t.append(",");
    t.append(e.load1.as_str());
    add_cell(&mut t, e.mem_used);
    add_cell(&mut t, e.mem_total);
    add_cell(&mut t, e.disk_used);
    add_cell(&mut t, e.disk_total);
    add_cell(&mut t, e.net_rx_bps);
    add_cell(&mut t, e.net_tx_bps);
    add_cell(&mut t, e.procs);
    t.append("\n");
    t
}

/// A history as a table.
pub fn export_csv(rows: &[ExportRow]) -> (r: String)
    ensures
        r@ == export_head() + export_lines(rows@),
{
    let mut csv =
        "ts,cpu_pct,load1,mem_used,mem_total,disk_used,disk_total,net_rx_bps,net_tx_bps,procs\n".to_string();
    let mut i: usize = 0;
    assert(rows@.take(0) =~= Seq::empty());
    assert(csv@ =~= export_head() + export_lines(rows@.take(0)));
    while i < rows.len()
        invariant
            i <= rows@.len(),
            csv@ == export_head() + export_lines(rows@.take(i as int)),
        decreases rows@.len() - i,
    {
        assert(rows@.take(i + 1).drop_last() =~= rows@.take(i as int));
        let t = line_text(&rows[i]);
        let ghost done = export_lines(rows@.take(i as int));
        csv.append(t.as_str());
        assert(export_head() + done + t@ =~= export_head() + (done + t@));
        i = i + 1;
    }
    assert(rows@.take(i as int) =~= rows@);
    csv
}

/// The name of the file of a history.
pub fn export_filename(id: i64, json: bool) -> (r: String)
    ensures
        r@ == "node"@ + decimal_int(id as int) + if json {
            ".json"@
        } else {
            ".csv"@
        },
{
    let mut s = "node".to_string();
    s.append(show_i64(id).as_str());
    if json {
        s.append(".json");
    } else {
        s.append(".csv");
    }
    s
}

} // verus!
