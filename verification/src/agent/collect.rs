//! Samples: from the texts of the host, and from what the previous sample saw, to the numbers of
//! a report. A part that cannot be read counts as absent; a sample as a whole never fails.

use crate::agent::parsers::{
    cpu_total, core_times, disk_stats, mem_info, millidegrees, netdev_lines, parse_cpu_per_core,
    parse_cpu_total, parse_diskstats, parse_meminfo, parse_netdev, parse_os_release, parse_pid_comm,
    parse_pid_stat, parse_tcp_count, parse_tcp_states, parse_thermal_millideg, parse_uptime, past,
    pid_comm, pid_stat, pretty_name, sat, sat32, sat_times, state_lines, colon_lines, uptime_secs,
    CpuTimes, DiskStats, MemInfo,
};
use crate::common::{MAX_DISKS, MAX_NETS, MAX_SERVICES, MAX_TOP_PROCS, MAX_WATCH_PROCS};
use crate::metrics::{
    first_items, DiskUsage, DiskView, HostInfo, HostView, ServiceStatus, ServiceView, TopProc,
    TopView,
};
use crate::num::{parse_upto, parsed_upto};
use crate::ranking::{lemma_ordered_views, ordered, put_in_order, Placed, Ranked};
use crate::table::Table;
use crate::text::{
    chars_of, contains, has_only_digits, has_substring, is_str, lines, lossy_text, lowercase,
    only_digits, same, split_lines, string_of, to_lowercase, trim, trimmed, utf8_lossy, views,
};
use vstd::prelude::*;
use vstd::string::*;

verus! {

/// The size of a page of memory, in bytes, as the sizes of processes are estimated.
pub const PAGE_SIZE: u64 = 4096;

/// A text that may be missing.
pub open spec fn opt_text(o: Option<String>) -> Option<Seq<char>> {
    match o {
        Some(s) => Some(s@),
        None => None,
    }
}

// ---------------------------------------------------------------------------
// What is read off the host
// ---------------------------------------------------------------------------

/// A directory of `/proc` with its file `stat`.
#[derive(Debug)]
pub struct PidText {
    pub name: String,
    pub stat: String,
}

/// The texts that a sample is made from.
#[derive(Debug)]
pub struct Readings {
    /// When they were read, in nanoseconds of a clock that does not go back.
    pub at: u64,
    pub stat: Option<String>,
    pub meminfo: Option<String>,
    pub uptime: Option<String>,
    pub netdev: Option<String>,
    pub diskstats: Option<String>,
    pub tcp: Option<String>,
    pub tcp6: Option<String>,
    pub pids: Vec<PidText>,
}

/// The view of a [`PidText`].
#[verifier::ext_equal]
pub struct PidView {
    pub name: Seq<char>,
    pub stat: Seq<char>,
}

impl View for PidText {
    type V = PidView;

    open spec fn view(&self) -> PidView {
        PidView { name: self.name@, stat: self.stat@ }
    }
}

// ---------------------------------------------------------------------------
// Watched processes
// ---------------------------------------------------------------------------

/// What the processes with one name use together.
#[derive(Debug)]
pub struct WatchSum {
    pub name: String,
    pub jiffies: u64,
    pub rss: u64,
    pub count: u32,
}

/// The view of a [`WatchSum`].
#[verifier::ext_equal]
pub struct WatchView {
    pub name: Seq<char>,
    pub jiffies: u64,
    pub rss: u64,
    pub count: u32,
}

impl View for WatchSum {
    type V = WatchView;

    open spec fn view(&self) -> WatchView {
        WatchView { name: self.name@, jiffies: self.jiffies, rss: self.rss, count: self.count }
    }
}

/// The directory is that of a process with the given name, and its numbers can be read.
pub open spec fn is_process(p: PidView, name: Seq<char>) -> bool {
    only_digits(p.name) && pid_comm(p.stat) == Some(name) && pid_stat(p.stat)
        is Some
}

/// The ticks that the processes with the given name used.
pub open spec fn ticks_sum(pids: Seq<PidView>, name: Seq<char>) -> nat
    decreases pids.len(),
{
    if pids.len() == 0 {
        0
    } else {
        ticks_sum(pids.drop_last(), name) + if is_process(pids.last(), name) {
            (pid_stat(pids.last().stat)->0).0 as nat
        } else {
            0nat
        }
    }
}

/// The pages that the processes with the given name hold.
pub open spec fn pages_sum(pids: Seq<PidView>, name: Seq<char>) -> nat
    decreases pids.len(),
{
    if pids.len() == 0 {
        0
    } else {
        pages_sum(pids.drop_last(), name) + if is_process(pids.last(), name) {
            (pid_stat(pids.last().stat)->0).1 as nat
        } else {
            0nat
        }
    }
}

/// The number of processes with the given name.
pub open spec fn process_count(pids: Seq<PidView>, name: Seq<char>) -> nat
    decreases pids.len(),
{
    if pids.len() == 0 {
        0
    } else {
        process_count(pids.drop_last(), name) + if is_process(pids.last(), name) {
            1nat
        } else {
            0nat
        }
    }
}

/// What the processes with the given name use together.
pub open spec fn watch_sum(pids: Seq<PidView>, name: Seq<char>) -> WatchView {
    WatchView {
        name,
        jiffies: sat(ticks_sum(pids, name)),
        rss: sat(PAGE_SIZE as nat * pages_sum(pids, name)),
        count: sat32(process_count(pids, name)),
    }
}

/// The first `n` of the names, each once.
pub open spec fn distinct_names(names: Seq<Seq<char>>) -> Seq<Seq<char>>
    decreases names.len(),
{
    if names.len() == 0 {
        names
    } else {
        let rest = distinct_names(names.drop_last());
        if rest.contains(names.last()) {
            rest
        } else {
            rest.push(names.last())
        }
    }
}

/// What the processes with each of the names use together.
pub open spec fn watch_sums(names: Seq<Seq<char>>, pids: Seq<PidView>) -> Seq<WatchView> {
    Seq::new(names.len(), |i: int| watch_sum(pids, names[i]))
}

fn sum_processes(pids: &[PidText], name: &str) -> (r: WatchSum)
    ensures
        r@ == watch_sum(views(pids@), name@),
{
    let ghost all = views(pids@);
    let mut jiffies: u64 = 0;
    let mut rss: u64 = 0;
    let mut count: u32 = 0;
    let mut i: usize = 0;
    assert(all.take(0) =~= Seq::empty());
    while i < pids.len()
        invariant
            all == views(pids@),
            i <= pids@.len(),
            jiffies == sat(ticks_sum(all.take(i as int), name@)),
            rss == sat(PAGE_SIZE as nat * pages_sum(all.take(i as int), name@)),
            count == sat32(process_count(all.take(i as int), name@)),
        decreases pids@.len() - i,
    {
        assert(all.take(i + 1).drop_last() =~= all.take(i as int));
        assert(all.take(i + 1).last() == pids@[i as int]@);
        let p = &pids[i];
        let name_chars = chars_of(p.name.as_str());
        if has_only_digits(name_chars.as_slice()) {
            if let Some(comm) = parse_pid_comm(p.stat.as_str()) {
                if same(comm.as_str(), name) {
                    if let Some((j, pages)) = parse_pid_stat(p.stat.as_str()) {
                        jiffies = jiffies.saturating_add(j);
                        rss = rss.saturating_add(sat_times(pages, PAGE_SIZE));
                        count = count.saturating_add(1);
                    }
                }
            }
        }
        i = i + 1;
    }
    assert(all.take(i as int) =~= all);
    WatchSum { name: name.to_string(), jiffies, rss, count }
}

fn scan_processes(watch: &[String], pids: &[PidText]) -> (r: Vec<WatchSum>)
    ensures
        views(r@) == watch_sums(distinct_names(views(watch@)), views(pids@)),
{
    let ghost names = views(watch@);
    let mut out: Vec<WatchSum> = Vec::new();
    let mut i: usize = 0;
    assert(names.take(0) =~= Seq::empty());
    assert(views(out@) =~= watch_sums(distinct_names(names.take(0)), views(pids@)));
    while i < watch.len()
        invariant
            names == views(watch@),
            i <= watch@.len(),
            views(out@) == watch_sums(distinct_names(names.take(i as int)), views(pids@)),
        decreases watch@.len() - i,
    {
        let ghost d = distinct_names(names.take(i as int));
        let ghost prev = views(out@);
        assert(names.take(i + 1).drop_last() =~= names.take(i as int));
        assert(names.take(i + 1).last() == watch@[i as int]@);
        let name = watch[i].as_str();
        let mut seen = false;
        let mut k: usize = 0;
        assert(prev.len() == out@.len());
        while k < out.len()
            invariant
                k <= out@.len(),
                out@.len() == d.len(),
                views(out@) == prev,
                prev == watch_sums(d, views(pids@)),
                seen == exists|j: int| 0 <= j < k && #[trigger] d[j] == name@,
            decreases out@.len() - k,
        {
            assert(out@[k as int]@ == prev[k as int]);
            assert(prev[k as int] == watch_sum(views(pids@), d[k as int]));
            assert(out@[k as int]@.name == d[k as int]);
            if same(out[k].name.as_str(), name) {
                seen = true;
            }
            k = k + 1;
        }
        assert(seen == d.contains(name@));
        if !seen {
            let w = sum_processes(pids, name);
            let ghost wv = w@;
            out.push(w);
            assert(views(out@) =~= prev.push(wv));
            assert(views(out@) =~= watch_sums(d.push(name@), views(pids@)));
        }
        i = i + 1;
    }
    assert(names.take(i as int) =~= names);
    out
}

// ---------------------------------------------------------------------------
// Busy processes
// ---------------------------------------------------------------------------

/// A process, the ticks that it used since the previous sample, and the memory that it holds.
#[derive(Debug)]
pub struct TopTicks {
    pub name: String,
    pub ticks: u64,
    pub rss: u64,
}

/// The view of a [`TopTicks`].
#[verifier::ext_equal]
pub struct TopTicksView {
    pub name: Seq<char>,
    pub ticks: u64,
    pub rss: u64,
}

impl View for TopTicks {
    type V = TopTicksView;

    open spec fn view(&self) -> TopTicksView {
        TopTicksView { name: self.name@, ticks: self.ticks, rss: self.rss }
    }
}

/// The directory is that of a process whose name and numbers can be read.
pub open spec fn readable(p: PidView) -> bool {
    parsed_upto(p.name, u32::MAX as nat) is Some && pid_comm(p.stat) is Some && pid_stat(p.stat)
        is Some
}

/// The number of the process that a directory is about.
pub open spec fn pid_of(p: PidView) -> u32 {
    (parsed_upto(p.name, u32::MAX as nat)->0) as u32
}

/// The ticks that every process has used.
pub open spec fn pid_ticks(pids: Seq<PidView>) -> Map<u32, u64>
    decreases pids.len(),
{
    if pids.len() == 0 {
        Map::empty()
    } else {
        let m = pid_ticks(pids.drop_last());
        let p = pids.last();
        if readable(p) {
            m.insert(pid_of(p), (pid_stat(p.stat)->0).0)
        } else {
            m
        }
    }
}

/// The difference of a counter, 0 where it was set back.
pub open spec fn grown(prev: u64, cur: u64) -> u64 {
    if cur >= prev {
        (cur - prev) as u64
    } else {
        0
    }
}

/// What a process used since the previous sample; nothing where that did not see it.
pub open spec fn top_ticks(p: PidView, before: Map<u32, u64>) -> TopTicksView {
    let (j, pages) = pid_stat(p.stat)->0;
    TopTicksView {
        name: pid_comm(p.stat)->0,
        ticks: if before.contains_key(pid_of(p)) {
            grown(before[pid_of(p)], j)
        } else {
            0
        },
        rss: sat(pages as nat * PAGE_SIZE as nat),
    }
}

/// What all processes used since the previous sample.
pub open spec fn tops_of(pids: Seq<PidView>, before: Map<u32, u64>) -> Seq<TopTicksView>
    decreases pids.len(),
{
    if pids.len() == 0 {
        Seq::empty()
    } else {
        let rest = tops_of(pids.drop_last(), before);
        if readable(pids.last()) {
            rest.push(top_ticks(pids.last(), before))
        } else {
            rest
        }
    }
}

fn scan_top_processes(pids: &[PidText], before: &Table<u32, u64>) -> (r: (
    Vec<TopTicks>,
    Table<u32, u64>,
))
    requires
        before.wf(),
    ensures
        r.1.wf(),
        views(r.0@) == tops_of(views(pids@), before@),
        r.1@ == pid_ticks(views(pids@)),
{
    let ghost all = views(pids@);
    let mut out: Vec<TopTicks> = Vec::new();
    let mut now: Table<u32, u64> = Table::new();
    let mut i: usize = 0;
    assert(all.take(0) =~= Seq::empty());
    assert(views(out@) =~= tops_of(all.take(0), before@));
    while i < pids.len()
        invariant
            before.wf(),
            now.wf(),
            all == views(pids@),
            i <= pids@.len(),
            views(out@) == tops_of(all.take(i as int), before@),
            now@ == pid_ticks(all.take(i as int)),
        decreases pids@.len() - i,
    {
        let ghost prev = views(out@);
        assert(all.take(i + 1).drop_last() =~= all.take(i as int));
        assert(all.take(i + 1).last() == pids@[i as int]@);
        let p = &pids[i];
        let name = chars_of(p.name.as_str());
        match (
            parse_upto(name.as_slice(), u32::MAX as u64),
            parse_pid_comm(p.stat.as_str()),
            parse_pid_stat(p.stat.as_str()),
        ) {
            (Some(pid), Some(comm), Some((j, pages))) => {
                let key: u32 = pid as u32;
                let prev_j: u64 = match before.get(&key) {
                    Some(x) => *x,
                    None => j,
                };
                now.insert(key, j);
                let t = TopTicks {
                    name: comm,
                    ticks: j.saturating_sub(prev_j),
                    rss: sat_times(pages, PAGE_SIZE),
                };
                let ghost tv = t@;
                out.push(t);
                assert(views(out@) =~= prev.push(tv));
                assert(tv == top_ticks(all[i as int], before@));
            },
            _ => {},
        }
        i = i + 1;
    }
    assert(all.take(i as int) =~= all);
    (out, now)
}

impl Placed for TopView {
    open spec fn place(&self) -> (int, int) {
        (self.cpu_pct.rank(), self.rss as int)
    }
}

impl Placed for TopProc {
    open spec fn place(&self) -> (int, int) {
        (self.cpu_pct.rank(), self.rss as int)
    }
}

impl Ranked for TopProc {
    fn outranks(&self, other: &Self) -> (b: bool) {
        self.cpu_pct.rank_above(other.cpu_pct) || (!other.cpu_pct.rank_above(self.cpu_pct)
            && self.rss > other.rss)
    }
}

/// The busiest processes: by the share of the processors and then by memory, at most
/// [`MAX_TOP_PROCS`].
pub fn busiest(procs: Vec<TopProc>) -> (r: Vec<TopProc>)
    ensures
        views(r@) == first_items(ordered(views(procs@)), MAX_TOP_PROCS as int),
{
    proof {
        lemma_ordered_views(procs@);
    }
    let mut v = put_in_order(procs);
    let ghost all = views(v@);
    v.truncate(MAX_TOP_PROCS);
    assert(views(v@) =~= first_items(all, MAX_TOP_PROCS as int));
    v
}

// ---------------------------------------------------------------------------
// Interfaces
// ---------------------------------------------------------------------------

/// An interface: its name, and the bytes received and sent.
pub type NetRow = (Seq<char>, u64, u64);

/// The position of the row with the given name, or the number of rows.
pub open spec fn row_index(rows: Seq<NetRow>, name: Seq<char>) -> int
    decreases rows.len(),
{
    if rows.len() == 0 || rows[0].0 == name {
        0
    } else {
        1 + row_index(rows.drop_first(), name)
    }
}

proof fn lemma_row_index(rows: Seq<NetRow>, name: Seq<char>, k: int)
    requires
        0 <= k <= rows.len(),
        forall|j: int| 0 <= j < k ==> (#[trigger] rows[j]).0 != name,
        k < rows.len() ==> rows[k].0 == name,
    ensures
        row_index(rows, name) == k,
    decreases rows.len(),
{
    if k > 0 {
        assert(rows[0].0 != name);
        assert forall|j: int| 0 <= j < k - 1 implies (#[trigger] rows.drop_first()[j]).0 != name by {
            assert(rows.drop_first()[j] == rows[j + 1]);
        }
        lemma_row_index(rows.drop_first(), name, k - 1);
    }
}

/// The rows with each name once; of two rows with one name the later counts.
pub open spec fn merged(rows: Seq<NetRow>) -> Seq<NetRow>
    decreases rows.len(),
{
    if rows.len() == 0 {
        rows
    } else {
        let rest = merged(rows.drop_last());
        let k = row_index(rest, rows.last().0);
        if k < rest.len() {
            rest.update(k, rows.last())
        } else {
            rest.push(rows.last())
        }
    }
}

fn position(rows: &[(String, u64, u64)], name: &str) -> (k: usize)
    ensures
        k == row_index(views(rows@), name@),
        k <= rows@.len(),
{
    let ghost all = views(rows@);
    let mut k: usize = 0;
    while k < rows.len()
        invariant
            all == views(rows@),
            k <= rows@.len(),
            forall|j: int| 0 <= j < k ==> (#[trigger] all[j]).0 != name@,
        decreases rows@.len() - k,
    {
        assert(all[k as int].0 == rows@[k as int].0@);
        if same(rows[k].0.as_str(), name) {
            proof {
                lemma_row_index(all, name@, k as int);
            }
            return k;
        }
        k = k + 1;
    }
    proof {
        lemma_row_index(all, name@, k as int);
    }
    k
}

fn merge(rows: Vec<(String, u64, u64)>) -> (r: Vec<(String, u64, u64)>)
    ensures
        views(r@) == merged(views(rows@)),
{
    let ghost all = views(rows@);
    let mut out: Vec<(String, u64, u64)> = Vec::new();
    let mut i: usize = 0;
    assert(all.take(0) =~= Seq::empty());
    assert(views(out@) =~= merged(all.take(0)));
    while i < rows.len()
        invariant
            all == views(rows@),
            i <= rows@.len(),
            views(out@) == merged(all.take(i as int)),
        decreases rows@.len() - i,
    {
        let ghost prev = views(out@);
        assert(all.take(i + 1).drop_last() =~= all.take(i as int));
        assert(all.take(i + 1).last() == rows@[i as int]@);
        let k: usize = position(out.as_slice(), rows[i].0.as_str());
        let row = (rows[i].0.clone(), rows[i].1, rows[i].2);
        let ghost rv = row@;
        if k < out.len() {
            out.set(k, row);
            assert(views(out@) =~= prev.update(k as int, rv));
        } else {
            out.push(row);
            assert(views(out@) =~= prev.push(rv));
        }
        i = i + 1;
    }
    assert(all.take(i as int) =~= all);
    out
}

/// An interface with its counters now and at the previous sample.
#[derive(Debug)]
pub struct NetDelta {
    pub name: String,
    pub rx: u64,
    pub tx: u64,
    pub prev_rx: u64,
    pub prev_tx: u64,
}

/// The view of a [`NetDelta`].
#[verifier::ext_equal]
pub struct NetDeltaView {
    pub name: Seq<char>,
    pub rx: u64,
    pub tx: u64,
    pub prev_rx: u64,
    pub prev_tx: u64,
}

impl View for NetDelta {
    type V = NetDeltaView;

    open spec fn view(&self) -> NetDeltaView {
        NetDeltaView {
            name: self.name@,
            rx: self.rx,
            tx: self.tx,
            prev_rx: self.prev_rx,
            prev_tx: self.prev_tx,
        }
    }
}

impl Placed for NetDeltaView {
    open spec fn place(&self) -> (int, int) {
        (sat(self.rx as nat + self.tx as nat) as int, 0)
    }
}

impl Placed for NetDelta {
    open spec fn place(&self) -> (int, int) {
        (sat(self.rx as nat + self.tx as nat) as int, 0)
    }
}

impl Ranked for NetDelta {
    fn outranks(&self, other: &Self) -> (b: bool) {
        self.rx.saturating_add(self.tx) > other.rx.saturating_add(other.tx)
    }
}

/// An interface and what it had before; an interface that is new had the same.
pub open spec fn net_delta(row: NetRow, before: Seq<NetRow>) -> NetDeltaView {
    let k = row_index(before, row.0);
    if k < before.len() {
        NetDeltaView {
            name: row.0,
            rx: row.1,
            tx: row.2,
            prev_rx: before[k].1,
            prev_tx: before[k].2,
        }
    } else {
        NetDeltaView { name: row.0, rx: row.1, tx: row.2, prev_rx: row.1, prev_tx: row.2 }
    }
}

/// Every interface and what it had before.
pub open spec fn net_deltas(rows: Seq<NetRow>, before: Seq<NetRow>) -> Seq<NetDeltaView> {
    Seq::new(rows.len(), |i: int| net_delta(rows[i], before))
}

fn compare_nets(rows: &[(String, u64, u64)], before: &[(String, u64, u64)]) -> (r: Vec<NetDelta>)
    ensures
        views(r@) == net_deltas(views(rows@), views(before@)),
{
    let ghost all = views(rows@);
    let mut out: Vec<NetDelta> = Vec::new();
    let mut i: usize = 0;
    while i < rows.len()
        invariant
            all == views(rows@),
            i <= rows@.len(),
            views(out@) == net_deltas(all, views(before@)).take(i as int),
        decreases rows@.len() - i,
    {
        let ghost prev = views(out@);
        assert(all[i as int] == rows@[i as int]@);
        let k: usize = position(before, rows[i].0.as_str());
        let (prx, ptx): (u64, u64) = if k < before.len() {
            assert(views(before@)[k as int] == before@[k as int]@);
            (before[k].1, before[k].2)
        } else {
            (rows[i].1, rows[i].2)
        };
        let d = NetDelta {
            name: rows[i].0.clone(),
            rx: rows[i].1,
            tx: rows[i].2,
            prev_rx: prx,
            prev_tx: ptx,
        };
        let ghost dv = d@;
        out.push(d);
        assert(views(out@) =~= prev.push(dv));
        i = i + 1;
        assert(views(out@) =~= net_deltas(all, views(before@)).take(i as int));
    }
    assert(views(out@) =~= net_deltas(all, views(before@)));
    out
}

// ---------------------------------------------------------------------------
// The sampler
// ---------------------------------------------------------------------------

/// What the previous sample saw.
struct Prev {
    at: u64,
    cpu: CpuTimes,
    net: Vec<(String, u64, u64)>,
    disk: DiskStats,
    proc_jiffies: Vec<(String, u64)>,
    cpu_cores: Vec<CpuTimes>,
}

/// The view of what the previous sample saw.
#[verifier::ext_equal]
pub struct PrevView {
    pub at: u64,
    pub cpu: CpuTimes,
    pub net: Seq<NetRow>,
    pub disk: DiskStats,
    pub proc_jiffies: Seq<(Seq<char>, u64)>,
    pub cpu_cores: Seq<CpuTimes>,
}

impl View for Prev {
    type V = PrevView;

    open spec fn view(&self) -> PrevView {
        self.content()
    }
}

impl Prev {
    pub closed spec fn content(&self) -> PrevView {
        PrevView {
            at: self.at,
            cpu: self.cpu,
            net: views(self.net@),
            disk: self.disk,
            proc_jiffies: views(self.proc_jiffies@),
            cpu_cores: self.cpu_cores@,
        }
    }
}

/// Takes samples. It remembers the previous one, from which on rates are counted.
pub struct Sampler {
    prev: Option<Prev>,
    watch: Vec<String>,
    watch_services: Vec<String>,
    docker_stats: bool,
    prev_pids: Table<u32, u64>,
}

/// The view of a [`Sampler`].
#[verifier::ext_equal]
pub struct SamplerView {
    /// What the previous sample saw.
    pub prev: Option<PrevView>,
    /// The names of the watched processes.
    pub watch: Seq<Seq<char>>,
    /// The names of the watched services.
    pub watch_services: Seq<Seq<char>>,
    /// Containers are looked at.
    pub docker_stats: bool,
    /// The ticks that every process had used.
    pub prev_pids: Map<u32, u64>,
}

impl View for Sampler {
    type V = SamplerView;

    closed spec fn view(&self) -> SamplerView {
        SamplerView {
            prev: match self.prev {
                Some(p) => Some(p@),
                None => None,
            },
            watch: views(self.watch@),
            watch_services: views(self.watch_services@),
            docker_stats: self.docker_stats,
            prev_pids: self.prev_pids@,
        }
    }
}

/// A watched process, and the ticks that it used since the previous sample.
#[derive(Debug)]
pub struct ProcTicks {
    pub name: String,
    pub running: bool,
    pub count: u32,
    pub ticks: u64,
    pub rss: u64,
}

/// The view of a [`ProcTicks`].
#[verifier::ext_equal]
pub struct ProcTicksView {
    pub name: Seq<char>,
    pub running: bool,
    pub count: u32,
    pub ticks: u64,
    pub rss: u64,
}

impl View for ProcTicks {
    type V = ProcTicksView;

    open spec fn view(&self) -> ProcTicksView {
        ProcTicksView {
            name: self.name@,
            running: self.running,
            count: self.count,
            ticks: self.ticks,
            rss: self.rss,
        }
    }
}

/// What happened between two samples.
#[derive(Debug)]
pub struct Rates {
    /// The time between the samples, in nanoseconds.
    pub elapsed: u64,
    /// The idle and all ticks of the processors; `None` where no tick passed.
    pub cpu: Option<(u64, u64)>,
    /// The same for each processor, where there are as many as before.
    pub cores: Vec<Option<(u64, u64)>>,
    /// The busiest interfaces, by what they have moved.
    pub nets: Vec<NetDelta>,
    pub disk_before: DiskStats,
    pub disk_now: DiskStats,
    /// The watched processes.
    pub procs: Vec<ProcTicks>,
    /// All ticks.
    pub total_ticks: u64,
}

/// The view of [`Rates`].
#[verifier::ext_equal]
pub struct RatesView {
    pub elapsed: u64,
    pub cpu: Option<(u64, u64)>,
    pub cores: Seq<Option<(u64, u64)>>,
    pub nets: Seq<NetDeltaView>,
    pub disk_before: DiskStats,
    pub disk_now: DiskStats,
    pub procs: Seq<ProcTicksView>,
    pub total_ticks: u64,
}

impl View for Rates {
    type V = RatesView;

    open spec fn view(&self) -> RatesView {
        RatesView {
            elapsed: self.elapsed,
            cpu: self.cpu,
            cores: self.cores@,
            nets: views(self.nets@),
            disk_before: self.disk_before,
            disk_now: self.disk_now,
            procs: views(self.procs@),
            total_ticks: self.total_ticks,
        }
    }
}

/// The numbers of a sample, before shares and rates are worked out.
#[derive(Debug)]
pub struct Snapshot {
    /// What happened since the previous sample; nothing is said in the first one, or where the
    /// processors cannot be read.
    pub rates: Option<Rates>,
    pub mem: MemInfo,
    pub mem_used: u64,
    pub uptime_secs: u64,
    pub tcp_conns: Option<u32>,
    pub tcp_estab: Option<u32>,
    pub tcp_listen: Option<u32>,
    pub tcp_time_wait: Option<u32>,
    /// All processes.
    pub tops: Vec<TopTicks>,
    /// The ticks that the shares of the processes are taken of.
    pub top_ticks: u64,
}

/// The view of a [`Snapshot`].
#[verifier::ext_equal]
pub struct SnapshotView {
    pub rates: Option<RatesView>,
    pub mem: MemInfo,
    pub mem_used: u64,
    pub uptime_secs: u64,
    pub tcp_conns: Option<u32>,
    pub tcp_estab: Option<u32>,
    pub tcp_listen: Option<u32>,
    pub tcp_time_wait: Option<u32>,
    pub tops: Seq<TopTicksView>,
    pub top_ticks: u64,
}

impl View for Snapshot {
    type V = SnapshotView;

    open spec fn view(&self) -> SnapshotView {
        SnapshotView {
            rates: match self.rates {
                Some(r) => Some(r@),
                None => None,
            },
            mem: self.mem,
            mem_used: self.mem_used,
            uptime_secs: self.uptime_secs,
            tcp_conns: self.tcp_conns,
            tcp_estab: self.tcp_estab,
            tcp_listen: self.tcp_listen,
            tcp_time_wait: self.tcp_time_wait,
            tops: views(self.tops@),
            top_ticks: self.top_ticks,
        }
    }
}

/// What the processors show.
pub open spec fn read_cpu(r: Readings) -> Option<CpuTimes> {
    match r.stat {
        Some(s) => cpu_total(s@),
        None => None,
    }
}

/// What each processor shows.
pub open spec fn read_cores(r: Readings) -> Seq<CpuTimes> {
    match r.stat {
        Some(s) => core_times(lines(s@)),
        None => Seq::empty(),
    }
}

/// The interfaces.
pub open spec fn read_nets(r: Readings) -> Seq<NetRow> {
    match r.netdev {
        Some(s) => merged(netdev_lines(past(lines(s@), 2))),
        None => Seq::empty(),
    }
}

/// The disks.
pub open spec fn read_disks(r: Readings) -> DiskStats {
    match r.diskstats {
        Some(s) => disk_stats(lines(s@)),
        None => DiskStats { read_bytes: 0, write_bytes: 0, read_ops: 0, write_ops: 0 },
    }
}

/// The memory.
pub open spec fn read_mem(r: Readings) -> MemInfo {
    match r.meminfo {
        Some(s) => mem_info(lines(s@)),
        None => MemInfo { total: 0, available: 0, swap_total: 0, swap_used: 0 },
    }
}

/// The ticks of all processors; 0 where they cannot be read.
pub open spec fn ticks_now(c: Option<CpuTimes>) -> u64 {
    match c {
        Some(t) => t.total,
        None => 0,
    }
}

/// The number of connections in both tables; `None` where neither can be read.
pub open spec fn conns_of(v4: Option<Seq<char>>, v6: Option<Seq<char>>) -> Option<u32> {
    let a = match v4 {
        Some(s) => sat32(colon_lines(past(lines(s), 1))),
        None => 0,
    };
    let b = match v6 {
        Some(s) => sat32(colon_lines(past(lines(s), 1))),
        None => 0,
    };
    if v4 is None && v6 is None {
        None
    } else {
        Some(sat32(a as nat + b as nat))
    }
}

/// The number of connections in one state in both tables; `None` where neither can be read.
pub open spec fn state_of(v4: Option<Seq<char>>, v6: Option<Seq<char>>, code: Seq<char>) -> Option<
    u32,
> {
    let a = match v4 {
        Some(s) => sat32(state_lines(past(lines(s), 1), code)),
        None => 0,
    };
    let b = match v6 {
        Some(s) => sat32(state_lines(past(lines(s), 1), code)),
        None => 0,
    };
    if v4 is None && v6 is None {
        None
    } else {
        Some(sat32(a as nat + b as nat))
    }
}

/// The difference of two readings of a processor, as [`cpu_deltas`](crate::agent::parsers::cpu_deltas)
/// gives it.
pub open spec fn deltas_of(prev: CpuTimes, cur: CpuTimes) -> Option<(u64, u64)> {
    if cur.total > prev.total {
        Some((grown(prev.idle, cur.idle), grown(prev.total, cur.total)))
    } else {
        None
    }
}

/// The differences of all processors, where there are as many as before (and any at all).
pub open spec fn core_deltas(prev: Seq<CpuTimes>, cur: Seq<CpuTimes>) -> Seq<Option<(u64, u64)>> {
    if cur.len() > 0 && prev.len() == cur.len() {
        Seq::new(cur.len(), |i: int| deltas_of(prev[i], cur[i]))
    } else {
        Seq::empty()
    }
}

/// The ticks that a watched name had used at the previous sample.
pub open spec fn ticks_before(before: Seq<(Seq<char>, u64)>, w: WatchView) -> u64
    decreases before.len(),
{
    if before.len() == 0 {
        w.jiffies
    } else if before[0].0 == w.name {
        before[0].1
    } else {
        ticks_before(before.drop_first(), w)
    }
}

/// A watched process, and what it used since the previous sample.
pub open spec fn proc_ticks(w: WatchView, before: Seq<(Seq<char>, u64)>) -> ProcTicksView {
    ProcTicksView {
        name: w.name,
        running: w.count > 0,
        count: w.count,
        ticks: grown(ticks_before(before, w), w.jiffies),
        rss: w.rss,
    }
}

/// The watched processes, and what they used since the previous sample.
pub open spec fn procs_ticks(ws: Seq<WatchView>, before: Seq<(Seq<char>, u64)>) -> Seq<
    ProcTicksView,
> {
    Seq::new(ws.len(), |i: int| proc_ticks(ws[i], before))
}

/// What the watched names have used.
pub open spec fn watch_ticks(ws: Seq<WatchView>) -> Seq<(Seq<char>, u64)> {
    Seq::new(ws.len(), |i: int| (ws[i].name, ws[i].jiffies))
}

/// What the watched processes of a sampler use.
pub open spec fn watch_now(v: SamplerView, r: Readings) -> Seq<WatchView> {
    watch_sums(distinct_names(v.watch), views(r.pids@))
}

/// What happened since `p`, where the processors show `c` now.
pub open spec fn rates_since(p: PrevView, c: CpuTimes, v: SamplerView, r: Readings) -> RatesView {
    RatesView {
        elapsed: grown(p.at, r.at),
        cpu: deltas_of(p.cpu, c),
        cores: core_deltas(p.cpu_cores, read_cores(r)),
        nets: first_items(ordered(net_deltas(read_nets(r), p.net)), MAX_NETS as int),
        disk_before: p.disk,
        disk_now: read_disks(r),
        procs: procs_ticks(watch_now(v, r), p.proc_jiffies),
        total_ticks: grown(p.cpu.total, c.total),
    }
}

/// The sample that a sampler takes from the readings.
pub open spec fn snapshot_of(v: SamplerView, r: Readings) -> SnapshotView {
    let mem = read_mem(r);
    SnapshotView {
        rates: match (v.prev, read_cpu(r)) {
            (Some(p), Some(c)) => Some(rates_since(p, c, v, r)),
            _ => None,
        },
        mem,
        mem_used: grown(mem.available, mem.total),
        uptime_secs: match r.uptime {
            Some(s) => uptime_secs(s@),
            None => 0,
        },
        tcp_conns: conns_of(opt_text(r.tcp), opt_text(r.tcp6)),
        tcp_estab: state_of(opt_text(r.tcp), opt_text(r.tcp6), "01"@),
        tcp_listen: state_of(opt_text(r.tcp), opt_text(r.tcp6), "0A"@),
        tcp_time_wait: state_of(opt_text(r.tcp), opt_text(r.tcp6), "06"@),
        tops: tops_of(views(r.pids@), v.prev_pids),
        top_ticks: match v.prev {
            Some(p) => grown(p.cpu.total, ticks_now(read_cpu(r))),
            None => 0,
        },
    }
}

/// The sampler after it took a sample. What it remembers of the processors, the interfaces and
/// the disks is renewed only where the processors could be read.
pub open spec fn sampled(v: SamplerView, r: Readings) -> SamplerView {
    SamplerView {
        prev: match read_cpu(r) {
            Some(c) => Some(
                PrevView {
                    at: r.at,
                    cpu: c,
                    net: read_nets(r),
                    disk: read_disks(r),
                    proc_jiffies: watch_ticks(watch_now(v, r)),
                    cpu_cores: read_cores(r),
                },
            ),
            None => v.prev,
        },
        prev_pids: pid_ticks(views(r.pids@)),
        ..v
    }
}

fn compare_cpu(prev: CpuTimes, cur: CpuTimes) -> (r: Option<(u64, u64)>)
    ensures
        r == deltas_of(prev, cur),
{
    crate::agent::parsers::cpu_deltas(prev, cur)
}

fn compare_cores(prev: &[CpuTimes], cur: &[CpuTimes]) -> (r: Vec<Option<(u64, u64)>>)
    ensures
        r@ == core_deltas(prev@, cur@),
{
    let mut out: Vec<Option<(u64, u64)>> = Vec::new();
    if cur.len() == 0 || prev.len() != cur.len() {
        return out;
    }
    let mut i: usize = 0;
    while i < cur.len()
        invariant
            cur@.len() > 0,
            prev@.len() == cur@.len(),
            i <= cur@.len(),
            out@ == core_deltas(prev@, cur@).take(i as int),
        decreases cur@.len() - i,
    {
        out.push(compare_cpu(prev[i], cur[i]));
        i = i + 1;
        assert(out@ =~= core_deltas(prev@, cur@).take(i as int));
    }
    assert(out@ =~= core_deltas(prev@, cur@));
    out
}

fn find_ticks(before: &[(String, u64)], w: &WatchSum) -> (r: u64)
    ensures
        r == ticks_before(views(before@), w@),
{
    let ghost all = views(before@);
    let mut i: usize = 0;
    assert(all.skip(0) =~= all);
    while i < before.len()
        invariant
            all == views(before@),
            i <= before@.len(),
            ticks_before(all, w@) == ticks_before(all.skip(i as int), w@),
        decreases before@.len() - i,
    {
        assert(all.skip(i as int)[0] == before@[i as int]@);
        assert(all.skip(i as int).drop_first() =~= all.skip(i + 1));
        if same(before[i].0.as_str(), w.name.as_str()) {
            return before[i].1;
        }
        i = i + 1;
    }
    assert(all.skip(i as int) =~= Seq::empty());
    w.jiffies
}

fn compare_procs(ws: &[WatchSum], before: &[(String, u64)]) -> (r: Vec<ProcTicks>)
    ensures
        views(r@) == procs_ticks(views(ws@), views(before@)),
{
    let ghost all = views(ws@);
    let mut out: Vec<ProcTicks> = Vec::new();
    let mut i: usize = 0;
    while i < ws.len()
        invariant
            all == views(ws@),
            i <= ws@.len(),
            views(out@) == procs_ticks(all, views(before@)).take(i as int),
        decreases ws@.len() - i,
    {
        let ghost prev = views(out@);
        assert(all[i as int] == ws@[i as int]@);
        let w = &ws[i];
        let p = ProcTicks {
            name: w.name.clone(),
            running: w.count > 0,
            count: w.count,
            ticks: w.jiffies.saturating_sub(find_ticks(before, w)),
            rss: w.rss,
        };
        let ghost pv = p@;
        out.push(p);
        assert(views(out@) =~= prev.push(pv));
        i = i + 1;
        assert(views(out@) =~= procs_ticks(all, views(before@)).take(i as int));
    }
    assert(views(out@) =~= procs_ticks(all, views(before@)));
    out
}

fn remember_procs(ws: &[WatchSum]) -> (r: Vec<(String, u64)>)
    ensures
        views(r@) == watch_ticks(views(ws@)),
{
    let ghost all = views(ws@);
    let mut out: Vec<(String, u64)> = Vec::new();
    let mut i: usize = 0;
    while i < ws.len()
        invariant
            all == views(ws@),
            i <= ws@.len(),
            views(out@) == watch_ticks(all).take(i as int),
        decreases ws@.len() - i,
    {
        let ghost prev = views(out@);
        assert(all[i as int] == ws@[i as int]@);
        let p = (ws[i].name.clone(), ws[i].jiffies);
        let ghost pv = p@;
        out.push(p);
        assert(views(out@) =~= prev.push(pv));
        i = i + 1;
        assert(views(out@) =~= watch_ticks(all).take(i as int));
    }
    assert(views(out@) =~= watch_ticks(all));
    out
}

/// The number of TCP connections, of both kinds together.
pub fn read_tcp_conns(v4: &Option<String>, v6: &Option<String>) -> (r: Option<u32>)
    ensures
        r == conns_of(opt_text(*v4), opt_text(*v6)),
{
    if v4.is_none() && v6.is_none() {
        return None;
    }
    let a: u32 = match v4 {
        Some(s) => parse_tcp_count(s.as_str()),
        None => 0,
    };
    let b: u32 = match v6 {
        Some(s) => parse_tcp_count(s.as_str()),
        None => 0,
    };
    Some(a.saturating_add(b))
}

/// The numbers of TCP connections that are established, that listen and that wait, of both
/// kinds together.
pub fn read_tcp_states(v4: &Option<String>, v6: &Option<String>) -> (r: (
    Option<u32>,
    Option<u32>,
    Option<u32>,
))
    ensures
        r.0 == state_of(opt_text(*v4), opt_text(*v6), "01"@),
        r.1 == state_of(opt_text(*v4), opt_text(*v6), "0A"@),
        r.2 == state_of(opt_text(*v4), opt_text(*v6), "06"@),
{
    if v4.is_none() && v6.is_none() {
        return (None, None, None);
    }
    let (a0, a1, a2): (u32, u32, u32) = match v4 {
        Some(s) => parse_tcp_states(s.as_str()),
        None => (0, 0, 0),
    };
    let (b0, b1, b2): (u32, u32, u32) = match v6 {
        Some(s) => parse_tcp_states(s.as_str()),
        None => (0, 0, 0),
    };
    (Some(a0.saturating_add(b0)), Some(a1.saturating_add(b1)), Some(a2.saturating_add(b2)))
}

fn first_names(v: Vec<String>, n: usize) -> (r: Vec<String>)
    ensures
        views(r@) == first_items(views(v@), n as int),
{
    let mut w = v;
    let ghost all = views(w@);
    w.truncate(n);
    assert(views(w@) =~= first_items(all, n as int));
    w
}

impl Sampler {
    /// No process stands twice in what is remembered.
    pub closed spec fn wf(&self) -> bool {
        self.prev_pids.wf()
    }

    /// A sampler that has seen nothing and watches nothing.
    pub fn new() -> (s: Self)
        ensures
            s.wf(),
            s@ == (SamplerView {
                prev: None,
                watch: Seq::empty(),
                watch_services: Seq::empty(),
                docker_stats: false,
                prev_pids: Map::empty(),
            }),
    {
        let s = Sampler {
            prev: None,
            watch: Vec::new(),
            watch_services: Vec::new(),
            docker_stats: false,
            prev_pids: Table::new(),
        };
        assert(views(s.watch@) =~= Seq::empty());
        assert(views(s.watch_services@) =~= Seq::empty());
        s
    }

    /// Sets the processes to watch: the first [`MAX_WATCH_PROCS`] of the names.
    pub fn set_watch(&mut self, watch: Vec<String>)
        requires
            old(self).wf(),
        ensures
            final(self).wf(),
            final(self)@ == (SamplerView {
                watch: first_items(views(watch@), MAX_WATCH_PROCS as int),
                ..old(self)@
            }),
    {
        self.watch = first_names(watch, MAX_WATCH_PROCS);
    }

    /// Sets the services to watch: the first [`MAX_SERVICES`] of the names.
    pub fn set_watch_services(&mut self, services: Vec<String>)
        requires
            old(self).wf(),
        ensures
            final(self).wf(),
            final(self)@ == (SamplerView {
                watch_services: first_items(views(services@), MAX_SERVICES as int),
                ..old(self)@
            }),
    {
        self.watch_services = first_names(services, MAX_SERVICES);
    }

    /// Sets whether containers are looked at.
    pub fn set_docker_stats(&mut self, enabled: bool)
        requires
            old(self).wf(),
        ensures
            final(self).wf(),
            final(self)@ == (SamplerView { docker_stats: enabled, ..old(self)@ }),
    {
        self.docker_stats = enabled;
    }

    /// Whether containers are looked at.
    pub fn wants_containers(&self) -> (r: bool)
        ensures
            r == self@.docker_stats,
    {
        self.docker_stats
    }

    /// The names of the watched services.
    pub fn services(&self) -> (r: &Vec<String>)
        ensures
            views(r@) == self@.watch_services,
    {
        &self.watch_services
    }

    /// Takes a sample. The first one sets the base from which on rates are counted.
    pub fn sample(&mut self, r: &Readings) -> (s: Snapshot)
        requires
            old(self).wf(),
        ensures
            final(self).wf(),
            s@ == snapshot_of(old(self)@, *r),
            final(self)@ == sampled(old(self)@, *r),
    {
        let ghost v = self@;
        let cpu: Option<CpuTimes> = match &r.stat {
            Some(s) => parse_cpu_total(s.as_str()),
            None => None,
        };
        let cores: Vec<CpuTimes> = match &r.stat {
            Some(s) => parse_cpu_per_core(s.as_str()),
            None => Vec::new(),
        };
        assert(cores@ =~= read_cores(*r));
        let mem: MemInfo = match &r.meminfo {
            Some(s) => parse_meminfo(s.as_str()),
            None => MemInfo { total: 0, available: 0, swap_total: 0, swap_used: 0 },
        };
        let uptime: u64 = match &r.uptime {
            Some(s) => parse_uptime(s.as_str()),
            None => 0,
        };
        let nets: Vec<(String, u64, u64)> = match &r.netdev {
            Some(s) => merge(parse_netdev(s.as_str())),
            None => Vec::new(),
        };
        assert(views(nets@) =~= read_nets(*r));
        let disk: DiskStats = match &r.diskstats {
            Some(s) => parse_diskstats(s.as_str()),
            None => DiskStats { read_bytes: 0, write_bytes: 0, read_ops: 0, write_ops: 0 },
        };
        let watched = scan_processes(self.watch.as_slice(), r.pids.as_slice());
        let ticks: u64 = match cpu {
            Some(c) => c.total,
            None => 0,
        };
        let top_ticks: u64 = match &self.prev {
            Some(p) => ticks.saturating_sub(p.cpu.total),
            None => 0,
        };
        let (tops, pids) = scan_top_processes(r.pids.as_slice(), &self.prev_pids);
        let (tcp_estab, tcp_listen, tcp_time_wait) = read_tcp_states(&r.tcp, &r.tcp6);
        let tcp_conns = read_tcp_conns(&r.tcp, &r.tcp6);
        let rates: Option<Rates> = match (&self.prev, cpu) {
            (Some(p), Some(c)) => {
                let rate = p.rates(c, r.at, cores.as_slice(), nets.as_slice(), disk, watched.as_slice());
                assert(rate@ =~= rates_since(p@, c, v, *r));
                Some(rate)
            },
            _ => None,
        };
        self.prev_pids = pids;
        if let Some(c) = cpu {
            let p = Prev {
                at: r.at,
                cpu: c,
                net: nets,
                disk,
                proc_jiffies: remember_procs(watched.as_slice()),
                cpu_cores: cores,
            };
            self.prev = Some(p);
        }
        assert(self@ =~= sampled(v, *r));
        let s = Snapshot {
            rates,
            mem,
            mem_used: mem.total.saturating_sub(mem.available),
            uptime_secs: uptime,
            tcp_conns,
            tcp_estab,
            tcp_listen,
            tcp_time_wait,
            tops,
            top_ticks,
        };
        assert(s@ =~= snapshot_of(v, *r));
        s
    }
}

impl Prev {
    fn rates(
        &self,
        c: CpuTimes,
        at: u64,
        cores: &[CpuTimes],
        nets: &[(String, u64, u64)],
        disk: DiskStats,
        watched: &[WatchSum],
    ) -> (r: Rates)
        ensures
            r@ == (RatesView {
                elapsed: grown(self@.at, at),
                cpu: deltas_of(self@.cpu, c),
                cores: core_deltas(self@.cpu_cores, cores@),
                nets: first_items(ordered(net_deltas(views(nets@), self@.net)), MAX_NETS as int),
                disk_before: self@.disk,
                disk_now: disk,
                procs: procs_ticks(views(watched@), self@.proc_jiffies),
                total_ticks: grown(self@.cpu.total, c.total),
            }),
    {
        let deltas = compare_nets(nets, self.net.as_slice());
        proof {
            lemma_ordered_views(deltas@);
        }
        let mut ifs = put_in_order(deltas);
        let ghost all = views(ifs@);
        ifs.truncate(MAX_NETS);
        assert(views(ifs@) =~= first_items(all, MAX_NETS as int));
        Rates {
            elapsed: at.saturating_sub(self.at),
            cpu: compare_cpu(self.cpu, c),
            cores: compare_cores(self.cpu_cores.as_slice(), cores),
            nets: ifs,
            disk_before: self.disk,
            disk_now: disk,
            procs: compare_procs(watched, self.proc_jiffies.as_slice()),
            total_ticks: c.total.saturating_sub(self.cpu.total),
        }
    }
}

/// The first sample says nothing of rates; every sample after one that could read the processors
/// does, where it can read them too.
pub proof fn lemma_rates_need_a_base(v: SamplerView, r1: Readings, r2: Readings)
    ensures
        v.prev is None ==> snapshot_of(v, r1).rates is None,
        read_cpu(r1) is Some && read_cpu(r2) is Some ==> snapshot_of(sampled(v, r1), r2).rates
            is Some,
{
}

/// A counter that was set back counts as not grown, never as negative.
pub proof fn lemma_reset_counts_as_zero(v: SamplerView, r: Readings)
    requires
        v.prev is Some,
        read_cpu(r) is Some,
        (read_cpu(r)->0).total < (v.prev->0).cpu.total,
    ensures
        snapshot_of(v, r).rates is Some,
        (snapshot_of(v, r).rates->0).cpu is None,
        (snapshot_of(v, r).rates->0).total_ticks == 0,
        snapshot_of(v, r).top_ticks == 0,
{
}

// ---------------------------------------------------------------------------
// Services, temperature, disks, the host
// ---------------------------------------------------------------------------

/// What `systemctl is-active` said of the service number `i`: one line for each, in order.
pub open spec fn active_at(out: Option<Seq<u8>>, i: int) -> bool {
    match out {
        Some(b) => i < lines(lossy_text(b)).len() && trimmed(lines(lossy_text(b))[i]) == "active"@,
        None => false,
    }
}

/// The states of the services; a service of which nothing was said is not active.
pub open spec fn service_states(names: Seq<Seq<char>>, out: Option<Seq<u8>>) -> Seq<ServiceView> {
    Seq::new(names.len(), |i: int| ServiceView { name: names[i], active: active_at(out, i) })
}

/// A sequence of bytes that may be missing.
pub open spec fn opt_bytes(o: Option<Vec<u8>>) -> Option<Seq<u8>> {
    match o {
        Some(b) => Some(b@),
        None => None,
    }
}

/// The states of the services, from what `systemctl is-active` printed (or nothing, where it
/// could not be run).
pub fn scan_services(names: &[String], out: &Option<Vec<u8>>) -> (r: Vec<ServiceStatus>)
    ensures
        views(r@) == service_states(views(names@), opt_bytes(*out)),
{
    let text: String = match out {
        Some(b) => utf8_lossy(b.as_slice()),
        None => String::new(),
    };
    let chars = chars_of(text.as_str());
    let ls = split_lines(chars.as_slice());
    let ghost all = lines(text@);
    let known = out.is_some();
    let mut r: Vec<ServiceStatus> = Vec::new();
    let mut i: usize = 0;
    while i < names.len()
        invariant
            all == views(ls@),
            known == (out is Some),
            known ==> all == lines(lossy_text(opt_bytes(*out)->0)),
            i <= names@.len(),
            views(r@) == service_states(views(names@), opt_bytes(*out)).take(i as int),
        decreases names@.len() - i,
    {
        let ghost prev = views(r@);
        let mut active = false;
        if known && i < ls.len() {
            assert(all[i as int] == ls@[i as int]@);
            active = is_str(trim(ls[i]), "active");
        }
        let s = ServiceStatus { name: names[i].clone(), active };
        let ghost sv = s@;
        r.push(s);
        assert(views(r@) =~= prev.push(sv));
        i = i + 1;
        assert(views(r@) =~= service_states(views(names@), opt_bytes(*out)).take(i as int));
    }
    assert(views(r@) =~= service_states(views(names@), opt_bytes(*out)));
    r
}

/// A thermal zone: its temperature and its type, as far as they can be read.
#[derive(Debug)]
pub struct Zone {
    pub temp: Option<String>,
    pub kind: Option<String>,
}

/// The temperature of a zone, in thousandths of a degree.
pub open spec fn zone_temp(z: Zone) -> Option<i64> {
    match z.temp {
        Some(t) => millidegrees(t@),
        None => None,
    }
}

/// The type of the zone speaks of a processor.
pub open spec fn zone_of_cpu(z: Zone) -> bool {
    match z.kind {
        Some(k) => {
            let t = lowercase(k@);
            contains(t, "cpu"@) || contains(t, "pkg"@) || contains(t, "core"@) || contains(t, "soc"@)
        },
        None => false,
    }
}

/// The first temperature of a zone of a processor among the first `n` zones.
pub open spec fn cpu_zone_temp(zs: Seq<Zone>, n: int) -> Option<i64>
    decreases n,
{
    if n <= 0 {
        None
    } else if cpu_zone_temp(zs, n - 1) is Some {
        cpu_zone_temp(zs, n - 1)
    } else if zone_of_cpu(zs[n - 1]) {
        zone_temp(zs[n - 1])
    } else {
        None
    }
}

/// The first temperature of any of the first `n` zones.
pub open spec fn any_zone_temp(zs: Seq<Zone>, n: int) -> Option<i64>
    decreases n,
{
    if n <= 0 {
        None
    } else if any_zone_temp(zs, n - 1) is Some {
        any_zone_temp(zs, n - 1)
    } else {
        zone_temp(zs[n - 1])
    }
}

/// The temperature of the processor: that of the first zone that speaks of one, or else the first
/// there is.
pub open spec fn cpu_temp(zs: Seq<Zone>) -> Option<i64> {
    if cpu_zone_temp(zs, zs.len() as int) is Some {
        cpu_zone_temp(zs, zs.len() as int)
    } else {
        any_zone_temp(zs, zs.len() as int)
    }
}

fn speaks_of_cpu(kind: &Option<String>) -> (r: bool)
    ensures
        r == (match *kind {
            Some(k) => {
                let t = lowercase(k@);
                contains(t, "cpu"@) || contains(t, "pkg"@) || contains(t, "core"@) || contains(
                    t,
                    "soc"@,
                )
            },
            None => false,
        }),
{
    match kind {
        Some(k) => {
            let low = to_lowercase(k.as_str());
            let t = chars_of(low.as_str());
            has_substring(t.as_slice(), "cpu") || has_substring(t.as_slice(), "pkg")
                || has_substring(t.as_slice(), "core") || has_substring(t.as_slice(), "soc")
        },
        None => false,
    }
}

/// The temperature of the processor, in thousandths of a degree, from the thermal zones.
pub fn read_cpu_temp(zones: &[Zone]) -> (r: Option<i64>)
    ensures
        r == cpu_temp(zones@),
{
    let mut best: Option<i64> = None;
    let mut any: Option<i64> = None;
    let mut i: usize = 0;
    while i < zones.len()
        invariant
            i <= zones@.len(),
            best == cpu_zone_temp(zones@, i as int),
            any == any_zone_temp(zones@, i as int),
        decreases zones@.len() - i,
    {
        let z = &zones[i];
        let t: Option<i64> = match &z.temp {
            Some(s) => parse_thermal_millideg(s.as_str()),
            None => None,
        };
        if best.is_none() && speaks_of_cpu(&z.kind) {
            best = t;
        }
        if any.is_none() {
            any = t;
        }
        i = i + 1;
    }
    if best.is_some() {
        best
    } else {
        any
    }
}

/// What the system says of a file system.
#[derive(Debug, Clone, Copy, PartialEq, Eq, Structural)]
pub struct VfsStat {
    pub frsize: u64,
    pub blocks: u64,
    pub bfree: u64,
    pub files: u64,
    pub ffree: u64,
}

/// A mounted file system and what the system says of it, where it says anything.
#[derive(Debug)]
pub struct MountStat {
    pub mount: String,
    pub fs: String,
    pub stat: Option<VfsStat>,
}

/// The use of a mounted file system; nothing where it is empty or the system says nothing.
pub open spec fn usage_of(m: MountStat) -> Option<DiskView> {
    match m.stat {
        Some(s) => {
            let total = sat(s.blocks as nat * s.frsize as nat);
            if total == 0 {
                None
            } else {
                Some(
                    DiskView {
                        mount: m.mount@,
                        fs: m.fs@,
                        total,
                        used: grown(sat(s.bfree as nat * s.frsize as nat), total),
                        inodes_total: s.files,
                        inodes_used: grown(s.ffree, s.files),
                    },
                )
            }
        },
        None => None,
    }
}

/// The use of the first `n` file systems, up to [`MAX_DISKS`].
pub open spec fn usages(ms: Seq<MountStat>, n: int) -> Seq<DiskView>
    decreases n,
{
    if n <= 0 {
        Seq::empty()
    } else {
        let rest = usages(ms, n - 1);
        match usage_of(ms[n - 1]) {
            Some(d) => if rest.len() < MAX_DISKS {
                rest.push(d)
            } else {
                rest
            },
            None => rest,
        }
    }
}

/// The use of the mounted file systems, up to [`MAX_DISKS`].
pub fn collect_disks(mounts: &[MountStat]) -> (r: Vec<DiskUsage>)
    ensures
        views(r@) == usages(mounts@, mounts@.len() as int),
{
    let mut out: Vec<DiskUsage> = Vec::new();
    let mut i: usize = 0;
    assert(views(out@) =~= usages(mounts@, 0));
    while i < mounts.len()
        invariant
            i <= mounts@.len(),
            views(out@) == usages(mounts@, i as int),
        decreases mounts@.len() - i,
    {
        let ghost prev = views(out@);
        let m = &mounts[i];
        if let Some(s) = m.stat {
            let total: u64 = sat_times(s.blocks, s.frsize);
            let free: u64 = sat_times(s.bfree, s.frsize);
            if total != 0 && out.len() < MAX_DISKS {
                let d = DiskUsage {
                    mount: m.mount.clone(),
                    fs: m.fs.clone(),
                    total,
                    used: total.saturating_sub(free),
                    inodes_total: s.files,
                    inodes_used: s.files.saturating_sub(s.ffree),
                };
                let ghost dv = d@;
                out.push(d);
                assert(views(out@) =~= prev.push(dv));
            }
        }
        i = i + 1;
    }
    out
}

/// The text trimmed, or nothing.
pub open spec fn trimmed_or_empty(t: Option<Seq<char>>) -> Seq<char> {
    match t {
        Some(s) => trimmed(s),
        None => Seq::empty(),
    }
}

fn trim_or_empty(t: &Option<String>) -> (r: String)
    ensures
        r@ == trimmed_or_empty(opt_text(*t)),
{
    match t {
        Some(s) => {
            let v = chars_of(s.as_str());
            string_of(trim(v.as_slice()))
        },
        None => String::new(),
    }
}

/// The texts that say what a host is.
#[derive(Debug)]
pub struct HostReadings {
    pub hostname: Option<String>,
    pub kernel: Option<String>,
    pub os_release: Option<String>,
    pub meminfo: Option<String>,
    /// The number of processors, where it is known.
    pub cores: Option<usize>,
    pub arch: String,
    pub agent_version: String,
}

/// What a host says of itself.
pub open spec fn host_of(h: HostReadings) -> HostView {
    HostView {
        hostname: trimmed_or_empty(opt_text(h.hostname)),
        os: match h.os_release {
            Some(s) => match pretty_name(lines(s@)) {
                Some(n) => n,
                None => "Linux"@,
            },
            None => "Linux"@,
        },
        kernel: trimmed_or_empty(opt_text(h.kernel)),
        arch: h.arch@,
        cores: match h.cores {
            Some(n) => sat32(n as nat),
            None => 0,
        },
        mem_total: match h.meminfo {
            Some(s) => mem_info(lines(s@)).total,
            None => 0,
        },
        agent_version: h.agent_version@,
    }
}

/// What a host says of itself.
pub fn host_info(h: &HostReadings) -> (r: HostInfo)
    ensures
        r@ == host_of(*h),
{
    let pretty: Option<String> = match &h.os_release {
        Some(s) => parse_os_release(s.as_str()),
        None => None,
    };
    let os: String = match pretty {
        Some(n) => n,
        None => "Linux".to_string(),
    };
    let cores: u32 = match h.cores {
        Some(n) => if n <= u32::MAX as usize {
            n as u32
        } else {
            u32::MAX
        },
        None => 0,
    };
    let mem_total: u64 = match &h.meminfo {
        Some(s) => parse_meminfo(s.as_str()).total,
        None => 0,
    };
    HostInfo {
        hostname: trim_or_empty(&h.hostname),
        os,
        kernel: trim_or_empty(&h.kernel),
        arch: h.arch.clone(),
        cores,
        mem_total,
        agent_version: h.agent_version.clone(),
    }
}

} // verus!
