//! The channel that agents report over: who may open it, what becomes of each message, and when it
//! is closed.

use crate::agent::session::{chunks, BACKFILL_CHUNK, MAX_BUFFER};
use crate::metrics::{
    admissible, clean_host_info, fault, first_items, host_cleaned, metrics_cleaned,
    validate_and_clean_metrics, AgentToServer, DiskUsage, DiskView, HostInfo, Metrics, MetricsView,
    NetIf, NetView, ServerToAgent,
};
use crate::measure::Measure;
use crate::num::{nearest_i64, sat_add, sat_sub};
use crate::server::apiauth::{bearer, borne};
use crate::server::db::text_view;
use crate::server::errors::{refusal, AppError, ErrorView};
use crate::server::ratelimit::since;
use crate::server::session::{digest, digest_of, has_token_shape, token_shape};
use crate::server::util::ct_eq;
use crate::text::{same, views};
use vstd::prelude::*;
use vstd::string::*;

verus! {

/// How old a report from a time without connection may be, in seconds.
pub const MAX_BACKFILL_AGE: i64 = 7200;

/// The most reports of one message from a time without connection that are looked at.
pub const MAX_POINTS: usize = 500;

// ---------------------------------------------------------------------------
// Who may open the channel
// ---------------------------------------------------------------------------

/// The token of an agent that an authorization header brings, where it has the shape of one.
pub open spec fn agent_token(header: Option<Seq<char>>) -> Option<Seq<char>> {
    match borne(header) {
        Some(t) => if token_shape(t) {
            Some(t)
        } else {
            None
        },
        None => None,
    }
}

/// The digest by which the agent of a request is looked up.
pub fn agent_key(header: Option<&str>) -> (r: Result<String, AppError>)
    ensures
        refusal(r) == if agent_token(text_view(header)) is Some {
            None::<ErrorView>
        } else {
            Some(ErrorView::Unauthorized)
        },
        r matches Ok(k) ==> k@ == digest_of(agent_token(text_view(header))->0),
{
    match bearer(header) {
        Some(t) => if has_token_shape(t.as_str()) {
            Ok(digest(t.as_str()))
        } else {
            Err(AppError::Unauthorized)
        },
        None => Err(AppError::Unauthorized),
    }
}

/// A stored agent.
#[derive(Debug)]
pub struct AgentRow {
    pub id: i64,
    pub token_hash: String,
    pub revoked: i64,
}

/// Whether the stored agent is the one that was looked up by `key`, and its token still counts. The
/// channel is opened only then.
pub fn upgrade(row: Option<&AgentRow>, key: &str) -> (r: Result<i64, AppError>)
    ensures
        refusal(r) == match row {
            Some(a) => if a.token_hash@ == key@ && a.revoked == 0 {
                None::<ErrorView>
            } else {
                Some(ErrorView::Unauthorized)
            },
            None => Some(ErrorView::Unauthorized),
        },
        r matches Ok(id) ==> row is Some && id == (row->0).id,
{
    match row {
        Some(a) => if ct_eq(a.token_hash.as_str(), key) && a.revoked == 0 {
            Ok(a.id)
        } else {
            Err(AppError::Unauthorized)
        },
        None => Err(AppError::Unauthorized),
    }
}

// ---------------------------------------------------------------------------
// What is stored of a report
// ---------------------------------------------------------------------------

/// The nearest number that can be stored.
pub open spec fn storable(x: u64) -> i64 {
    if x <= i64::MAX {
        x as i64
    } else {
        i64::MAX
    }
}

/// The nearest number that can be stored.
pub fn to_storable(x: u64) -> (r: i64)
    ensures
        r == storable(x),
{
    if x <= i64::MAX as u64 {
        x as i64
    } else {
        i64::MAX
    }
}

/// A rate as it is added up; one that cannot be stored does not count.
pub open spec fn countable(x: u64) -> i64 {
    if x <= i64::MAX {
        x as i64
    } else {
        0
    }
}

/// What all network interfaces receive together, at most what can be stored.
pub open spec fn total_rx(nets: Seq<NetView>) -> i64
    decreases nets.len(),
{
    if nets.len() == 0 {
        0
    } else {
        nearest_i64(total_rx(nets.drop_last()) + countable(nets.last().rx_bps))
    }
}

/// What all network interfaces send together, at most what can be stored.
pub open spec fn total_tx(nets: Seq<NetView>) -> i64
    decreases nets.len(),
{
    if nets.len() == 0 {
        0
    } else {
        nearest_i64(total_tx(nets.drop_last()) + countable(nets.last().tx_bps))
    }
}

/// The position of the first disk that is mounted at the root; behind the end where there is none.
pub open spec fn root_disk(disks: Seq<DiskView>) -> int
    decreases disks.len(),
{
    if disks.len() == 0 || disks[0].mount == "/"@ {
        0
    } else {
        1 + root_disk(disks.drop_first())
    }
}

/// The position of the last of the largest disks.
pub open spec fn largest_disk(disks: Seq<DiskView>) -> int
    decreases disks.len(),
{
    if disks.len() <= 1 {
        0
    } else {
        let b = largest_disk(disks.drop_last());
        if disks.last().total >= disks[b].total {
            disks.len() - 1
        } else {
            b
        }
    }
}

/// The disk that stands for a machine: the one mounted at the root, or else the largest.
pub open spec fn main_disk(disks: Seq<DiskView>) -> Option<DiskView> {
    if root_disk(disks) < disks.len() {
        Some(disks[root_disk(disks)])
    } else if disks.len() > 0 {
        Some(disks[largest_disk(disks)])
    } else {
        None
    }
}

/// Size and use of the disk that stands for a machine.
pub open spec fn main_disk_use(disks: Seq<DiskView>) -> (i64, i64) {
    match main_disk(disks) {
        Some(d) => (storable(d.total), storable(d.used)),
        None => (0, 0),
    }
}

proof fn lemma_root_disk(disks: Seq<DiskView>, k: int)
    requires
        0 <= k <= disks.len(),
        forall|j: int| 0 <= j < k ==> (#[trigger] disks[j]).mount != "/"@,
        k < disks.len() ==> disks[k].mount == "/"@,
    ensures
        root_disk(disks) == k,
    decreases k,
{
    if k > 0 {
        assert(disks[0].mount != "/"@);
        let t = disks.drop_first();
        assert forall|j: int| 0 <= j < k - 1 implies (#[trigger] t[j]).mount != "/"@ by {
            assert(t[j] == disks[j + 1]);
        }
        lemma_root_disk(t, k - 1);
    }
}

/// Size and use of the disk that stands for a machine.
pub fn build_detail(disks: &[DiskUsage]) -> (r: (i64, i64))
    ensures
        r == main_disk_use(views(disks@)),
{
    let ghost all = views(disks@);
    let n: usize = disks.len();
    let mut i: usize = 0;
    while i < n
        invariant
            all == views(disks@),
            n == disks@.len(),
            i <= n,
            forall|j: int| 0 <= j < i ==> (#[trigger] all[j]).mount != "/"@,
        decreases n - i,
    {
        assert(all[i as int] == disks@[i as int]@);
        if same(disks[i].mount.as_str(), "/") {
            proof {
                lemma_root_disk(all, i as int);
            }
            return (to_storable(disks[i].total), to_storable(disks[i].used));
        }
        i = i + 1;
    }
    proof {
        lemma_root_disk(all, n as int);
    }
    if n == 0 {
        return (0, 0);
    }
    let mut b: usize = 0;
    let mut k: usize = 1;
    while k < n
        invariant
            all == views(disks@),
            n == disks@.len(),
            1 <= k <= n,
            b < k,
            b == largest_disk(all.take(k as int)),
        decreases n - k,
    {
        assert(all.take(k + 1).drop_last() =~= all.take(k as int));
        assert(all.take(k + 1)[b as int] == disks@[b as int]@);
        assert(all.take(k + 1).last() == disks@[k as int]@);
        if disks[k].total >= disks[b].total {
            b = k;
        }
        k = k + 1;
    }
    assert(all.take(n as int) =~= all);
    assert(all[b as int] == disks@[b as int]@);
    (to_storable(disks[b].total), to_storable(disks[b].used))
}

/// A report as it is stored, under the time `ts`.
#[derive(Debug, Clone, Copy, PartialEq, Eq, Structural)]
pub struct MetricRow {
    pub ts: i64,
    pub cpu_pct: Measure,
    pub load1: Measure,
    pub load5: Measure,
    pub load15: Measure,
    pub mem_total: i64,
    pub mem_used: i64,
    pub mem_available: i64,
    pub swap_total: i64,
    pub swap_used: i64,
    pub disk_total: i64,
    pub disk_used: i64,
    pub disk_read_bps: i64,
    pub disk_write_bps: i64,
    pub net_rx_bps: i64,
    pub net_tx_bps: i64,
    pub uptime_secs: i64,
    pub procs: i64,
}

/// A report as it is stored, under the time `ts`.
pub open spec fn row_of(v: MetricsView, ts: i64) -> MetricRow {
    MetricRow {
        ts,
        cpu_pct: v.cpu_pct,
        load1: v.load1,
        load5: v.load5,
        load15: v.load15,
        mem_total: storable(v.mem_total),
        mem_used: storable(v.mem_used),
        mem_available: storable(v.mem_available),
        swap_total: storable(v.swap_total),
        swap_used: storable(v.swap_used),
        disk_total: main_disk_use(v.disks).0,
        disk_used: main_disk_use(v.disks).1,
        disk_read_bps: storable(v.disk_read_bps),
        disk_write_bps: storable(v.disk_write_bps),
        net_rx_bps: total_rx(v.nets),
        net_tx_bps: total_tx(v.nets),
        uptime_secs: storable(v.uptime_secs),
        procs: v.procs as i64,
    }
}

fn sum_rates(nets: &[NetIf]) -> (r: (i64, i64))
    ensures
        r.0 == total_rx(views(nets@)),
        r.1 == total_tx(views(nets@)),
{
    let ghost all = views(nets@);
    let mut rx: i64 = 0;
    let mut tx: i64 = 0;
    let mut i: usize = 0;
    assert(all.take(0) =~= Seq::empty());
    while i < nets.len()
        invariant
            all == views(nets@),
            i <= nets@.len(),
            rx == total_rx(all.take(i as int)),
            tx == total_tx(all.take(i as int)),
        decreases nets@.len() - i,
    {
        assert(all.take(i + 1).drop_last() =~= all.take(i as int));
        assert(all.take(i + 1).last() == nets@[i as int]@);
        let a: u64 = nets[i].rx_bps;
        let b: u64 = nets[i].tx_bps;
        rx = sat_add(rx, if a <= i64::MAX as u64 {
            a as i64
        } else {
            0
        });
        tx = sat_add(tx, if b <= i64::MAX as u64 {
            b as i64
        } else {
            0
        });
        i = i + 1;
    }
    assert(all.take(i as int) =~= all);
    (rx, tx)
}

/// A report as it is stored, under the time `ts`.
pub fn metric_row(m: &Metrics, ts: i64) -> (r: MetricRow)
    ensures
        r == row_of(m@, ts),
{
    let (disk_total, disk_used): (i64, i64) = build_detail(m.disks.as_slice());
    let (net_rx_bps, net_tx_bps): (i64, i64) = sum_rates(m.nets.as_slice());
    MetricRow {
        ts,
        cpu_pct: m.cpu_pct,
        load1: m.load1,
        load5: m.load5,
        load15: m.load15,
        mem_total: to_storable(m.mem_total),
        mem_used: to_storable(m.mem_used),
        mem_available: to_storable(m.mem_available),
        swap_total: to_storable(m.swap_total),
        swap_used: to_storable(m.swap_used),
        disk_total,
        disk_used,
        disk_read_bps: to_storable(m.disk_read_bps),
        disk_write_bps: to_storable(m.disk_write_bps),
        net_rx_bps,
        net_tx_bps,
        uptime_secs: to_storable(m.uptime_secs),
        procs: m.procs as i64,
    }
}

// ---------------------------------------------------------------------------
// What becomes of a message
// ---------------------------------------------------------------------------

/// What becomes of a message.
#[derive(Debug)]
pub enum Intake {
    /// What the machine is, cleaned.
    Host { host: HostInfo },
    /// A report, cleaned, and as it is stored: under the time of the server.
    Point { metrics: Metrics, row: MetricRow },
    /// Nothing: the clock of the agent is too far off.
    Skewed,
    /// Nothing: the report cannot be true.
    Refused { why: &'static str },
    /// The reports that are accepted, cleaned, and as they are stored: under their own times.
    Points { points: Vec<Metrics>, rows: Vec<MetricRow> },
}

/// The clocks of agent and server are too far apart.
pub open spec fn skewed(ts: i64, now: i64, skew: i64) -> bool {
    ts - now > skew || now - ts > skew
}

/// A report from a time without connection is not from the future and not too old.
pub open spec fn in_window(ts: i64, now: i64, skew: i64) -> bool {
    nearest_i64(now - MAX_BACKFILL_AGE) <= ts <= nearest_i64(now + skew)
}

/// A report from a time without connection is accepted.
pub open spec fn acceptable(v: MetricsView, now: i64, skew: i64) -> bool {
    in_window(v.ts, now, skew) && admissible(v)
}

/// The reports that are accepted, cleaned.
pub open spec fn accepted(v: Seq<MetricsView>, now: i64, skew: i64) -> Seq<MetricsView>
    decreases v.len(),
{
    if v.len() == 0 {
        Seq::empty()
    } else if acceptable(v.last(), now, skew) {
        accepted(v.drop_last(), now, skew).push(metrics_cleaned(v.last()))
    } else {
        accepted(v.drop_last(), now, skew)
    }
}

/// Reports as they are stored, under their own times.
pub open spec fn own_rows(v: Seq<MetricsView>) -> Seq<MetricRow> {
    v.map_values(|m: MetricsView| row_of(m, m.ts))
}

proof fn lemma_cleaning_keeps_the_time(v: MetricsView)
    ensures
        metrics_cleaned(v).ts == v.ts,
{
}

fn take_points(points: Vec<Metrics>, now: i64, skew: i64) -> (r: (Vec<Metrics>, Vec<MetricRow>))
    ensures
        views(r.0@) == accepted(first_items(views(points@), MAX_POINTS as int), now, skew),
        r.1@ == own_rows(views(r.0@)),
{
    let mut points = points;
    let ghost given = views(points@);
    let ghost all = first_items(given, MAX_POINTS as int);
    if points.len() > MAX_POINTS {
        points.truncate(MAX_POINTS);
    }
    assert(views(points@) =~= all);
    let mut back: Vec<Metrics> = Vec::new();
    let ghost n = points@.len();
    while points.len() > 0
        invariant
            n == all.len(),
            points@.len() + back@.len() == n,
            views(points@) == all.take(points@.len() as int),
            forall|j: int| 0 <= j < back@.len() ==> (#[trigger] back@[j])@ == all[n - 1 - j],
        decreases points@.len(),
    {
        let ghost before = points@;
        match points.pop() {
            Some(p) => {
                assert(p@ == views(before)[before.len() - 1]);
                back.push(p);
                assert(views(points@) =~= all.take(points@.len() as int));
            },
            None => {},
        }
    }
    let mut out: Vec<Metrics> = Vec::new();
    let mut rows: Vec<MetricRow> = Vec::new();
    assert(all.take(0) =~= Seq::empty());
    assert(views(out@) =~= Seq::empty());
    assert(rows@ =~= own_rows(views(out@)));
    while back.len() > 0
        invariant
            n == all.len(),
            back@.len() <= n,
            forall|j: int| 0 <= j < back@.len() ==> (#[trigger] back@[j])@ == all[n - 1 - j],
            views(out@) == accepted(all.take(n - back@.len()), now, skew),
            rows@ == own_rows(views(out@)),
        decreases back@.len(),
    {
        let ghost k = n - back@.len();
        let ghost before = views(out@);
        match back.pop() {
            Some(p) => {
                let mut p = p;
                assert(p@ == all[k]);
                assert(all.take(k + 1).drop_last() =~= all.take(k));
                assert(all.take(k + 1).last() == all[k]);
                if p.ts <= sat_add(now, skew) && p.ts >= sat_sub(now, MAX_BACKFILL_AGE) {
                    match validate_and_clean_metrics(&mut p) {
                        Ok(()) => {
                            let row = metric_row(&p, p.ts);
                            rows.push(row);
                            out.push(p);
                            assert(views(out@) =~= before.push(p@));
                            assert(rows@ =~= own_rows(views(out@)));
                        },
                        Err(_) => {},
                    }
                }
            },
            None => {},
        }
    }
    assert(all.take(n as int) =~= all);
    (out, rows)
}

/// What becomes of a message that arrives at the time `now`, where clocks may be `skew` seconds
/// apart.
pub open spec fn intake_of(m: AgentToServer, now: i64, skew: i64, r: Intake) -> bool {
    match m {
        AgentToServer::Hello { host } => r matches Intake::Host { host: h } && h@ == host_cleaned(
            host@,
        ),
        AgentToServer::Metrics { metrics } => if skewed(metrics@.ts, now, skew) {
            r is Skewed
        } else if !admissible(metrics@) {
            r matches Intake::Refused { why } && why@ == fault(metrics@)
        } else {
            r matches Intake::Point { metrics: c, row } && c@ == metrics_cleaned(metrics@) && row
                == row_of(c@, now)
        },
        AgentToServer::Backfill { points } => r matches Intake::Points { points: p, rows }
            && views(p@) == accepted(first_items(views(points@), MAX_POINTS as int), now, skew)
            && rows@ == own_rows(views(p@)),
    }
}

/// What becomes of a message.
pub fn handle_msg(m: AgentToServer, now: i64, skew: i64) -> (r: Intake)
    ensures
        intake_of(m, now, skew, r),
{
    match m {
        AgentToServer::Hello { host } => Intake::Host { host: clean_host_info(&host) },
        AgentToServer::Metrics { metrics } => {
            let mut c = metrics;
            let off: i128 = c.ts as i128 - now as i128;
            if off > skew as i128 || -off > skew as i128 {
                return Intake::Skewed;
            }
            match validate_and_clean_metrics(&mut c) {
                Ok(()) => {
                    let row = metric_row(&c, now);
                    Intake::Point { metrics: c, row }
                },
                Err(why) => Intake::Refused { why },
            }
        },
        AgentToServer::Backfill { points } => {
            let (points, rows) = take_points(points, now, skew);
            Intake::Points { points, rows }
        },
    }
}

/// Whatever an agent sends, what is stored of it carries a time that the server can answer for: that
/// of the server for a regular report; for one from a time without connection its own, which is
/// neither in the future beyond the permitted skew nor more than two hours old.
pub proof fn lemma_stored_times(m: AgentToServer, now: i64, skew: i64, r: Intake)
    requires
        intake_of(m, now, skew, r),
    ensures
        r matches Intake::Point { metrics, row } ==> row.ts == now,
        r matches Intake::Points { points, rows } ==> forall|i: int|
            0 <= i < rows@.len() ==> in_window((#[trigger] rows@[i]).ts, now, skew),
{
    if let AgentToServer::Backfill { points } = m {
        let v = first_items(views(points@), MAX_POINTS as int);
        lemma_accepted_in_window(v, now, skew);
        if let Intake::Points { points: p, rows } = r {
            assert forall|i: int| 0 <= i < rows@.len() implies in_window(
                (#[trigger] rows@[i]).ts,
                now,
                skew,
            ) by {
                assert(rows@[i].ts == views(p@)[i].ts);
            }
        }
    }
}

proof fn lemma_accepted_in_window(v: Seq<MetricsView>, now: i64, skew: i64)
    ensures
        forall|i: int|
            0 <= i < accepted(v, now, skew).len() ==> in_window(
                (#[trigger] accepted(v, now, skew)[i]).ts,
                now,
                skew,
            ),
        accepted(v, now, skew).len() <= v.len(),
    decreases v.len(),
{
    if v.len() > 0 {
        lemma_accepted_in_window(v.drop_last(), now, skew);
        lemma_cleaning_keeps_the_time(v.last());
        let a = accepted(v.drop_last(), now, skew);
        assert forall|i: int| 0 <= i < accepted(v, now, skew).len() implies in_window(
            (#[trigger] accepted(v, now, skew)[i]).ts,
            now,
            skew,
        ) by {
            if i < a.len() {
                assert(accepted(v, now, skew)[i] == a[i]);
            }
        }
    }
}

/// One message from a time without connection never stores more than its limit.
pub proof fn lemma_backfill_bounded(m: AgentToServer, now: i64, skew: i64, r: Intake)
    requires
        intake_of(m, now, skew, r),
    ensures
        r matches Intake::Points { points, rows } ==> rows@.len() <= MAX_POINTS,
{
    if let AgentToServer::Backfill { points } = m {
        lemma_accepted_in_window(first_items(views(points@), MAX_POINTS as int), now, skew);
    }
}

// ---------------------------------------------------------------------------
// What the store says, and what follows
// ---------------------------------------------------------------------------

/// The kinds of messages.
#[derive(Debug, Clone, Copy, PartialEq, Eq, Structural)]
pub enum Kind {
    Host,
    Point,
    Points,
}

/// What the store says of the agent, whose token must still count.
#[derive(Debug, Clone, Copy, PartialEq, Eq, Structural)]
pub enum Found {
    /// It is there.
    There,
    /// It is not there, or its token was revoked.
    Gone,
    /// The store does not answer.
    Unknown,
}

/// The connection stays open.
pub open spec fn stays(kind: Kind, found: Found) -> bool {
    match kind {
        Kind::Host => found != Found::Gone,
        Kind::Point => found != Found::Gone,
        Kind::Points => found == Found::There,
    }
}

/// The message is stored.
pub open spec fn is_stored(found: Found) -> bool {
    found == Found::There
}

/// What follows from what the store says of the agent: whether the connection stays open, and
/// whether the message is stored.
pub fn after_lookup(kind: Kind, found: Found) -> (r: (bool, bool))
    ensures
        r.0 == stays(kind, found),
        r.1 == is_stored(found),
{
    let stay = match kind {
        Kind::Host => found != Found::Gone,
        Kind::Point => found != Found::Gone,
        Kind::Points => found == Found::There,
    };
    (stay, found == Found::There)
}

/// A token that was revoked counts no more from the next message on, whatever it is: the connection is
/// closed, and nothing is stored.
pub proof fn lemma_revoked_at_once(kind: Kind)
    ensures
        !stays(kind, Found::Gone),
        !is_stored(Found::Gone),
{
}

/// Whether a report is stored only where its node has none of the same time yet: so it is with
/// reports from a time without connection, which may come more than once.
pub fn keeps_first(kind: Kind) -> (r: bool)
    ensures
        r == (kind is Points),
{
    match kind {
        Kind::Points => true,
        Kind::Point => false,
        Kind::Host => false,
    }
}

/// The times of the stored reports of a node after one more was handed to the store.
pub open spec fn times_after(kind: Kind, times: Seq<i64>, ts: i64) -> Seq<i64> {
    if kind is Points && times.contains(ts) {
        times
    } else {
        times.push(ts)
    }
}

/// The times of the stored reports of a node after reports from a time without connection.
pub open spec fn times_after_all(times: Seq<i64>, rows: Seq<MetricRow>) -> Seq<i64>
    decreases rows.len(),
{
    if rows.len() == 0 {
        times
    } else {
        times_after(Kind::Points, times_after_all(times, rows.drop_last()), rows.last().ts)
    }
}

/// Reports from a time without connection leave what is stored as it is: none of them is added where
/// its node has one of the same time, be it from before or from the same message.
pub proof fn lemma_backfill_repeats_nothing(times: Seq<i64>, rows: Seq<MetricRow>)
    ensures
        ({
            let n = times_after_all(times, rows);
            &&& times.len() <= n.len() <= times.len() + rows.len()
            &&& n.take(times.len() as int) == times
            &&& forall|i: int, j: int|
                #![trigger n[i], n[j]]
                0 <= i < j < n.len() && times.len() <= j ==> n[i] != n[j]
        }),
    decreases rows.len(),
{
    if rows.len() > 0 {
        lemma_backfill_repeats_nothing(times, rows.drop_last());
        let before = times_after_all(times, rows.drop_last());
        let n = times_after_all(times, rows);
        assert(n.take(times.len() as int) =~= before.take(times.len() as int));
    } else {
        assert(times.take(times.len() as int) =~= times);
    }
}

/// What a message does beside being stored.
#[derive(Debug, Clone, Copy, PartialEq, Eq, Structural)]
pub struct Effects {
    /// The agent counts as seen now.
    pub seen: bool,
    /// Users see it at once.
    pub live: bool,
    /// It is held against the rules for alerts.
    pub judged: bool,
    /// It counts as traffic.
    pub traffic: bool,
}

/// What a message does beside being stored. Reports from a time without connection do nothing more:
/// what is old must not raise an alert.
pub open spec fn effects_of(kind: Kind) -> Effects {
    match kind {
        Kind::Host => Effects { seen: true, live: false, judged: false, traffic: false },
        Kind::Point => Effects { seen: true, live: true, judged: true, traffic: true },
        Kind::Points => Effects { seen: false, live: false, judged: false, traffic: false },
    }
}

/// What a message does beside being stored.
pub fn effects(kind: Kind) -> (r: Effects)
    ensures
        r == effects_of(kind),
{
    match kind {
        Kind::Host => Effects { seen: true, live: false, judged: false, traffic: false },
        Kind::Point => Effects { seen: true, live: true, judged: true, traffic: true },
        Kind::Points => Effects { seen: false, live: false, judged: false, traffic: false },
    }
}

// ---------------------------------------------------------------------------
// How much an agent may send
// ---------------------------------------------------------------------------

/// The most messages in one burst.
pub const BUDGET_BURST: u64 = 120;

/// The messages that are added each second.
pub const BUDGET_RATE: u64 = 8;

/// One message, in the unit that allowances are counted in: so many nanoseconds make a second.
pub const MESSAGE: u64 = 1_000_000_000;

/// What a connection may still send, and when that was worked out.
#[derive(Debug, Clone, Copy, PartialEq, Eq, Structural)]
pub struct Budget {
    pub tokens: u64,
    pub last: u64,
}

/// A connection may send no more than one burst ahead.
pub open spec fn budget_ok(b: Budget) -> bool {
    b.tokens <= BUDGET_BURST * MESSAGE
}

/// What a connection may send at the time `now`.
pub open spec fn available(b: Budget, now: u64) -> int {
    let t = b.tokens + BUDGET_RATE * since(b.last, now);
    if t <= BUDGET_BURST * MESSAGE {
        t
    } else {
        BUDGET_BURST * MESSAGE
    }
}

/// What is left after a message that counts for `cost`, and whether it is let through.
pub open spec fn paid(b: Budget, cost: int, now: u64) -> (Budget, bool) {
    let t = available(b, now);
    if t >= cost * MESSAGE {
        (Budget { tokens: (t - cost * MESSAGE) as u64, last: now }, true)
    } else {
        (Budget { tokens: t as u64, last: now }, false)
    }
}

/// So many reports from a time without connection count for one message. With this, all that an
/// agent keeps while it has no connection passes in one burst.
pub const POINTS_PER_MESSAGE: usize = 10;

/// What so many reports from a time without connection count for.
pub open spec fn points_weight(n: int) -> int {
    if n == 0 {
        1
    } else {
        (n + POINTS_PER_MESSAGE - 1) / POINTS_PER_MESSAGE as int
    }
}

/// What a message counts for: the more, the more reports it brings.
pub open spec fn weight(m: AgentToServer) -> int {
    match m {
        AgentToServer::Backfill { points } => points_weight(points@.len() as int),
        _ => 1,
    }
}

/// What a message counts for.
pub fn cost_of(m: &AgentToServer) -> (r: usize)
    ensures
        r == weight(*m),
{
    match m {
        AgentToServer::Backfill { points } => {
            let n: usize = points.len();
            if n == 0 {
                1
            } else {
                (n - 1) / POINTS_PER_MESSAGE + 1
            }
        },
        _ => 1,
    }
}

impl Budget {
    /// The allowance of a new connection: a whole burst.
    pub fn new(now: u64) -> (r: Self)
        ensures
            r.tokens == BUDGET_BURST * MESSAGE,
            r.last == now,
    {
        Budget { tokens: BUDGET_BURST * MESSAGE, last: now }
    }

    /// A message that counts for `cost` arrives at the time `now`, in nanoseconds. Whether it is let
    /// through; where it is not, the connection is closed.
    pub fn pay(&mut self, cost: usize, now: u64) -> (r: bool)
        requires
            budget_ok(*old(self)),
        ensures
            budget_ok(*final(self)),
            (*final(self), r) == paid(*old(self), cost as int, now),
    {
        let passed: u64 = if now >= self.last {
            now - self.last
        } else {
            0
        };
        let full: u128 = BUDGET_BURST as u128 * MESSAGE as u128;
        let added: u128 = 8 * passed as u128;
        let t0: u128 = self.tokens as u128 + added;
        let t: u128 = if t0 <= full {
            t0
        } else {
            full
        };
        let price: u128 = cost as u128 * MESSAGE as u128;
        self.last = now;
        if t >= price {
            self.tokens = (t - price) as u64;
            true
        } else {
            self.tokens = t as u64;
            false
        }
    }
}

/// What is left of an allowance after some messages, each with what it counts for and when it
/// arrives, and how much was let through.
pub open spec fn after_messages(b: Budget, messages: Seq<(nat, u64)>) -> (Budget, int)
    decreases messages.len(),
{
    if messages.len() == 0 {
        (b, 0)
    } else {
        let (c, n) = after_messages(b, messages.drop_last());
        let (d, ok) = paid(c, messages.last().0 as int, messages.last().1);
        (d, if ok {
            n + messages.last().0
        } else {
            n
        })
    }
}

/// However an agent spreads its messages, no more is let through than one burst and what is added in
/// the time that passes.
pub proof fn lemma_uplink_bound(b: Budget, messages: Seq<(nat, u64)>)
    requires
        budget_ok(b),
        forall|i: int, j: int|
            #![trigger messages[i], messages[j]]
            0 <= i <= j < messages.len() ==> messages[i].1 <= messages[j].1,
        messages.len() > 0 ==> b.last <= messages[0].1,
    ensures
        budget_ok(after_messages(b, messages).0),
        messages.len() == 0 ==> after_messages(b, messages).0.last == b.last,
        messages.len() > 0 ==> after_messages(b, messages).0.last == messages.last().1,
        after_messages(b, messages).1 * MESSAGE + after_messages(b, messages).0.tokens
            <= BUDGET_BURST * MESSAGE + BUDGET_RATE * (after_messages(b, messages).0.last - b.last),
    decreases messages.len(),
{
    if messages.len() > 0 {
        let t = messages.drop_last();
        assert forall|i: int, j: int|
            #![trigger t[i], t[j]]
            0 <= i <= j < t.len() implies t[i].1 <= t[j].1 by {
            assert(messages[i].1 <= messages[j].1);
        }
        if t.len() > 0 {
            assert(t[0] == messages[0]);
            assert(messages[messages.len() - 2].1 <= messages[messages.len() - 1].1);
        }
        lemma_uplink_bound(b, t);
    }
}

/// What some messages count for together.
pub open spec fn total_weight(messages: Seq<(nat, u64)>) -> nat
    decreases messages.len(),
{
    if messages.len() == 0 {
        0
    } else {
        total_weight(messages.drop_last()) + messages.last().0
    }
}

proof fn lemma_total_weight(a: Seq<(nat, u64)>, b: Seq<(nat, u64)>)
    ensures
        total_weight(a + b) == total_weight(a) + total_weight(b),
    decreases b.len(),
{
    if b.len() == 0 {
        assert(a + b =~= a);
    } else {
        lemma_total_weight(a, b.drop_last());
        assert((a + b).drop_last() =~= a + b.drop_last());
    }
}

proof fn lemma_burst_passes(b: Budget, messages: Seq<(nat, u64)>)
    requires
        budget_ok(b),
        forall|i: int| 0 <= i < messages.len() ==> (#[trigger] messages[i]).1 == b.last,
        total_weight(messages) * MESSAGE <= b.tokens,
    ensures
        after_messages(b, messages).1 == total_weight(messages),
        after_messages(b, messages).0.tokens == b.tokens - total_weight(messages) * MESSAGE,
        after_messages(b, messages).0.last == b.last,
    decreases messages.len(),
{
    if messages.len() > 0 {
        let t = messages.drop_last();
        assert(messages[messages.len() - 1].1 == b.last);
        assert forall|i: int| 0 <= i < t.len() implies (#[trigger] t[i]).1 == b.last by {
            assert(t[i] == messages[i]);
        }
        lemma_burst_passes(b, t);
    }
}

/// The messages with which an agent sends what it kept, at one time.
pub open spec fn backfill_messages<A>(kept: Seq<A>, now: u64) -> Seq<(nat, u64)> {
    chunks(kept).map_values(|c: Seq<A>| (points_weight(c.len() as int) as nat, now))
}

proof fn lemma_backfill_weight<A>(kept: Seq<A>, now: u64)
    ensures
        total_weight(backfill_messages(kept, now)) <= (kept.len() + 9) / 10,
    decreases kept.len(),
{
    let all = backfill_messages(kept, now);
    if kept.len() > 0 {
        let first = first_items(kept, BACKFILL_CHUNK as int);
        let rest = kept.skip(first.len() as int);
        lemma_backfill_weight(rest, now);
        let m = (points_weight(first.len() as int) as nat, now);
        assert(chunks(kept) == seq![first] + chunks(rest));
        assert(all =~= seq![m] + backfill_messages(rest, now));
        lemma_total_weight(seq![m], backfill_messages(rest, now));
        assert(seq![m].drop_last() =~= Seq::empty());
        assert(total_weight(seq![m]) == m.0) by {
            reveal_with_fuel(total_weight, 2);
        }
    } else {
        assert(all =~= Seq::empty());
    }
}

/// The limit does not stand in the way of an agent that comes back: its first message and all that it
/// kept pass at once on a new connection.
pub proof fn lemma_returning_agent_passes<A>(kept: Seq<A>, now: u64)
    requires
        kept.len() <= MAX_BUFFER,
    ensures
        ({
            let messages = seq![(1nat, now)] + backfill_messages(kept, now);
            let b = Budget { tokens: (BUDGET_BURST * MESSAGE) as u64, last: now };
            after_messages(b, messages).1 == total_weight(messages)
        }),
{
    let hello = seq![(1nat, now)];
    let messages = hello + backfill_messages(kept, now);
    let b = Budget { tokens: (BUDGET_BURST * MESSAGE) as u64, last: now };
    lemma_backfill_weight(kept, now);
    lemma_total_weight(hello, backfill_messages(kept, now));
    assert(hello.drop_last() =~= Seq::empty());
    assert(total_weight(hello) == 1) by {
        reveal_with_fuel(total_weight, 2);
    }
    assert forall|i: int| 0 <= i < messages.len() implies (#[trigger] messages[i]).1 == b.last by {
        if i > 0 {
            assert(messages[i] == backfill_messages(kept, now)[i - 1]);
        }
    }
    lemma_burst_passes(b, messages);
}

// ---------------------------------------------------------------------------
// The connection
// ---------------------------------------------------------------------------

/// For how long a connection may be silent, in nanoseconds.
pub const SILENCE_NANOS: u64 = 120_000_000_000;

/// What happens on a connection.
#[derive(Debug, Clone, Copy, PartialEq, Eq, Structural)]
pub enum ConnEvent {
    /// It is time to look; so long ago, in nanoseconds, something came.
    Tick { silent: u64 },
    /// The interval between reports was changed.
    Interval { secs: u32 },
    /// An administrator asks for a new version of the agent.
    Upgrade,
    /// A message that can be understood, and what it counts for.
    Message { cost: usize },
    /// A message that cannot be understood.
    Malformed,
    /// A message that is no text.
    Binary,
    /// A sign of life.
    Control,
    /// The agent closes the connection, or it is lost.
    Closed,
}

/// What to do about it.
#[derive(Debug)]
pub enum ConnAction {
    /// Ask for a sign of life.
    Ping,
    /// Send this.
    Send(ServerToAgent),
    /// Handle the message.
    Handle,
    /// Nothing.
    Ignore,
    /// Close the connection.
    Disconnect,
}

/// What something that an agent sends counts for: one, where it cannot be understood. A sign of life
/// counts for nothing.
pub open spec fn sent_cost(e: ConnEvent) -> Option<nat> {
    match e {
        ConnEvent::Message { cost } => Some(cost as nat),
        ConnEvent::Malformed => Some(1),
        ConnEvent::Binary => Some(1),
        _ => None,
    }
}

/// What to do about what happens on a connection.
pub open spec fn conn_answer(e: ConnEvent, b: Budget, now: u64, r: ConnAction) -> bool {
    match e {
        ConnEvent::Tick { silent } => if silent > SILENCE_NANOS {
            r is Disconnect
        } else {
            r is Ping
        },
        ConnEvent::Interval { secs } => r matches ConnAction::Send(m) && m
            matches ServerToAgent::UpdateConfig { report_interval_secs } && report_interval_secs
            == secs,
        ConnEvent::Upgrade => r matches ConnAction::Send(m) && m is Upgrade,
        ConnEvent::Message { cost } => if paid(b, cost as int, now).1 {
            r is Handle
        } else {
            r is Disconnect
        },
        ConnEvent::Malformed => if paid(b, 1, now).1 {
            r is Ignore
        } else {
            r is Disconnect
        },
        ConnEvent::Binary => if paid(b, 1, now).1 {
            r is Ignore
        } else {
            r is Disconnect
        },
        ConnEvent::Control => r is Ignore,
        ConnEvent::Closed => r is Disconnect,
    }
}

/// What to do about what happens on a connection. A message that cannot be understood is dropped, but
/// counts like any other; an agent that is silent for too long or sends too much is disconnected.
pub fn conn_loop(e: ConnEvent, budget: &mut Budget, now: u64) -> (r: ConnAction)
    requires
        budget_ok(*old(budget)),
    ensures
        budget_ok(*final(budget)),
        conn_answer(e, *old(budget), now, r),
        *final(budget) == match sent_cost(e) {
            Some(cost) => paid(*old(budget), cost as int, now).0,
            None => *old(budget),
        },
{
    match e {
        ConnEvent::Tick { silent } => if silent > SILENCE_NANOS {
            ConnAction::Disconnect
        } else {
            ConnAction::Ping
        },
        ConnEvent::Interval { secs } => ConnAction::Send(
            ServerToAgent::UpdateConfig { report_interval_secs: secs },
        ),
        ConnEvent::Upgrade => ConnAction::Send(ServerToAgent::Upgrade),
        ConnEvent::Message { cost } => if budget.pay(cost, now) {
            ConnAction::Handle
        } else {
            ConnAction::Disconnect
        },
        ConnEvent::Malformed => if budget.pay(1, now) {
            ConnAction::Ignore
        } else {
            ConnAction::Disconnect
        },
        ConnEvent::Binary => if budget.pay(1, now) {
            ConnAction::Ignore
        } else {
            ConnAction::Disconnect
        },
        ConnEvent::Control => ConnAction::Ignore,
        ConnEvent::Closed => ConnAction::Disconnect,
    }
}

/// Whatever an agent sends too much of, understood or not, ends its connection.
pub proof fn lemma_too_much_disconnects(e: ConnEvent, b: Budget, now: u64, r: ConnAction)
    requires
        conn_answer(e, b, now, r),
        sent_cost(e) is Some,
    ensures
        r is Disconnect <==> !paid(b, sent_cost(e)->0 as int, now).1,
{
}

/// Nothing that an agent sends makes the server send it anything: all that travels to an agent is the
/// interval that was set, or the request for a new version that an administrator made.
pub proof fn lemma_agents_are_not_answered(e: ConnEvent, b: Budget, now: u64, r: ConnAction)
    requires
        conn_answer(e, b, now, r),
        r is Send,
    ensures
        e is Interval || e is Upgrade,
{
}

} // verus!
