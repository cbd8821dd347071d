//! Reports: what is stored of them.

use crate::metrics::{DiskView, MetricsView, NetView};
use crate::server::handlers::ws_agent::{
    accepted, effects_of, in_window, largest_disk, main_disk, own_rows,
    row_of, root_disk, skewed, stays, storable, total_rx, total_tx, Found, Kind,
};
use vstd::prelude::*;
use vstd::string::*;

verus! {

// ---------------------------------------------------------------------------
// Rates of networks
// ---------------------------------------------------------------------------

/// What all interfaces receive.
pub open spec fn received(nets: Seq<NetView>) -> int {
    nets.fold_left(0, |sum: int, n: NetView| sum + n.rx_bps)
}

/// What all interfaces send.
pub open spec fn sent(nets: Seq<NetView>) -> int {
    nets.fold_left(0, |sum: int, n: NetView| sum + n.tx_bps)
}

/// The interfaces with what they receive and what they send exchanged.
pub open spec fn exchanged(nets: Seq<NetView>) -> Seq<NetView> {
    nets.map_values(|n: NetView| NetView { rx_bps: n.tx_bps, tx_bps: n.rx_bps, ..n })
}

proof fn lemma_sums(nets: Seq<NetView>)
    ensures
        received(nets) >= 0,
        sent(nets) >= 0,
        received(nets) <= i64::MAX ==> total_rx(nets) == received(nets),
        sent(nets) <= i64::MAX ==> total_tx(nets) == sent(nets),
        0 <= total_rx(nets),
        0 <= total_tx(nets),
    decreases nets.len(),
{
    reveal(Seq::fold_left);
    if nets.len() > 0 {
        lemma_sums(nets.drop_last());
    }
}

/// What is stored as received is the sum of what the interfaces receive, and what is stored as sent the
/// sum of what they send, where the sum can be stored. Neither depends on the other.
pub proof fn lemma_rates_add_up(v: MetricsView, ts: i64)
    ensures
        received(v.nets) <= i64::MAX ==> row_of(v, ts).net_rx_bps == received(v.nets),
        sent(v.nets) <= i64::MAX ==> row_of(v, ts).net_tx_bps == sent(v.nets),
        v.nets.len() == 0 ==> row_of(v, ts).net_rx_bps == 0 && row_of(v, ts).net_tx_bps == 0,
        v.nets.len() == 1 && v.nets[0].rx_bps <= i64::MAX ==> row_of(v, ts).net_rx_bps
            == v.nets[0].rx_bps,
        v.nets.len() == 1 && v.nets[0].tx_bps <= i64::MAX ==> row_of(v, ts).net_tx_bps
            == v.nets[0].tx_bps,
{
    lemma_sums(v.nets);
    if v.nets.len() == 1 {
        assert(v.nets.drop_last() =~= Seq::empty());
        assert(total_rx(Seq::<NetView>::empty()) == 0);
        assert(total_tx(Seq::<NetView>::empty()) == 0);
    }
}

proof fn lemma_exchanged_totals(nets: Seq<NetView>)
    ensures
        total_rx(exchanged(nets)) == total_tx(nets),
        total_tx(exchanged(nets)) == total_rx(nets),
    decreases nets.len(),
{
    if nets.len() > 0 {
        assert(exchanged(nets).drop_last() =~= exchanged(nets.drop_last()));
        lemma_exchanged_totals(nets.drop_last());
    }
}

/// A report with what is received and what is sent exchanged gives a row with the two exchanged, and
/// nothing else changed.
pub proof fn lemma_exchanged_rates(v: MetricsView, ts: i64)
    ensures
        ({
            let a = row_of(v, ts);
            let b = row_of(MetricsView { nets: exchanged(v.nets), ..v }, ts);
            &&& b.net_rx_bps == a.net_tx_bps
            &&& b.net_tx_bps == a.net_rx_bps
            &&& b == (crate::server::handlers::ws_agent::MetricRow {
                net_rx_bps: a.net_tx_bps,
                net_tx_bps: a.net_rx_bps,
                ..a
            })
        }),
{
    lemma_exchanged_totals(v.nets);
}

/// Where more is sent by one interface, no less is stored.
pub proof fn lemma_rates_grow(nets: Seq<NetView>, n: NetView)
    ensures
        total_rx(nets.push(n)) >= total_rx(nets),
        total_tx(nets.push(n)) >= total_tx(nets),
{
    lemma_sums(nets);
    assert(nets.push(n).drop_last() =~= nets);
}

// ---------------------------------------------------------------------------
// The other figures
// ---------------------------------------------------------------------------

/// Each figure of a report is stored under its own name: what can be stored is read back as it was
/// reported.
pub proof fn lemma_figures_are_read_back(v: MetricsView, ts: i64)
    ensures
        ({
            let r = row_of(v, ts);
            &&& r.ts == ts
            &&& r.cpu_pct == v.cpu_pct
            &&& r.load1 == v.load1
            &&& r.load5 == v.load5
            &&& r.load15 == v.load15
            &&& v.mem_total <= i64::MAX ==> r.mem_total == v.mem_total
            &&& v.mem_used <= i64::MAX ==> r.mem_used == v.mem_used
            &&& v.mem_available <= i64::MAX ==> r.mem_available == v.mem_available
            &&& v.swap_total <= i64::MAX ==> r.swap_total == v.swap_total
            &&& v.swap_used <= i64::MAX ==> r.swap_used == v.swap_used
            &&& v.disk_read_bps <= i64::MAX ==> r.disk_read_bps == v.disk_read_bps
            &&& v.disk_write_bps <= i64::MAX ==> r.disk_write_bps == v.disk_write_bps
            &&& v.uptime_secs <= i64::MAX ==> r.uptime_secs == v.uptime_secs
            &&& r.procs == v.procs
        }),
{
}

/// A number that cannot be stored becomes the largest that can; the order of numbers is kept.
pub proof fn lemma_storable(x: u64, y: u64)
    ensures
        x <= y ==> storable(x) <= storable(y),
        storable(x) <= x,
        x <= i64::MAX ==> storable(x) == x,
        x > i64::MAX ==> storable(x) == i64::MAX,
{
}

proof fn lemma_root(disks: Seq<DiskView>)
    ensures
        0 <= root_disk(disks) <= disks.len(),
        root_disk(disks) < disks.len() ==> disks[root_disk(disks)].mount == "/"@,
        forall|i: int| 0 <= i < root_disk(disks) ==> (#[trigger] disks[i]).mount != "/"@,
    decreases disks.len(),
{
    if disks.len() > 0 && disks[0].mount != "/"@ {
        let t = disks.drop_first();
        lemma_root(t);
        assert forall|i: int| 0 <= i < root_disk(disks) implies (#[trigger] disks[i]).mount
            != "/"@ by {
            if i > 0 {
                assert(disks[i] == t[i - 1]);
            }
        }
    }
}

proof fn lemma_largest(disks: Seq<DiskView>)
    requires
        disks.len() > 0,
    ensures
        0 <= largest_disk(disks) < disks.len(),
        forall|i: int|
            0 <= i < disks.len() ==> (#[trigger] disks[i]).total <= disks[largest_disk(disks)].total,
        forall|i: int|
            largest_disk(disks) < i < disks.len() ==> (#[trigger] disks[i]).total
                < disks[largest_disk(disks)].total,
    decreases disks.len(),
{
    if disks.len() > 1 {
        let t = disks.drop_last();
        lemma_largest(t);
        assert forall|i: int| 0 <= i < disks.len() implies (#[trigger] disks[i]).total <= disks[
            largest_disk(disks)
        ].total by {
            if i < t.len() {
                assert(t[i] == disks[i]);
            }
        }
        assert forall|i: int| largest_disk(disks) < i < disks.len() implies (#[trigger] disks[i]).total
            < disks[largest_disk(disks)].total by {
            if i < t.len() {
                assert(t[i] == disks[i]);
            }
        }
    }
}

/// The disk that stands for a machine is the first one mounted at the root, and without such a one a
/// largest of all. Size and use that are stored are those of that one disk.
pub proof fn lemma_disk_of_a_machine(v: MetricsView, ts: i64)
    ensures
        main_disk(v.disks) is None <==> v.disks.len() == 0,
        main_disk(v.disks) matches Some(d) ==> {
            &&& v.disks.contains(d)
            &&& (exists|i: int| 0 <= i < v.disks.len() && (#[trigger] v.disks[i]).mount == "/"@)
                ==> d.mount == "/"@
            &&& (forall|i: int| 0 <= i < v.disks.len() ==> (#[trigger] v.disks[i]).mount != "/"@)
                ==> forall|i: int|
                0 <= i < v.disks.len() ==> (#[trigger] v.disks[i]).total <= d.total
            &&& d.total <= i64::MAX ==> row_of(v, ts).disk_total == d.total
            &&& d.used <= i64::MAX ==> row_of(v, ts).disk_used == d.used
        },
        v.disks.len() == 0 ==> row_of(v, ts).disk_total == 0 && row_of(v, ts).disk_used == 0,
{
    lemma_root(v.disks);
    if v.disks.len() > 0 {
        lemma_largest(v.disks);
        let k = root_disk(v.disks);
        if k < v.disks.len() {
            assert(v.disks[k].mount == "/"@);
        }
    }
}

/// A clock that is off by as much as is allowed still counts, and by one second more does not, be it
/// ahead or behind.
pub proof fn lemma_clocks(now: i64, skew: i64)
    requires
        0 <= skew < 1_000_000,
        1_000_000 < now < i64::MAX - 1_000_000,
    ensures
        !skewed(now, now, skew),
        !skewed((now + skew) as i64, now, skew),
        !skewed((now - skew) as i64, now, skew),
        skewed((now + skew + 1) as i64, now, skew),
        skewed((now - skew - 1) as i64, now, skew),
        in_window((now + skew) as i64, now, skew),
        !in_window((now + skew + 1) as i64, now, skew),
        in_window((now - 7200) as i64, now, skew),
        !in_window((now - 7201) as i64, now, skew),
{
}

/// Reports from a time without connection are taken one by one: what becomes of a list is what becomes
/// of its parts, and each is stored under its own time.
pub proof fn lemma_reports_one_by_one(a: Seq<MetricsView>, b: Seq<MetricsView>, now: i64, skew: i64)
    ensures
        accepted(a + b, now, skew) == accepted(a, now, skew) + accepted(b, now, skew),
        own_rows(a + b) == own_rows(a) + own_rows(b),
        own_rows(a).len() == a.len(),
        forall|i: int| 0 <= i < a.len() ==> (#[trigger] own_rows(a)[i]).ts == a[i].ts,
        forall|i: int| 0 <= i < a.len() ==> #[trigger] own_rows(a)[i] == row_of(a[i], a[i].ts),
    decreases b.len(),
{
    assert(own_rows(a + b) =~= own_rows(a) + own_rows(b));
    if b.len() > 0 {
        lemma_reports_one_by_one(a, b.drop_last(), now, skew);
        assert((a + b).drop_last() =~= a + b.drop_last());
        assert(accepted(a + b, now, skew) =~= accepted(a, now, skew) + accepted(b, now, skew));
    } else {
        assert(a + b =~= a);
        assert(accepted(a, now, skew) + accepted(b, now, skew) =~= accepted(a, now, skew));
    }
}

/// Only a regular report is shown at once, held against the rules and counted as traffic; reports from
/// a time without connection do not even make an agent count as seen.
pub proof fn lemma_old_reports_do_nothing(kind: Kind)
    ensures
        effects_of(kind).live <==> kind is Point,
        effects_of(kind).judged <==> kind is Point,
        effects_of(kind).traffic <==> kind is Point,
        effects_of(kind).seen <==> !(kind is Points),
        stays(kind, Found::There),
        stays(kind, Found::Unknown) <==> !(kind is Points),
{
}

/// A report from a time without connection is taken, cleaned, where it is not older than two hours, not
/// further ahead than a clock may be, and possible; any other is passed over.
pub proof fn lemma_one_old_report(v: MetricsView, now: i64, skew: i64)
    requires
        0 <= now <= 0x4000_0000_0000_0000,
        0 <= skew <= 3600,
    ensures
        accepted(seq![v], now, skew) == if now - 7200 <= v.ts && v.ts <= now + skew
            && crate::metrics::admissible(v) {
            seq![crate::metrics::metrics_cleaned(v)]
        } else {
            Seq::<MetricsView>::empty()
        },
{
    assert(seq![v].drop_last() =~= Seq::empty());
    assert(accepted(Seq::<MetricsView>::empty(), now, skew) =~= Seq::empty());
    let c = crate::metrics::metrics_cleaned(v);
    assert(Seq::<MetricsView>::empty().push(c) =~= seq![c]);
}

} // verus!
