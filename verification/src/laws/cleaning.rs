//! Reports and names as they are taken in: what is kept of them, and what is cut.

use crate::common::{cleaned, first_chars, no_controls, without_controls};
use crate::measure::{
    lemma_named_values, lemma_rank_orders, Measure, BITS_0, BITS_100, BITS_100000, BITS_150,
    BITS_65535, BITS_MINUS_40,
};
use crate::metrics::{
    admissible, first_items, host_cleaned, metrics_cleaned, temp_cleaned, upto, HostView,
    MetricsView,
};
use crate::text::{is_control, is_space, trim_end, trim_start, trimmed};
use vstd::arithmetic::power2::pow2;
use crate::metrics::{fault, left_behind};
use vstd::prelude::*;

verus! {

// ---------------------------------------------------------------------------
// Texts
// ---------------------------------------------------------------------------

proof fn lemma_nothing_to_remove(s: Seq<char>)
    requires
        no_controls(s),
    ensures
        without_controls(s) == s,
    decreases s.len(),
{
    if s.len() > 0 {
        assert(!is_control(s[s.len() - 1]));
        let t = s.drop_last();
        assert forall|i: int| 0 <= i < t.len() implies !is_control(#[trigger] t[i]) by {
            assert(t[i] == s[i]);
        }
        lemma_nothing_to_remove(t);
        assert(t.push(s.last()) =~= s);
    }
}

/// A text without control characters, not too long and without white space at its ends is kept as it is;
/// one that is too long loses its end and nothing else.
pub proof fn lemma_clean_text_is_kept(s: Seq<char>, max: nat)
    requires
        no_controls(s),
    ensures
        s.len() <= max && (s.len() > 0 ==> !is_space(s[0]) && !is_space(s.last())) ==> cleaned(s, max)
            == s,
        s.len() > max && max > 0 && !is_space(s[0]) && !is_space(s[max - 1]) ==> cleaned(s, max)
            == s.take(max as int),
{
    lemma_nothing_to_remove(s);
    let t = first_chars(s, max);
    if t.len() > 0 && !is_space(t[0]) && !is_space(t.last()) {
        assert(trim_start(t) == t);
        assert(trim_end(t) == t);
        assert(trimmed(t) == t);
    }
    if s.len() > max && max > 0 {
        assert(t.last() == s[max - 1]);
    }
}

/// A control character leaves no trace, wherever it stands.
pub proof fn lemma_control_leaves_no_trace(a: Seq<char>, c: char, b: Seq<char>, max: nat)
    requires
        is_control(c),
    ensures
        cleaned(a + seq![c] + b, max) == cleaned(a + b, max),
{
    lemma_controls_go(a, c, b);
}

proof fn lemma_controls_go(a: Seq<char>, c: char, b: Seq<char>)
    requires
        is_control(c),
    ensures
        without_controls(a + seq![c] + b) == without_controls(a + b),
    decreases b.len(),
{
    if b.len() == 0 {
        assert(a + b =~= a);
        assert((a + seq![c] + b).drop_last() =~= a);
        assert((a + seq![c] + b).last() == c);
    } else {
        lemma_controls_go(a, c, b.drop_last());
        assert((a + seq![c] + b).drop_last() =~= a + seq![c] + b.drop_last());
        assert((a + b).drop_last() =~= a + b.drop_last());
        assert((a + seq![c] + b).last() == b.last());
        assert((a + b).last() == b.last());
    }
}

// ---------------------------------------------------------------------------
// Numbers
// ---------------------------------------------------------------------------

proof fn lemma_upto(v: Measure, hi: u64, n: int)
    requires
        v.finite(),
        (Measure { bits: hi }).finite(),
        (Measure { bits: hi }).scaled() == n * pow2(1074),
        0 <= n * pow2(1074),
    ensures
        v.scaled() < 0 ==> upto(v, hi).scaled() == 0,
        0 <= v.scaled() <= n * pow2(1074) ==> upto(v, hi) == v,
        v.scaled() > n * pow2(1074) ==> upto(v, hi).scaled() == n * pow2(1074),
        v.bounded(hi) == upto(v, hi),
{
    lemma_named_values();
    let (lo, h) = (Measure { bits: BITS_0 }, Measure { bits: hi });
    lemma_rank_orders(v, lo);
    lemma_rank_orders(h, v);
}

proof fn lemma_limits()
    ensures
        (Measure { bits: BITS_100 }).finite(),
        (Measure { bits: BITS_65535 }).finite(),
        (Measure { bits: BITS_100000 }).finite(),
        (Measure { bits: BITS_150 }).finite(),
        (Measure { bits: BITS_MINUS_40 }).finite(),
        pow2(1074) > 0,
{
    vstd::arithmetic::power2::lemma_pow2_pos(1074);
}

/// A share of the processors that is a number between 0 and 100 is kept, and one outside is moved to the
/// nearer end. A load likewise, between 0 and 65535.
pub proof fn lemma_loads(v: MetricsView)
    requires
        admissible(v),
    ensures
        ({
            let m = metrics_cleaned(v);
            &&& 0 <= v.cpu_pct.scaled() <= 100 * pow2(1074) ==> m.cpu_pct == v.cpu_pct
            &&& v.cpu_pct.scaled() < 0 ==> m.cpu_pct.scaled() == 0
            &&& v.cpu_pct.scaled() > 100 * pow2(1074) ==> m.cpu_pct.scaled() == 100 * pow2(1074)
            &&& 0 <= v.load1.scaled() <= 65535 * pow2(1074) ==> m.load1 == v.load1
            &&& 0 <= v.load5.scaled() <= 65535 * pow2(1074) ==> m.load5 == v.load5
            &&& 0 <= v.load15.scaled() <= 65535 * pow2(1074) ==> m.load15 == v.load15
            &&& v.load1.scaled() > 65535 * pow2(1074) ==> m.load1.scaled() == 65535 * pow2(1074)
            &&& v.load5.scaled() > 65535 * pow2(1074) ==> m.load5.scaled() == 65535 * pow2(1074)
            &&& v.load15.scaled() > 65535 * pow2(1074) ==> m.load15.scaled() == 65535 * pow2(1074)
            &&& v.load1.scaled() < 0 ==> m.load1.scaled() == 0
            &&& v.load5.scaled() < 0 ==> m.load5.scaled() == 0
            &&& v.load15.scaled() < 0 ==> m.load15.scaled() == 0
        }),
{
    lemma_limits();
    lemma_named_values();
    lemma_upto(v.cpu_pct, BITS_100, 100);
    lemma_upto(v.load1, BITS_65535, 65535);
    lemma_upto(v.load5, BITS_65535, 65535);
    lemma_upto(v.load15, BITS_65535, 65535);
}

/// A temperature is kept where it is a number from -40 to 150, and dropped otherwise.
pub proof fn lemma_temperature(t: Measure)
    requires
        t.finite(),
    ensures
        temp_cleaned(Some(t)) == if -40 * pow2(1074) <= t.scaled() && t.scaled() <= 150 * pow2(1074) {
            Some(t)
        } else {
            None
        },
        temp_cleaned(None) is None,
{
    lemma_limits();
    lemma_named_values();
    lemma_rank_orders(t, Measure { bits: BITS_MINUS_40 });
    lemma_rank_orders(Measure { bits: BITS_150 }, t);
    lemma_rank_orders(Measure { bits: BITS_MINUS_40 }, t);
    lemma_rank_orders(t, Measure { bits: BITS_150 });
}

/// What a report says of sizes, rates and times is kept, but that no part is larger than its whole.
pub proof fn lemma_figures_are_kept(v: MetricsView)
    requires
        admissible(v),
    ensures
        ({
            let m = metrics_cleaned(v);
            &&& m.ts == v.ts
            &&& m.mem_total == v.mem_total
            &&& v.mem_used <= v.mem_total ==> m.mem_used == v.mem_used
            &&& v.mem_used > v.mem_total ==> m.mem_used == v.mem_total
            &&& v.mem_available <= v.mem_total ==> m.mem_available == v.mem_available
            &&& v.mem_available > v.mem_total ==> m.mem_available == v.mem_total
            &&& m.swap_total == v.swap_total
            &&& v.swap_used <= v.swap_total ==> m.swap_used == v.swap_used
            &&& v.swap_used > v.swap_total ==> m.swap_used == v.swap_total
            &&& m.disk_read_bps == v.disk_read_bps
            &&& m.disk_write_bps == v.disk_write_bps
            &&& m.disk_read_iops == v.disk_read_iops
            &&& m.disk_write_iops == v.disk_write_iops
            &&& m.uptime_secs == v.uptime_secs
            &&& m.procs == v.procs
            &&& v.tcp_conns is Some && v.tcp_conns->0 <= 10_000_000 ==> m.tcp_conns == v.tcp_conns
            &&& v.tcp_estab is Some && v.tcp_estab->0 <= 10_000_000 ==> m.tcp_estab == v.tcp_estab
            &&& v.tcp_listen is Some && v.tcp_listen->0 <= 10_000_000 ==> m.tcp_listen == v.tcp_listen
            &&& v.tcp_time_wait is Some && v.tcp_time_wait->0 <= 10_000_000 ==> m.tcp_time_wait
                == v.tcp_time_wait
            &&& v.tcp_conns is Some && v.tcp_conns->0 > 10_000_000 ==> m.tcp_conns is None
            &&& v.tcp_estab is Some && v.tcp_estab->0 > 10_000_000 ==> m.tcp_estab is None
            &&& v.tcp_listen is Some && v.tcp_listen->0 > 10_000_000 ==> m.tcp_listen is None
            &&& v.tcp_time_wait is Some && v.tcp_time_wait->0 > 10_000_000 ==> m.tcp_time_wait is None
        }),
{
}

/// The length of a list that is cut behind `n` entries.
pub open spec fn cut(len: nat, n: nat) -> nat {
    if len <= n {
        len
    } else {
        n
    }
}

/// A report keeps the first entries of each of its lists, in their order, up to the list's limit.
pub proof fn lemma_lists_are_cut(v: MetricsView)
    ensures
        ({
            let m = metrics_cleaned(v);
            &&& m.disks.len() == cut(v.disks.len(), 16)
            &&& m.nets.len() == cut(v.nets.len(), 16)
            &&& m.procs_watch.len() == cut(v.procs_watch.len(), 12)
            &&& m.cpu_per_core.len() == cut(v.cpu_per_core.len(), 128)
            &&& m.services.len() == cut(v.services.len(), 20)
            &&& m.top_procs.len() == cut(v.top_procs.len(), 10)
            &&& m.containers.len() == cut(v.containers.len(), 30)
        }),
{
}

/// Each mount point, interface and service is kept as it was told, under its cleaned name, but that no
/// part is larger than its whole.
pub proof fn lemma_entries_are_kept(v: MetricsView, i: int)
    requires
        admissible(v),
    ensures
        ({
            let m = metrics_cleaned(v);
            &&& 0 <= i < m.disks.len() ==> {
                let (a, b) = (v.disks[i], m.disks[i]);
                &&& b.mount == cleaned(a.mount, 128)
                &&& b.fs == cleaned(a.fs, 32)
                &&& b.total == a.total
                &&& a.used <= a.total ==> b.used == a.used
                &&& a.used > a.total ==> b.used == a.total
                &&& a.inodes_used <= a.inodes_total <= 0x100_0000_0000 ==> b.inodes_total
                    == a.inodes_total && b.inodes_used == a.inodes_used
                &&& b.inodes_used <= b.inodes_total
            }
            &&& 0 <= i < m.nets.len() ==> {
                let (a, b) = (v.nets[i], m.nets[i]);
                &&& b.name == cleaned(a.name, 32)
                &&& b.rx_bytes == a.rx_bytes
                &&& b.tx_bytes == a.tx_bytes
                &&& b.rx_bps == a.rx_bps
                &&& b.tx_bps == a.tx_bps
            }
            &&& 0 <= i < m.services.len() ==> {
                let (a, b) = (v.services[i], m.services[i]);
                &&& b.name == cleaned(a.name, 64)
                &&& b.active == a.active
            }
        }),
{
}

/// Each process, container and processor is kept as it was told, where what was told is possible.
pub proof fn lemma_busy_entries_are_kept(v: MetricsView, i: int)
    requires
        admissible(v),
    ensures
        ({
            let m = metrics_cleaned(v);
            let hundred = 100 * pow2(1074);
            &&& 0 <= i < m.procs_watch.len() ==> {
                let (a, b) = (v.procs_watch[i], m.procs_watch[i]);
                &&& b.name == cleaned(a.name, 32)
                &&& b.running == a.running
                &&& a.count <= 1_000_000 ==> b.count == a.count
                &&& a.rss <= 0x1000_0000_0000_0000 ==> b.rss == a.rss
                &&& a.cpu_pct.finite() && 0 <= a.cpu_pct.scaled() <= hundred ==> b.cpu_pct
                    == a.cpu_pct
                &&& a.cpu_pct.finite() && a.cpu_pct.scaled() > hundred ==> b.cpu_pct.scaled()
                    == hundred
            }
            &&& 0 <= i < m.top_procs.len() ==> {
                let (a, b) = (v.top_procs[i], m.top_procs[i]);
                &&& b.name == cleaned(a.name, 32)
                &&& a.rss <= 0x1000_0000_0000_0000 ==> b.rss == a.rss
                &&& a.cpu_pct.finite() && 0 <= a.cpu_pct.scaled() <= hundred ==> b.cpu_pct
                    == a.cpu_pct
                &&& a.cpu_pct.finite() && a.cpu_pct.scaled() > hundred ==> b.cpu_pct.scaled()
                    == hundred
            }
            &&& 0 <= i < m.containers.len() ==> {
                let (a, b) = (v.containers[i], m.containers[i]);
                &&& b.name == cleaned(a.name, 64)
                &&& b.state == cleaned(a.state, 32)
                &&& a.mem_used <= 0x1000_0000_0000_0000 ==> b.mem_used == a.mem_used
                &&& a.mem_limit <= 0x1000_0000_0000_0000 ==> b.mem_limit == a.mem_limit
                &&& a.cpu_pct.finite() && 0 <= a.cpu_pct.scaled() <= 1000 * hundred ==> b.cpu_pct
                    == a.cpu_pct
            }
            &&& 0 <= i < m.cpu_per_core.len() ==> {
                let (a, b) = (v.cpu_per_core[i], m.cpu_per_core[i]);
                &&& a.finite() && 0 <= a.scaled() <= hundred ==> b == a
                &&& a.finite() && a.scaled() > hundred ==> b.scaled() == hundred
                &&& !a.finite() ==> b.scaled() == 0
            }
        }),
{
    lemma_limits();
    lemma_named_values();
    let m = metrics_cleaned(v);
    if 0 <= i < m.procs_watch.len() && v.procs_watch[i].cpu_pct.finite() {
        lemma_upto(v.procs_watch[i].cpu_pct, BITS_100, 100);
    }
    if 0 <= i < m.top_procs.len() && v.top_procs[i].cpu_pct.finite() {
        lemma_upto(v.top_procs[i].cpu_pct, BITS_100, 100);
    }
    if 0 <= i < m.containers.len() && v.containers[i].cpu_pct.finite() {
        lemma_upto(v.containers[i].cpu_pct, BITS_100000, 100000);
    }
    if 0 <= i < m.cpu_per_core.len() && v.cpu_per_core[i].finite() {
        lemma_upto(v.cpu_per_core[i], BITS_100, 100);
    }
}

/// A report is taken in exactly where its numbers are numbers and nothing in what is kept of it is larger
/// than can be.
pub proof fn lemma_admissible(v: MetricsView)
    ensures
        admissible(v) <==> {
            &&& v.cpu_pct.finite() && v.load1.finite() && v.load5.finite() && v.load15.finite()
            &&& v.mem_total <= 0x1000_0000_0000_0000 && v.swap_total <= 0x1000_0000_0000_0000
            &&& v.disk_read_bps <= 0x4_0000_0000_0000 && v.disk_write_bps <= 0x4_0000_0000_0000
            &&& v.disk_read_iops <= 0x4_0000_0000_0000 && v.disk_write_iops <= 0x4_0000_0000_0000
            &&& v.uptime_secs <= 50 * 366 * 86_400 && v.procs <= 4_000_000
            &&& forall|i: int|
                0 <= i < v.disks.len() && i < 16 ==> (#[trigger] v.disks[i]).total
                    <= 0x1000_0000_0000_0000
            &&& forall|i: int|
                0 <= i < v.nets.len() && i < 16 ==> (#[trigger] v.nets[i]).rx_bps
                    <= 0x4_0000_0000_0000 && v.nets[i].tx_bps <= 0x4_0000_0000_0000
        },
{
    let (d, n) = (first_items(v.disks, 16), first_items(v.nets, 16));
    assert(forall|i: int| 0 <= i < d.len() ==> d[i] == v.disks[i]);
    assert(forall|i: int| 0 <= i < n.len() ==> n[i] == v.nets[i]);
    if admissible(v) {
        assert forall|i: int| 0 <= i < v.disks.len() && i < 16 implies (#[trigger] v.disks[i]).total
            <= 0x1000_0000_0000_0000 by {
            assert(d[i] == v.disks[i]);
        }
        assert forall|i: int| 0 <= i < v.nets.len() && i < 16 implies (#[trigger] v.nets[i]).rx_bps
            <= 0x4_0000_0000_0000 && v.nets[i].tx_bps <= 0x4_0000_0000_0000 by {
            assert(!crate::metrics::bad_net(n[i]));
        }
    }
}

/// What a machine is, is kept under its own headings.
pub proof fn lemma_machine_is_kept(h: HostView)
    ensures
        host_cleaned(h).hostname == cleaned(h.hostname, 64),
        host_cleaned(h).os == cleaned(h.os, 96),
        host_cleaned(h).kernel == cleaned(h.kernel, 64),
        host_cleaned(h).arch == cleaned(h.arch, 16),
        host_cleaned(h).agent_version == cleaned(h.agent_version, 32),
        h.cores <= 4096 ==> host_cleaned(h).cores == h.cores,
        h.mem_total <= 0x1000_0000_0000_0000 ==> host_cleaned(h).mem_total == h.mem_total,
{
}

/// A report that is refused is told what is wrong with it: the first that is, of the loads, the memory,
/// the counters, the mount points, the interfaces and the rates of the disks.
pub proof fn lemma_what_is_wrong(v: MetricsView)
    requires
        !admissible(v),
    ensures
        ({
            let loads = v.cpu_pct.finite() && v.load1.finite() && v.load5.finite()
                && v.load15.finite();
            let memory = v.mem_total <= 0x1000_0000_0000_0000 && v.swap_total
                <= 0x1000_0000_0000_0000;
            let counters = v.disk_read_bps <= 0x4_0000_0000_0000 && v.disk_write_bps
                <= 0x4_0000_0000_0000 && v.uptime_secs <= 50 * 366 * 86_400 && v.procs <= 4_000_000;
            let disks = forall|i: int|
                0 <= i < v.disks.len() && i < 16 ==> (#[trigger] v.disks[i]).total
                    <= 0x1000_0000_0000_0000;
            &&& !loads ==> fault(v) == "non-finite float"@
            &&& loads && !memory ==> fault(v) == "memory size out of range"@
            &&& loads && memory && !counters ==> fault(v) == "counter out of range"@
            &&& loads && memory && counters && !disks ==> fault(v) == "disk size out of range"@
            &&& loads && memory && counters && disks ==> fault(v) == "net rate out of range"@
                || fault(v) == "iops out of range"@
        }),
{
    let d = first_items(v.disks, 16);
    assert(forall|i: int| 0 <= i < d.len() ==> d[i] == v.disks[i]);
    if crate::metrics::disks_possible(v) {
        assert forall|i: int| 0 <= i < v.disks.len() && i < 16 implies (#[trigger] v.disks[i]).total
            <= 0x1000_0000_0000_0000 by {
            assert(d[i] == v.disks[i]);
        }
    }
}

/// Of a report that is refused nothing is touched that comes behind what is wrong with it: not its time,
/// its processes, services and containers, nor anything at all where its first number is none.
pub proof fn lemma_what_a_refused_report_keeps(v: MetricsView)
    requires
        !admissible(v),
    ensures
        ({
            let m = left_behind(v);
            &&& m.ts == v.ts
            &&& m.uptime_secs == v.uptime_secs && m.procs == v.procs
            &&& m.procs_watch == v.procs_watch
            &&& m.cpu_per_core == v.cpu_per_core
            &&& m.services == v.services
            &&& m.top_procs == v.top_procs
            &&& m.containers == v.containers
            &&& m.tcp_estab == v.tcp_estab && m.tcp_listen == v.tcp_listen
            &&& m.mem_total == v.mem_total && m.swap_total == v.swap_total
            &&& !v.cpu_pct.finite() ==> m == v
            &&& !v.load1.finite() ==> m.load1 == v.load1 && m.load5 == v.load5 && m.load15 == v.load15
            &&& v.mem_total > 0x1000_0000_0000_0000 ==> m.mem_used == v.mem_used && m.disks == v.disks
                && m.nets == v.nets
            &&& v.uptime_secs > 50 * 366 * 86_400 ==> m.disks == v.disks && m.nets == v.nets
        }),
{
}

/// What comes before the fault of a refused report is cleaned as in one that is taken.
pub proof fn lemma_what_a_refused_report_cleans(v: MetricsView)
    requires
        !admissible(v),
    ensures
        ({
            let (m, c) = (left_behind(v), metrics_cleaned(v));
            let loads = v.cpu_pct.finite() && v.load1.finite() && v.load5.finite()
                && v.load15.finite();
            let memory = v.mem_total <= 0x1000_0000_0000_0000 && v.swap_total
                <= 0x1000_0000_0000_0000;
            &&& v.cpu_pct.finite() ==> m.cpu_pct == c.cpu_pct
            &&& v.cpu_pct.finite() && v.load1.finite() ==> m.load1 == c.load1
            &&& v.cpu_pct.finite() && v.load1.finite() && v.load5.finite() ==> m.load5 == c.load5
            &&& loads ==> m.load15 == c.load15
            &&& loads && memory ==> m.mem_used == c.mem_used && m.mem_available == c.mem_available
                && m.swap_used == c.swap_used
            &&& loads && !memory ==> m.mem_used == v.mem_used && m.swap_used == v.swap_used
        }),
{
}

} // verus!
