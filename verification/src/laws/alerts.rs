//! Alerts: what a report says, when a rule is broken, and what becomes of each rule.

use crate::measure::{exponent, fraction, lemma_rank_orders, Measure};
use crate::metrics::{DiskView, MetricsView, ServiceView};
use crate::server::alerts::{
    advanced, after_report, after_silence, applies, core_reading, covers, disk_totals, down_count,
    fire_after, inode_totals, judged, known_comparator, known_metric, known_severity,
    largest_share, metric_reading, pruned, roc_window, severity_rank, silence_secs, standing, watched,
    watched_upto, without_node, without_rule, Breach, CoreRow, RuleLite, Shares, Silence, Step, Turn,
};
use vstd::prelude::*;
use vstd::string::*;

verus! {

// ---------------------------------------------------------------------------
// Readings
// ---------------------------------------------------------------------------

/// The names of the metrics differ.
pub proof fn lemma_metric_names()
    ensures
        "cpu_pct"@.len() == 7 && "cpu_pct"@[0] == 'c',
        "mem_pct"@.len() == 7 && "mem_pct"@[0] == 'm',
        "offline"@.len() == 7 && "offline"@[0] == 'o',
        "disk_pct"@.len() == 8 && "disk_pct"@[0] == 'd',
        "swap_pct"@.len() == 8 && "swap_pct"@[0] == 's',
        "cpu_temp"@.len() == 8 && "cpu_temp"@[0] == 'c',
        "load1"@.len() == 5,
        "tcp_conns"@.len() == 9 && "tcp_conns"@[0] == 't',
        "inode_pct"@.len() == 9 && "inode_pct"@[0] == 'i',
        "services_down"@.len() == 13,
{
    reveal_strlit("cpu_pct");
    reveal_strlit("mem_pct");
    reveal_strlit("offline");
    reveal_strlit("disk_pct");
    reveal_strlit("swap_pct");
    reveal_strlit("cpu_temp");
    reveal_strlit("load1");
    reveal_strlit("tcp_conns");
    reveal_strlit("inode_pct");
    reveal_strlit("services_down");
}

proof fn lemma_largest(totals: Seq<u64>, shares: Seq<Measure>)
    requires
        totals.len() == shares.len(),
        forall|i: int| 0 <= i < shares.len() ==> (#[trigger] shares[i]).finite(),
    ensures
        largest_share(totals, shares) is None <==> forall|i: int|
            0 <= i < totals.len() ==> #[trigger] totals[i] == 0,
        largest_share(totals, shares) matches Some(x) ==> x.finite() && (exists|i: int|
            0 <= i < totals.len() && #[trigger] totals[i] > 0 && x == shares[i]) && (forall|i: int|
            0 <= i < totals.len() && #[trigger] totals[i] > 0 ==> shares[i].scaled() <= x.scaled()),
    decreases totals.len(),
{
    if totals.len() > 0 {
        let n = totals.len() - 1;
        let (a, b) = (totals.drop_last(), shares.drop_last());
        assert forall|i: int| 0 <= i < b.len() implies (#[trigger] b[i]).finite() by {
            assert(b[i] == shares[i]);
        }
        lemma_largest(a, b);
        assert(shares[n].finite());
        assert(forall|i: int| 0 <= i < n ==> #[trigger] totals[i] == a[i] && shares[i] == b[i]);
        match largest_share(a, b) {
            Some(y) => {
                lemma_rank_orders(y, shares[n]);
                let k = choose|i: int| 0 <= i < a.len() && #[trigger] a[i] > 0 && y == b[i];
                assert(totals[k] > 0 && y == shares[k]);
            },
            None => {
                assert forall|i: int| 0 <= i < n implies #[trigger] totals[i] == 0 by {
                    assert(a[i] == 0);
                }
            },
        }
        if largest_share(totals, shares) is None {
            assert forall|i: int| 0 <= i < totals.len() implies #[trigger] totals[i] == 0 by {
                if i < n {
                    assert(a[i] == 0);
                }
            }
        } else {
            assert(totals[n] > 0 || exists|i: int| 0 <= i < n && #[trigger] a[i] != 0);
            if totals[n] == 0 {
                let i = choose|i: int| 0 <= i < n && #[trigger] a[i] != 0;
                assert(totals[i] != 0);
            }
        }
    }
}

/// A mount point that says how much of it is used.
pub open spec fn has_size(d: DiskView) -> bool {
    d.total > 0
}

/// A mount point that says how many of its inodes are used.
pub open spec fn has_inodes(d: DiskView) -> bool {
    d.inodes_total > 0
}

/// Of the disks of a machine the fullest mount point counts, in whatever order they stand: what is
/// read is the share of one that has a size, and none that has one is fuller. The same holds of
/// inodes. Without a mount point that has a size, the main disk stands in, where it has one.
pub proof fn lemma_fullest_mount_point(v: MetricsView, disk_total: i64, p: Shares)
    requires
        p.disks@.len() == v.disks.len(),
        p.inodes@.len() == v.disks.len(),
        forall|i: int| 0 <= i < v.disks.len() ==> (#[trigger] p.disks@[i]).finite(),
        forall|i: int| 0 <= i < v.disks.len() ==> (#[trigger] p.inodes@[i]).finite(),
    ensures
        (exists|i: int| 0 <= i < v.disks.len() && has_size(#[trigger] v.disks[i])) ==> (
        metric_reading("disk_pct"@, v, disk_total, p) matches Some(x) && (exists|i: int|
            0 <= i < v.disks.len() && has_size(#[trigger] v.disks[i]) && x == p.disks@[i]) && (
        forall|i: int|
            0 <= i < v.disks.len() && has_size(#[trigger] v.disks[i]) ==> p.disks@[i].scaled()
                <= x.scaled())),
        (forall|i: int| 0 <= i < v.disks.len() ==> !has_size(#[trigger] v.disks[i])) ==> (
        metric_reading("disk_pct"@, v, disk_total, p) == if disk_total > 0 {
            Some(p.main_disk)
        } else {
            None
        }),
        (exists|i: int| 0 <= i < v.disks.len() && has_inodes(#[trigger] v.disks[i])) ==> (
        metric_reading("inode_pct"@, v, disk_total, p) matches Some(x) && (exists|i: int|
            0 <= i < v.disks.len() && has_inodes(#[trigger] v.disks[i]) && x == p.inodes@[i]) && (
        forall|i: int|
            0 <= i < v.disks.len() && has_inodes(#[trigger] v.disks[i]) ==> p.inodes@[i].scaled()
                <= x.scaled())),
        (forall|i: int| 0 <= i < v.disks.len() ==> !has_inodes(#[trigger] v.disks[i]))
            ==> metric_reading("inode_pct"@, v, disk_total, p) is None,
{
    lemma_metric_names();
    let t = disk_totals(v);
    let u = inode_totals(v);
    lemma_largest(t, p.disks@);
    lemma_largest(u, p.inodes@);
    assert(forall|i: int| 0 <= i < v.disks.len() ==> (#[trigger] t[i] > 0) == has_size(v.disks[i]));
    assert(forall|i: int|
        0 <= i < v.disks.len() ==> (#[trigger] u[i] > 0) == has_inodes(v.disks[i]));
    assert forall|i: int| 0 <= i < v.disks.len() && has_size(#[trigger] v.disks[i]) implies t[i]
        > 0 by {}
    assert forall|i: int| 0 <= i < v.disks.len() && has_inodes(#[trigger] v.disks[i]) implies u[i]
        > 0 by {}
    if exists|i: int| 0 <= i < v.disks.len() && has_size(#[trigger] v.disks[i]) {
        let k = choose|i: int| 0 <= i < v.disks.len() && has_size(#[trigger] v.disks[i]);
        assert(t[k] > 0);
        let x = largest_share(t, p.disks@)->0;
        let j = choose|i: int| 0 <= i < t.len() && #[trigger] t[i] > 0 && x == p.disks@[i];
        assert(has_size(v.disks[j]));
    } else {
        assert(largest_share(t, p.disks@) is None) by {
            assert forall|i: int| 0 <= i < t.len() implies #[trigger] t[i] == 0 by {
                assert(!has_size(v.disks[i]));
            }
        }
    }
    if exists|i: int| 0 <= i < v.disks.len() && has_inodes(#[trigger] v.disks[i]) {
        let k = choose|i: int| 0 <= i < v.disks.len() && has_inodes(#[trigger] v.disks[i]);
        assert(u[k] > 0);
        let x = largest_share(u, p.inodes@)->0;
        let j = choose|i: int| 0 <= i < u.len() && #[trigger] u[i] > 0 && x == p.inodes@[i];
        assert(has_inodes(v.disks[j]));
    } else {
        assert(largest_share(u, p.inodes@) is None) by {
            assert forall|i: int| 0 <= i < u.len() implies #[trigger] u[i] == 0 by {
                assert(!has_inodes(v.disks[i]));
            }
        }
    }
}

/// Each metric is read off the figure of its name, and off nothing else: reports that agree on that
/// figure give the same reading, whatever else they hold.
pub proof fn lemma_readings_of_their_own(
    v: MetricsView,
    w: MetricsView,
    a: i64,
    b: i64,
    p: Shares,
    q: Shares,
)
    ensures
        metric_reading("cpu_pct"@, v, a, p) == Some(v.cpu_pct),
        metric_reading("load1"@, v, a, p) == Some(v.load1),
        metric_reading("cpu_temp"@, v, a, p) == v.cpu_temp_c,
        metric_reading("mem_pct"@, v, a, p) == metric_reading("mem_pct"@, w, b, q) <==> p.mem
            == q.mem,
        metric_reading("mem_pct"@, v, a, p) == Some(p.mem),
        metric_reading("swap_pct"@, v, a, p) == Some(p.swap),
        metric_reading("services_down"@, v, a, p) == Some(p.services_down),
        metric_reading("tcp_conns"@, v, a, p) is Some <==> v.tcp_conns is Some,
        v.tcp_conns is Some ==> metric_reading("tcp_conns"@, v, a, p) == Some(p.tcp_conns),
        metric_reading("offline"@, v, a, p) is None,
        forall|name: Seq<char>|
            #[trigger] metric_reading(name, v, a, p) is Some ==> known_metric(name),
{
    lemma_metric_names();
}

/// As many services are down as the report holds that are not active.
pub proof fn lemma_services_down(s: Seq<ServiceView>)
    ensures
        down_count(s) == s.filter(|x: ServiceView| !x.active).len(),
    decreases s.len(),
{
    reveal(Seq::filter);
    if s.len() > 0 {
        lemma_services_down(s.drop_last());
    }
}

/// The figures of a machine one span ago are told apart as those of now are: where they are the same,
/// each metric with a past reads the same then and now.
pub proof fn lemma_past_reads_like_present(v: MetricsView, disk_total: i64, p: Shares, name: Seq<char>)
    requires
        v.disks.len() == 0,
        p.disks@.len() == 0,
        disk_total > 0,
    ensures
        ({
            let row = CoreRow {
                cpu_pct: v.cpu_pct,
                load1: v.load1,
                mem_pct: p.mem,
                disk_pct: p.main_disk,
                swap_pct: p.swap,
            };
            core_reading(name, row) is Some ==> core_reading(name, row) == metric_reading(
                name,
                v,
                disk_total,
                p,
            )
        }),
{
    lemma_metric_names();
}

// ---------------------------------------------------------------------------
// When a rule is broken
// ---------------------------------------------------------------------------

proof fn lemma_unsigned(d: Measure)
    requires
        d.finite(),
    ensures
        d.unsigned().finite(),
        d.unsigned().scaled() == if d.scaled() < 0 {
            -d.scaled()
        } else {
            d.scaled()
        },
{
    let u = d.unsigned();
    assert(exponent(u.bits) == exponent(d.bits) && fraction(u.bits) == fraction(d.bits));
    assert(u.scaled() >= 0) by {
        let zero = Measure { bits: 0 };
        lemma_rank_orders(zero, u);
        assert(zero.scaled() == 0);
    }
}

proof fn lemma_at_most(a: Measure, b: Measure)
    requires
        a.finite(),
        b.finite(),
    ensures
        a.at_most(b) <==> a.scaled() <= b.scaled(),
{
    lemma_rank_orders(a, b);
}

/// A rule is broken by the number that it compares: above or below the threshold, at it or not, as the
/// comparator says; with a rate of change where the value rose or fell by the threshold at least. What
/// is reported is the value, or the change. Without a past, no change breaks a rule.
pub proof fn lemma_broken_by_the_number(
    threshold: Measure,
    value: Measure,
    change: Option<Measure>,
)
    requires
        threshold.finite(),
        value.finite(),
        change matches Some(d) ==> d.finite(),
    ensures
        judged("gt"@, threshold, value, change).0 <==> value.scaled() > threshold.scaled(),
        judged("gte"@, threshold, value, change).0 <==> value.scaled() >= threshold.scaled(),
        judged("lt"@, threshold, value, change).0 <==> value.scaled() < threshold.scaled(),
        judged("lte"@, threshold, value, change).0 <==> value.scaled() <= threshold.scaled(),
        judged("roc"@, threshold, value, change).0 <==> change is Some && ((change->0).scaled()
            >= threshold.scaled() || -(change->0).scaled() >= threshold.scaled()),
        judged("gt"@, threshold, value, change).1 == value,
        judged("gte"@, threshold, value, change).1 == value,
        judged("lt"@, threshold, value, change).1 == value,
        judged("lte"@, threshold, value, change).1 == value,
        change is Some ==> judged("roc"@, threshold, value, change).1 == change->0,
        forall|c: Seq<char>|
            !known_comparator(c) ==> !(#[trigger] judged(c, threshold, value, change)).0,
{
    reveal_strlit("gt");
    reveal_strlit("lt");
    reveal_strlit("gte");
    reveal_strlit("lte");
    reveal_strlit("roc");
    assert("gt"@.len() == 2 && "lt"@.len() == 2 && "gte"@.len() == 3 && "lte"@.len() == 3);
    assert("gt"@[0] == 'g' && "lt"@[0] == 'l' && "gte"@[0] == 'g' && "lte"@[0] == 'l' && "roc"@[0]
        == 'r');
    lemma_rank_orders(threshold, value);
    lemma_rank_orders(value, threshold);
    lemma_at_most(threshold, value);
    lemma_at_most(value, threshold);
    if let Some(d) = change {
        lemma_unsigned(d);
        lemma_at_most(threshold, d.unsigned());
    }
}

/// A rate of change is taken over the span that the rule sets, and never over less than thirty seconds.
pub proof fn lemma_change_span(rule: RuleLite)
    ensures
        roc_window(rule) >= 30,
        rule.roc_window_secs >= 30 ==> roc_window(rule) == rule.roc_window_secs,
        rule.roc_window_secs < 30 ==> roc_window(rule) == 30,
{
}

/// A node is silent for as long as the time since it was last seen; one that was never seen is silent
/// for longer than any rule asks. Each second more makes it one second longer.
pub proof fn lemma_silence(last_seen: i64, now: i64)
    requires
        0 <= last_seen <= now < i64::MAX,
    ensures
        silence_secs(Some(last_seen), now) == now - last_seen,
        silence_secs(Some(last_seen), (now + 1) as i64) == silence_secs(Some(last_seen), now) + 1,
        silence_secs(None, now) >= silence_secs(Some(last_seen), now),
        silence_secs(None, now) == i64::MAX,
{
}

/// How long a breach has to last: as long as the rule says. Only a node that fell silent again less
/// than ten minutes after it came back has to stay silent for five minutes at least.
pub proof fn lemma_patience(base: i64, recovered: i64, now: i64)
    requires
        0 <= recovered <= now,
    ensures
        fire_after(false, base, Some(recovered), now) == base,
        fire_after(true, base, None, now) == base,
        now - recovered >= 600 ==> fire_after(true, base, Some(recovered), now) == base,
        now - recovered < 600 && base <= 300 ==> fire_after(true, base, Some(recovered), now) == 300,
        now - recovered < 600 && base > 300 ==> fire_after(true, base, Some(recovered), now) == base,
{
}

/// A rule is about one node or about all, and watches reports or silence, never both.
pub proof fn lemma_watched(rule: RuleLite, a: i64, b: i64)
    ensures
        rule.node_id is None ==> applies(rule, a) && applies(rule, b),
        rule.node_id is Some && applies(rule, a) && applies(rule, b) ==> a == b,
        rule.node_id == Some(a) ==> applies(rule, a),
        !(watched(rule, a, true) && watched(rule, a, false)),
        applies(rule, a) ==> watched(rule, a, true) || watched(rule, a, false),
        watched(rule, a, true) ==> rule.metric@ == "offline"@ && applies(rule, a),
        watched(rule, a, false) ==> rule.metric@ != "offline"@ && applies(rule, a),
{
}

/// The rules of a node are all those that watch it, each once, in the order of the list.
pub proof fn lemma_rules_of_a_node(rules: Seq<RuleLite>, node_id: i64, silence: bool, n: int)
    requires
        0 <= n <= rules.len() <= usize::MAX,
    ensures
        ({
            let w = watched_upto(rules, node_id, silence, n);
            &&& forall|k: int|
                0 <= k < n ==> (w.contains(k as usize) <==> #[trigger] watched(
                    rules[k],
                    node_id,
                    silence,
                ))
            &&& forall|i: int| 0 <= i < w.len() ==> #[trigger] w[i] < n
            &&& forall|i: int, j: int|
                #![trigger w[i], w[j]]
                0 <= i < j < w.len() ==> w[i] < w[j]
        }),
    decreases n,
{
    if n > 0 {
        lemma_rules_of_a_node(rules, node_id, silence, n - 1);
        let v = watched_upto(rules, node_id, silence, n - 1);
        let w = watched_upto(rules, node_id, silence, n);
        assert forall|k: int| 0 <= k < n implies (w.contains(k as usize) <==> #[trigger] watched(
            rules[k],
            node_id,
            silence,
        )) by {
            if watched(rules[n - 1], node_id, silence) {
                assert(w[w.len() - 1] == (n - 1) as usize);
                if k < n - 1 {
                    if v.contains(k as usize) {
                        let i = choose|i: int| 0 <= i < v.len() && v[i] == k as usize;
                        assert(w[i] == k as usize);
                    }
                    if w.contains(k as usize) {
                        let i = choose|i: int| 0 <= i < w.len() && w[i] == k as usize;
                        assert(v[i] == k as usize);
                    }
                }
            } else if k == n - 1 {
                if v.contains(k as usize) {
                    let i = choose|i: int| 0 <= i < v.len() && v[i] == k as usize;
                    assert(v[i] < n - 1);
                }
            }
        }
    }
}

// ---------------------------------------------------------------------------
// What becomes of each rule
// ---------------------------------------------------------------------------

/// No two rules have one number.
pub open spec fn numbered(rules: Seq<RuleLite>) -> bool {
    forall|i: int, j: int|
        #![trigger rules[i], rules[j]]
        0 <= i < rules.len() && 0 <= j < rules.len() && rules[i].id == rules[j].id ==> i == j
}

/// A turn is given for the rule number `k`.
pub open spec fn has_turn(turns: Seq<Turn>, k: int, step: Step, value: Measure) -> bool {
    exists|t: int|
        0 <= t < turns.len() && (#[trigger] turns[t]).rule == k && turns[t].step == step
            && turns[t].value == value
}

/// The rule number `k` is given no turn.
pub open spec fn no_turn(turns: Seq<Turn>, k: int) -> bool {
    forall|t: int| 0 <= t < turns.len() ==> (#[trigger] turns[t]).rule != k
}

/// A report is held against each rule by itself. A rule that watches the node and of whose metric the
/// report says something goes on as the value and its own duration say, and is given a turn exactly
/// where an alert begins or ends; every other rule, and every other node, stays as it was.
pub proof fn lemma_report_meets_each_rule(
    m: Map<(i64, i64), Breach>,
    rules: Seq<RuleLite>,
    n: int,
    node_id: i64,
    reading: spec_fn(Seq<char>) -> Option<Measure>,
    changes: Seq<Option<Measure>>,
    now: i64,
)
    requires
        0 <= n <= rules.len() <= usize::MAX,
        numbered(rules),
    ensures
        ({
            let (after, turns) = after_report(m, rules, n, node_id, reading, changes, now);
            &&& forall|k: int|
                0 <= k < n && #[trigger] watched(rules[k], node_id, false) && reading(
                    rules[k].metric@,
                ) is Some ==> {
                    let r = rules[k];
                    let (broken, value) = judged(
                        r.comparator@,
                        r.threshold,
                        reading(r.metric@)->0,
                        changes[k],
                    );
                    let (b, step) = advanced(
                        standing(m, (r.id, node_id)),
                        false,
                        broken,
                        r.duration_secs,
                        now,
                    );
                    &&& standing(after, (r.id, node_id)) == b
                    &&& step != Step::Stay ==> has_turn(turns, k, step, value)
                    &&& step == Step::Stay ==> no_turn(turns, k)
                }
            &&& forall|k: int|
                0 <= k < n && (!#[trigger] watched(rules[k], node_id, false) || reading(
                    rules[k].metric@,
                ) is None) ==> no_turn(turns, k)
            &&& forall|t: int|
                0 <= t < turns.len() ==> (#[trigger] turns[t]).rule < n && turns[t].node_id
                    == node_id
            &&& forall|key: (i64, i64)|
                (key.1 != node_id || forall|k: int|
                    0 <= k < n ==> (#[trigger] rules[k]).id != key.0) ==> #[trigger] standing(
                    after,
                    key,
                ) == standing(m, key)
            &&& forall|k: int|
                n <= k < rules.len() ==> standing(after, ((#[trigger] rules[k]).id, node_id))
                    == standing(m, (rules[k].id, node_id))
        }),
    decreases n,
{
    if n > 0 {
        lemma_report_meets_each_rule(m, rules, n - 1, node_id, reading, changes, now);
        let (m1, t1) = after_report(m, rules, n - 1, node_id, reading, changes, now);
        let (after, turns) = after_report(m, rules, n, node_id, reading, changes, now);
        let r = rules[n - 1];
        assert(standing(m1, (r.id, node_id)) == standing(m, (r.id, node_id)));
        assert(turns == t1 || (turns.len() == t1.len() + 1 && turns.drop_last() =~= t1
            && turns.last().rule == n - 1 && turns.last().node_id == node_id));
        assert forall|t: int| 0 <= t < turns.len() implies (#[trigger] turns[t]).rule < n
            && turns[t].node_id == node_id by {
            if t < t1.len() {
                assert(turns[t] == t1[t]);
            }
        }
        assert forall|k: int|
            0 <= k < n && #[trigger] watched(rules[k], node_id, false) && reading(
                rules[k].metric@,
            ) is Some implies {
            let r = rules[k];
            let (broken, value) = judged(
                r.comparator@,
                r.threshold,
                reading(r.metric@)->0,
                changes[k],
            );
            let (b, step) = advanced(
                standing(m, (r.id, node_id)),
                false,
                broken,
                r.duration_secs,
                now,
            );
            &&& standing(after, (r.id, node_id)) == b
            &&& step != Step::Stay ==> has_turn(turns, k, step, value)
            &&& step == Step::Stay ==> no_turn(turns, k)
        } by {
            let x = rules[k];
            let (broken, value) = judged(
                x.comparator@,
                x.threshold,
                reading(x.metric@)->0,
                changes[k],
            );
            let (b, step) = advanced(
                standing(m, (x.id, node_id)),
                false,
                broken,
                x.duration_secs,
                now,
            );
            if k < n - 1 {
                assert(rules[k].id != rules[n - 1].id);
                if step != Step::Stay {
                    let t = choose|t: int|
                        0 <= t < t1.len() && (#[trigger] t1[t]).rule == k && t1[t].step == step
                            && t1[t].value == value;
                    assert(turns[t] == t1[t]);
                } else {
                    assert forall|t: int| 0 <= t < turns.len() implies (#[trigger] turns[t]).rule
                        != k by {
                        if t < t1.len() {
                            assert(turns[t] == t1[t]);
                        }
                    }
                }
            } else {
                if step != Step::Stay {
                    assert(turns[turns.len() - 1].rule == k);
                } else {
                    assert(turns == t1);
                }
            }
        }
        assert forall|k: int|
            0 <= k < n && (!#[trigger] watched(rules[k], node_id, false) || reading(
                rules[k].metric@,
            ) is None) implies no_turn(turns, k) by {
            assert forall|t: int| 0 <= t < turns.len() implies (#[trigger] turns[t]).rule != k by {
                if t < t1.len() {
                    assert(turns[t] == t1[t]);
                    if k < n - 1 {
                        assert(no_turn(t1, k));
                    }
                }
            }
        }
        assert forall|key: (i64, i64)|
            (key.1 != node_id || forall|k: int|
                0 <= k < n ==> (#[trigger] rules[k]).id != key.0) implies #[trigger] standing(
            after,
            key,
        ) == standing(m, key) by {
            if key.1 == node_id {
                assert(rules[n - 1].id != key.0);
            }
            assert(standing(m1, key) == standing(m, key));
        }
        assert forall|k: int| n <= k < rules.len() implies standing(
            after,
            ((#[trigger] rules[k]).id, node_id),
        ) == standing(m, (rules[k].id, node_id)) by {
            assert(rules[n - 1].id != rules[k].id);
        }
    }
}

/// Silence is held against each rule by itself: a rule that watches for it goes on as the silence says,
/// against a minute or its own duration, whichever is longer, and is confirmed for half a minute; every
/// other rule, and every other node, stays as it was.
pub proof fn lemma_silence_meets_each_rule(
    m: Map<(i64, i64), Breach>,
    rules: Seq<RuleLite>,
    n: int,
    node_id: i64,
    last_seen: Option<i64>,
    value: Measure,
    now: i64,
)
    requires
        0 <= n <= rules.len() <= usize::MAX,
        numbered(rules),
    ensures
        ({
            let (after, turns) = after_silence(m, rules, n, node_id, last_seen, value, now);
            &&& forall|k: int|
                0 <= k < n && #[trigger] watched(rules[k], node_id, true) ==> {
                    let r = rules[k];
                    let silent = silence_secs(last_seen, now);
                    let (b, step) = advanced(
                        standing(m, (r.id, node_id)),
                        true,
                        silent > 60 && silent > r.duration_secs,
                        30,
                        now,
                    );
                    &&& standing(after, (r.id, node_id)) == b
                    &&& step != Step::Stay ==> has_turn(turns, k, step, value)
                    &&& step == Step::Stay ==> no_turn(turns, k)
                }
            &&& forall|k: int|
                0 <= k < n && !#[trigger] watched(rules[k], node_id, true) ==> no_turn(turns, k)
            &&& forall|t: int|
                0 <= t < turns.len() ==> (#[trigger] turns[t]).rule < n && turns[t].node_id
                    == node_id
            &&& forall|key: (i64, i64)|
                (key.1 != node_id || forall|k: int|
                    0 <= k < n ==> (#[trigger] rules[k]).id != key.0) ==> #[trigger] standing(
                    after,
                    key,
                ) == standing(m, key)
            &&& forall|k: int|
                n <= k < rules.len() ==> standing(after, ((#[trigger] rules[k]).id, node_id))
                    == standing(m, (rules[k].id, node_id))
        }),
    decreases n,
{
    if n > 0 {
        lemma_silence_meets_each_rule(m, rules, n - 1, node_id, last_seen, value, now);
        let (m1, t1) = after_silence(m, rules, n - 1, node_id, last_seen, value, now);
        let (after, turns) = after_silence(m, rules, n, node_id, last_seen, value, now);
        let r = rules[n - 1];
        assert(standing(m1, (r.id, node_id)) == standing(m, (r.id, node_id)));
        assert(turns == t1 || (turns.len() == t1.len() + 1 && turns.drop_last() =~= t1
            && turns.last().rule == n - 1 && turns.last().node_id == node_id));
        assert forall|t: int| 0 <= t < turns.len() implies (#[trigger] turns[t]).rule < n
            && turns[t].node_id == node_id by {
            if t < t1.len() {
                assert(turns[t] == t1[t]);
            }
        }
        assert forall|k: int| 0 <= k < n && #[trigger] watched(rules[k], node_id, true) implies {
            let r = rules[k];
            let silent = silence_secs(last_seen, now);
            let (b, step) = advanced(
                standing(m, (r.id, node_id)),
                true,
                silent > 60 && silent > r.duration_secs,
                30,
                now,
            );
            &&& standing(after, (r.id, node_id)) == b
            &&& step != Step::Stay ==> has_turn(turns, k, step, value)
            &&& step == Step::Stay ==> no_turn(turns, k)
        } by {
            let x = rules[k];
            let silent = silence_secs(last_seen, now);
            let (b, step) = advanced(
                standing(m, (x.id, node_id)),
                true,
                silent > 60 && silent > x.duration_secs,
                30,
                now,
            );
            if k < n - 1 {
                assert(rules[k].id != rules[n - 1].id);
                if step != Step::Stay {
                    let t = choose|t: int|
                        0 <= t < t1.len() && (#[trigger] t1[t]).rule == k && t1[t].step == step
                            && t1[t].value == value;
                    assert(turns[t] == t1[t]);
                } else {
                    assert forall|t: int| 0 <= t < turns.len() implies (#[trigger] turns[t]).rule
                        != k by {
                        if t < t1.len() {
                            assert(turns[t] == t1[t]);
                        }
                    }
                }
            } else {
                if step != Step::Stay {
                    assert(turns[turns.len() - 1].rule == k);
                } else {
                    assert(turns == t1);
                }
            }
        }
        assert forall|k: int|
            0 <= k < n && !#[trigger] watched(rules[k], node_id, true) implies no_turn(
            turns,
            k,
        ) by {
            assert forall|t: int| 0 <= t < turns.len() implies (#[trigger] turns[t]).rule != k by {
                if t < t1.len() {
                    assert(turns[t] == t1[t]);
                    if k < n - 1 {
                        assert(no_turn(t1, k));
                    }
                }
            }
        }
        assert forall|key: (i64, i64)|
            (key.1 != node_id || forall|k: int|
                0 <= k < n ==> (#[trigger] rules[k]).id != key.0) implies #[trigger] standing(
            after,
            key,
        ) == standing(m, key) by {
            if key.1 == node_id {
                assert(rules[n - 1].id != key.0);
            }
            assert(standing(m1, key) == standing(m, key));
        }
        assert forall|k: int| n <= k < rules.len() implies standing(
            after,
            ((#[trigger] rules[k]).id, node_id),
        ) == standing(m, (rules[k].id, node_id)) by {
            assert(rules[n - 1].id != rules[k].id);
        }
    }
}

/// A silence that was ordered covers the time from its beginning up to its end, the end left out; one
/// without a node covers all nodes, one without a rule all rules, and any other only its own.
pub proof fn lemma_silence_covers(s: Silence, node_id: i64, rule_id: i64, now: i64)
    ensures
        covers(s, node_id, rule_id, now) ==> s.start_ts <= now && now < s.end_ts,
        !covers(s, node_id, rule_id, s.end_ts),
        s.start_ts < s.end_ts && s.node_id is None && s.rule_id is None ==> covers(
            s,
            node_id,
            rule_id,
            s.start_ts,
        ),
        s.start_ts <= now < s.end_ts && s.node_id == Some(node_id) && s.rule_id is None
            ==> covers(s, node_id, rule_id, now),
        s.start_ts <= now < s.end_ts && s.node_id is None && s.rule_id == Some(rule_id)
            ==> covers(s, node_id, rule_id, now),
        s.start_ts <= now < s.end_ts && s.node_id == Some(node_id) && s.rule_id == Some(rule_id)
            ==> covers(s, node_id, rule_id, now),
        s.node_id is Some && s.node_id != Some(node_id) ==> !covers(s, node_id, rule_id, now),
        s.rule_id is Some && s.rule_id != Some(rule_id) ==> !covers(s, node_id, rule_id, now),
{
}

/// What is known of a rule or a node that is forgotten is gone, and of all others it stays.
pub proof fn lemma_forgetting(m: Map<(i64, i64), Breach>, rule_id: i64, node_id: i64, k: (i64, i64))
    ensures
        k.0 == rule_id ==> !without_rule(m, rule_id).contains_key(k),
        k.0 != rule_id ==> standing(without_rule(m, rule_id), k) == standing(m, k),
        k.1 == node_id ==> !without_node(m, node_id).contains_key(k),
        k.1 != node_id ==> standing(without_node(m, node_id), k) == standing(m, k),
{
}

/// An alert that stands, or a rule that is being broken, is remembered; one that is over is remembered for
/// ten minutes where it told of a silence, and else not at all.
pub proof fn lemma_remembering(m: Map<(i64, i64), Breach>, k: (i64, i64), now: i64)
    requires
        m.contains_key(k),
        0 <= now,
        m[k].recovered_at matches Some(t) ==> 0 <= t,
    ensures
        m[k].firing || m[k].since is Some ==> pruned(m, now).contains_key(k) && pruned(m, now)[k]
            == m[k],
        !m[k].firing && m[k].since is None && m[k].recovered_at is None ==> !pruned(
            m,
            now,
        ).contains_key(k),
        !m[k].firing && m[k].since is None && m[k].recovered_at is Some ==> (pruned(
            m,
            now,
        ).contains_key(k) <==> now - (m[k].recovered_at->0) < 600),
{
}

/// A rule that is being broken is broken since it was first seen so, and an alert that ends on a silence
/// tells when.
pub proof fn lemma_since_when(b: Breach, offline: bool, debounce: i64, now: i64)
    ensures
        b.since matches Some(t) ==> advanced(b, offline, true, debounce, now).0.since == Some(t),
        b.since is None ==> advanced(b, offline, true, debounce, now).0.since == Some(now),
        b.firing && offline ==> advanced(b, offline, false, debounce, now).0.recovered_at == Some(now),
        !b.firing || !offline ==> advanced(b, offline, false, debounce, now).0.recovered_at
            == b.recovered_at,
        advanced(b, offline, true, debounce, now).0.event_id == b.event_id,
{
}

/// The severities are in order, and what is no severity counts as a warning.
pub proof fn lemma_severities(s: Seq<char>)
    ensures
        severity_rank("info"@) < severity_rank("warning"@) < severity_rank("critical"@),
        !known_severity(s) ==> severity_rank(s) == severity_rank("warning"@),
{
    reveal_strlit("info");
    reveal_strlit("warning");
    reveal_strlit("critical");
    assert("info"@.len() == 4 && "warning"@.len() == 7 && "critical"@.len() == 8);
}

} // verus!
