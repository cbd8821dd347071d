//! Requests, failures, traffic and old data: how much, how often and how long.

use crate::ip::IpAddr;
use crate::server::ratelimit::{
    allowance, capacity, fails_of, lock_after, locked_out, recorded,
    refilled, remembered, run_of, spent, Bucket, Class, Fails,
};
use crate::server::retention::{
    backup_name, backups_in_order, cutoff, due, is_backup, outdated, precedes,
    reroll_from, rollup_span, with_text,
};
use crate::server::traffic::{report_secs, total_after};
use vstd::arithmetic::power2::pow2;
use crate::server::traffic::period_start;
use vstd::prelude::*;

verus! {

// ---------------------------------------------------------------------------
// Requests
// ---------------------------------------------------------------------------

proof fn lemma_burst(cap: u64, now: u64, times: Seq<u64>)
    requires
        1 <= cap <= 240,
        forall|i: int| 0 <= i < times.len() ==> #[trigger] times[i] == now,
    ensures
        ({
            let b = Bucket { tokens: (cap * 60_000_000_000) as u64, last: now };
            let (c, n) = run_of(b, cap, times);
            &&& c.last == now
            &&& times.len() <= cap ==> n == times.len() && c.tokens == (cap - times.len())
                * 60_000_000_000
            &&& times.len() > cap ==> n == cap && c.tokens == 0
        }),
    decreases times.len(),
{
    if times.len() > 0 {
        let t = times.drop_last();
        assert forall|i: int| 0 <= i < t.len() implies #[trigger] t[i] == now by {
            assert(t[i] == times[i]);
        }
        lemma_burst(cap, now, t);
        assert(times[times.len() - 1] == now);
        assert(cap * 0 == 0) by (nonlinear_arith);
    }
}

/// An address that was not heard of before may make as many requests at once as its class allows, and not
/// one more: ten to log in, twelve to register, thirty to listen and two hundred and forty others.
pub proof fn lemma_first_requests(
    m: Map<(IpAddr, Class), Bucket>,
    ip: IpAddr,
    class: Class,
    now: u64,
    times: Seq<u64>,
)
    requires
        !m.contains_key((ip, class)),
        forall|i: int| 0 <= i < times.len() ==> #[trigger] times[i] == now,
    ensures
        ({
            let passed = run_of(allowance(m, (ip, class), now), capacity(class), times).1;
            let most: nat = match class {
                Class::Login => 10,
                Class::Register => 12,
                Class::Api => 240,
                Class::Ws => 30,
            };
            &&& times.len() <= most ==> passed == times.len()
            &&& times.len() > most ==> passed == most
        }),
{
    lemma_burst(capacity(class), now, times);
}

/// An address that has used up its requests gets them back evenly over a minute: the first comes back
/// with the minute divided by their number, and after the minute all are back.
pub proof fn lemma_requests_come_back(cap: u64, last: u64, now: u64)
    requires
        1 <= cap <= 240,
        last <= now,
    ensures
        spent(Bucket { tokens: 0, last }, cap, now).1 <==> cap * (now - last) >= 60_000_000_000,
        now - last >= 60_000_000_000 ==> refilled(Bucket { tokens: 0, last }, cap, now) == cap
            * 60_000_000_000,
        now - last <= 60_000_000_000 ==> refilled(Bucket { tokens: 0, last }, cap, now) == cap * (now
            - last),
{
    let d = now - last;
    assert(cap * d >= cap * 60_000_000_000 <==> d >= 60_000_000_000) by (nonlinear_arith)
        requires
            cap >= 1,
    ;
    assert(cap * 60_000_000_000 >= 60_000_000_000) by (nonlinear_arith)
        requires
            cap >= 1,
    ;
    assert(cap * d <= cap * 60_000_000_000 <==> d <= 60_000_000_000) by (nonlinear_arith)
        requires
            cap >= 1,
    ;
}

/// A request costs one of those that are left, where there is one, and nothing where there is none.
pub proof fn lemma_a_request_costs_one(b: Bucket, cap: u64, now: u64)
    requires
        1 <= cap <= 240,
        b.tokens <= cap * 60_000_000_000,
    ensures
        ({
            let (c, ok) = spent(b, cap, now);
            &&& ok <==> refilled(b, cap, now) >= 60_000_000_000
            &&& ok ==> c.tokens + 60_000_000_000 == refilled(b, cap, now)
            &&& !ok ==> c.tokens == refilled(b, cap, now)
            &&& c.last == now
            &&& now >= b.last ==> refilled(b, cap, now) >= b.tokens
        }),
{
    assert(cap * crate::server::ratelimit::since(b.last, now) >= 0) by (nonlinear_arith)
        requires
            cap >= 1,
            crate::server::ratelimit::since(b.last, now) >= 0,
    ;
    assert(cap * 60_000_000_000 <= 240 * 60_000_000_000) by (nonlinear_arith)
        requires
            cap <= 240,
    ;
}

/// What one address has used up, or in one class, leaves the others as they were, as long as not too many
/// are remembered.
pub proof fn lemma_others_keep_theirs(
    m: Map<(IpAddr, Class), Bucket>,
    key: (IpAddr, Class),
    other: (IpAddr, Class),
    now: u64,
    b: Bucket,
)
    requires
        key != other,
        m.len() <= 10_000,
    ensures
        allowance(remembered(m, now).insert(key, b), other, now) == allowance(m, other, now),
        allowance(remembered(m, now).insert(key, b), key, now) == b,
{
}

// ---------------------------------------------------------------------------
// Failures
// ---------------------------------------------------------------------------

/// Four failures lock nothing. The fifth locks for half a minute, each further one for twice as long as
/// the one before, and none for longer than an hour.
pub proof fn lemma_locks_double(count: u32)
    ensures
        count < 5 ==> lock_after(count) is None,
        lock_after(5) == Some(30i64),
        5 <= count <= 10 ==> lock_after((count + 1) as u32) == Some((2 * lock_after(count)->0) as i64),
        count >= 12 ==> lock_after(count) == Some(3600i64),
        lock_after(count) matches Some(s) ==> 30 <= s <= 3600,
{
    vstd::arithmetic::power2::lemma2_to64();
    assert(pow2(7) == 128);
}

/// A failure counts one more against the address and the name that failed, and the lock runs from then.
/// Forgetting the failures of a name opens its lock.
pub proof fn lemma_failures_count(
    m: Map<(IpAddr, Seq<char>), Fails>,
    key: (IpAddr, Seq<char>),
    now: i64,
)
    requires
        m.len() <= 4096,
        0 <= now < i64::MAX - 3600,
        fails_of(m, key).count < u32::MAX,
    ensures
        recorded(m, key, now)[key].count == fails_of(m, key).count + 1,
        lock_after((fails_of(m, key).count + 1) as u32) matches Some(s) ==> recorded(
            m,
            key,
            now,
        )[key].until == now + s,
        !locked_out(m.remove(key), key, now),
        fails_of(m.remove(key), key).count == 0,
{
    lemma_locks_double((fails_of(m, key).count + 1) as u32);
}

// ---------------------------------------------------------------------------
// Traffic
// ---------------------------------------------------------------------------

/// A report adds its rate for as long as it stands for, as far as the total can be told; a rate below 0
/// adds nothing.
pub proof fn lemma_traffic_adds_up(total: i64, bps: i64, secs: int)
    requires
        0 <= total <= 0x1000_0000_0000_0000,
        0 <= secs,
    ensures
        0 <= bps <= 0x100_0000_0000 && total + bps * secs <= 0x1000_0000_0000_0000 ==> total_after(
            total,
            bps,
            secs,
        ) == total + bps * secs,
        bps <= 0 ==> total_after(total, bps, secs) == total,
        secs == 0 ==> total_after(total, bps, secs) == total,
{
    assert(bps <= 0 ==> 0 * secs == 0) by (nonlinear_arith);
    assert(crate::num::clamped_i64(bps, 0, 0x100_0000_0000) * 0 == 0) by (nonlinear_arith);
}

/// A report stands for the time since the one before it, but not for more than three intervals, or half a
/// minute where that is more. The first stands for no time.
pub proof fn lemma_report_stands_for(last: i64, now: i64, interval: u32)
    requires
        last < now,
    ensures
        last <= 0 ==> report_secs(last, now, interval) == 0,
        last > 0 && now - last <= 30 ==> report_secs(last, now, interval) == now - last,
        last > 0 && now - last <= 3 * interval ==> report_secs(last, now, interval) == now - last,
        last > 0 && now - last > 30 && now - last > 3 * interval && 3 * interval >= 30 ==> report_secs(
            last,
            now,
            interval,
        ) == 3 * interval,
        last > 0 && now - last > 30 && 3 * interval < 30 ==> report_secs(last, now, interval) == 30,
{
}

// ---------------------------------------------------------------------------
// Old data
// ---------------------------------------------------------------------------

/// What is kept for some days is what is not older than so many days.
pub proof fn lemma_kept_for_days(now: i64, days: i64, at: i64)
    requires
        0 <= now,
        0 <= days <= 36_500,
    ensures
        cutoff(now, days) + days * 86_400 == now,
        at < cutoff(now, days) <==> now - at > days * 86_400,
{
}

/// A copy is due where one is made every so many hours and that many have gone by since the last.
pub proof fn lemma_copy_is_due(hours: i64, last: i64, now: i64)
    requires
        0 <= last <= now,
        hours <= 100_000,
    ensures
        due(hours, last, now) <==> hours > 0 && now - last >= hours * 3600,
{
}

/// Hours are put together up to the last whole one, from six hours before where it was left off, and not
/// from before the beginning.
pub proof fn lemma_hours_put_together(now: i64, cursor: i64, hour: int)
    requires
        0 <= cursor <= now,
        hour * 3600 <= now < hour * 3600 + 3600,
    ensures
        reroll_from(cursor) == cursor - 6 * 3600,
        rollup_span(now, cursor) matches Some((from, to)) ==> {
            &&& to == hour * 3600
            &&& cursor >= 6 * 3600 ==> from == cursor - 6 * 3600
            &&& cursor < 6 * 3600 ==> from == 0
        },
        rollup_span(now, cursor) is Some <==> hour * 3600 > cursor - 6 * 3600,
{
    assert(now as int % 3600 == now - hour * 3600) by (nonlinear_arith)
        requires
            hour * 3600 <= now < hour * 3600 + 3600,
    ;
}

/// The name of a copy is that of a copy.
pub proof fn lemma_name_of_a_copy(now: int)
    ensures
        is_backup(backup_name(now)),
{
    let s = backup_name(now);
    let (a, b) = ("outpost-"@, ".db"@);
    assert(s.take(a.len() as int) =~= a);
    assert(s.skip(s.len() - b.len()) =~= b);
}

proof fn lemma_with_text(s: Seq<Seq<char>>, x: Seq<char>, y: Seq<char>)
    ensures
        with_text(s, x).contains(y) <==> s.contains(y) || y == x,
        with_text(s, x).len() == s.len() + 1,
    decreases s.len(),
{
    let r = with_text(s, x);
    if s.len() == 0 || !precedes(x, s.last()) {
        if s.contains(y) {
            let i = choose|i: int| 0 <= i < s.len() && s[i] == y;
            assert(r[i] == y);
        }
        if y == x {
            assert(r[s.len() as int] == y);
        }
        if r.contains(y) {
            let i = choose|i: int| 0 <= i < r.len() && r[i] == y;
            if i < s.len() {
                assert(s[i] == y);
            }
        }
    } else {
        let t = s.drop_last();
        let q = with_text(t, x);
        lemma_with_text(t, x, y);
        if s.contains(y) {
            let i = choose|i: int| 0 <= i < s.len() && s[i] == y;
            if i < t.len() {
                assert(t[i] == y);
                assert(t.contains(y));
                let j = choose|j: int| 0 <= j < q.len() && q[j] == y;
                assert(r[j] == y);
            } else {
                assert(r[q.len() as int] == y);
            }
        }
        if y == x {
            let j = choose|j: int| 0 <= j < q.len() && q[j] == y;
            assert(r[j] == y);
        }
        if r.contains(y) {
            let i = choose|i: int| 0 <= i < r.len() && r[i] == y;
            if i < q.len() {
                assert(q[i] == y);
                assert(q.contains(y));
                if t.contains(y) {
                    let j = choose|j: int| 0 <= j < t.len() && t[j] == y;
                    assert(s[j] == y);
                }
            } else {
                assert(s[s.len() - 1] == y);
            }
        }
    }
}

/// The copies among some names are exactly those that are named like one; each is counted as often as it
/// stands there.
pub proof fn lemma_copies_among(names: Seq<Seq<char>>, y: Seq<char>)
    ensures
        backups_in_order(names).contains(y) <==> names.contains(y) && is_backup(y),
        backups_in_order(names).len() == names.filter(|s: Seq<char>| is_backup(s)).len(),
    decreases names.len(),
{
    reveal(Seq::filter);
    if names.len() > 0 {
        let t = names.drop_last();
        let x = names.last();
        lemma_copies_among(t, y);
        lemma_with_text(backups_in_order(t), x, y);
        if names.contains(y) {
            let i = choose|i: int| 0 <= i < names.len() && names[i] == y;
            if i < t.len() {
                assert(t[i] == y);
            }
        }
        if t.contains(y) {
            let i = choose|i: int| 0 <= i < t.len() && t[i] == y;
            assert(names[i] == y);
        }
        if y == x {
            assert(names[names.len() - 1] == y);
        }
    }
}

/// Only copies are taken away, and only so many that the number to keep is left.
pub proof fn lemma_only_copies_go(names: Seq<Seq<char>>, keep: nat, i: int)
    requires
        0 <= i < outdated(names, keep).len(),
    ensures
        names.contains(outdated(names, keep)[i]),
        is_backup(outdated(names, keep)[i]),
        outdated(names, keep).len() + keep == names.filter(|s: Seq<char>| is_backup(s)).len(),
{
    let b = backups_in_order(names);
    let y = outdated(names, keep)[i];
    lemma_copies_among(names, y);
    assert(b[i] == y);
}

/// Where too many addresses are remembered, those are forgotten that were not heard of for ten minutes, and
/// all where too many are left.
pub proof fn lemma_forgotten_addresses(m: Map<(IpAddr, Class), Bucket>, k: (IpAddr, Class), now: u64)
    requires
        m.len() > 10_000,
        m.contains_key(k),
        m[k].last <= now,
    ensures
        now - m[k].last >= 600_000_000_000 ==> !remembered(m, now).contains_key(k),
        remembered(m, now).contains_key(k) ==> remembered(m, now)[k] == m[k],
        remembered(m, now).len() <= 10_000,
{
}

/// Only files whose names begin and end like those of copies are taken for copies.
pub proof fn lemma_taken_for_copies(name: Seq<char>)
    ensures
        is_backup(name) <==> crate::text::starts_with(name, "outpost-"@) && crate::text::ends_with(
            name,
            ".db"@,
        ),
{
}

/// A day to start over on that a month may lack counts as the last that none lacks, and one before the
/// first as the first.
pub proof fn lemma_days_to_start_over(now: i64, day: i64)
    ensures
        day > 28 ==> period_start(now, day) == period_start(now, 28),
        day < 1 ==> period_start(now, day) == period_start(now, 1),
        1 <= day <= 28 ==> period_start(now, day) == 86_400 * crate::server::traffic::period_day(
            now as int / 86_400,
            day as int,
        ),
{
}

} // verus!
