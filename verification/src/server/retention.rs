//! How long data is kept, when the hourly figures are worked out, and which backups remain.

use crate::num::{
    decimal, decimal_int, digit_char, larger, max_i64, nearest_i64, sat_mul, sat_sub, show_i64,
};
use crate::text::{chars_of, concat3, ends_with, has_prefix, has_suffix, starts_with, views};
use vstd::prelude::*;
use vstd::string::*;

verus! {

/// The hours that are worked out again each time, for reports that come late.
pub const REROLL_HOURS: i64 = 6;

/// For how long alerts that ended are kept, in days.
pub const EVENT_DAYS: i64 = 90;

/// For how long the record of what was done is kept, in days.
pub const AUDIT_DAYS: i64 = 180;

/// How many entries of the record of what was done are kept.
pub const AUDIT_ENTRIES: i64 = 100_000;

// ---------------------------------------------------------------------------
// How long data is kept
// ---------------------------------------------------------------------------

/// What is older than so many days at the time `now`.
pub open spec fn cutoff(now: i64, days: i64) -> i64 {
    nearest_i64(now - nearest_i64(days * 86_400))
}

/// What is older than so many days.
pub fn days_back(now: i64, days: i64) -> (r: i64)
    ensures
        r == cutoff(now, days),
{
    sat_sub(now, sat_mul(days, 86_400))
}

/// From when on data is kept.
#[derive(Debug, Clone, Copy, PartialEq, Eq, Structural)]
pub struct Cutoffs {
    /// Reports.
    pub metrics: i64,
    /// The details of reports.
    pub details: i64,
    /// The hourly figures.
    pub rollup: i64,
    /// Alerts that ended; those that last are always kept.
    pub events: i64,
    /// The record of what was done.
    pub audit: i64,
    /// Sessions and keys whose time was over.
    pub expired: i64,
}

/// From when on data is kept, with the days that are set for reports, their details and the hourly
/// figures.
pub fn cutoffs(now: i64, days: i64, detail_days: i64, rollup_days: i64) -> (r: Cutoffs)
    ensures
        r == (Cutoffs {
            metrics: cutoff(now, days),
            details: cutoff(now, detail_days),
            rollup: cutoff(now, rollup_days),
            events: cutoff(now, EVENT_DAYS),
            audit: cutoff(now, AUDIT_DAYS),
            expired: now,
        }),
        0 <= now && 0 <= days <= 36_500 ==> r.metrics + days * 86_400 == now,
        0 <= now && 0 <= detail_days <= 36_500 ==> r.details + detail_days * 86_400 == now,
        0 <= now && 0 <= rollup_days <= 36_500 ==> r.rollup + rollup_days * 86_400 == now,
        0 <= now ==> r.events + 90 * 86_400 == now && r.audit + 180 * 86_400 == now,
{
    Cutoffs {
        metrics: days_back(now, days),
        details: days_back(now, detail_days),
        rollup: days_back(now, rollup_days),
        events: days_back(now, EVENT_DAYS),
        audit: days_back(now, AUDIT_DAYS),
        expired: now,
    }
}

/// What is set to be kept for longer is kept for at least as long.
pub proof fn lemma_longer_keeps_more(now: i64, days: i64, longer: i64)
    requires
        days <= longer,
    ensures
        cutoff(now, longer) <= cutoff(now, days),
{
}

// ---------------------------------------------------------------------------
// Hourly figures
// ---------------------------------------------------------------------------

/// The beginning of the hour of a time.
pub open spec fn hour_of(now: i64) -> int {
    now - now as int % 3600
}

/// Where the hourly figures are worked out from, where they were worked out up to `cursor`.
pub open spec fn reroll_from(cursor: i64) -> i64 {
    nearest_i64(cursor - REROLL_HOURS * 3600)
}

/// The times between which the hourly figures are worked out; nothing where the clock went back.
pub open spec fn rollup_span(now: i64, cursor: i64) -> Option<(i64, i64)> {
    if hour_of(now) <= reroll_from(cursor) {
        None
    } else {
        Some((larger(reroll_from(cursor), 0), hour_of(now) as i64))
    }
}

/// The times between which the hourly figures are worked out, where they were worked out up to
/// `cursor`.
pub fn rollup(now: i64, cursor: i64) -> (r: Option<(i64, i64)>)
    requires
        0 <= now,
    ensures
        r == rollup_span(now, cursor),
{
    let hour: i64 = now - now % 3600;
    let from: i64 = sat_sub(cursor, REROLL_HOURS * 3600);
    if hour <= from {
        return None;
    }
    Some((max_i64(from, 0), hour))
}

/// Only hours that are over are worked out, in whole; and from one time to the next, which begins
/// where the one before ended, none is left out, the last six of them being worked out again.
pub proof fn lemma_no_hour_is_missed(now: i64, cursor: i64, later: i64)
    requires
        0 <= now <= later,
        rollup_span(now, cursor) is Some,
    ensures
        ({
            let (from, to) = rollup_span(now, cursor)->0;
            &&& to <= now < to + 3600
            &&& to as int % 3600 == 0
            &&& rollup_span(later, to) matches Some((from2, to2)) && from2 <= to <= to2 && (from2
                <= to - REROLL_HOURS * 3600 || from2 == 0)
        }),
{
}

// ---------------------------------------------------------------------------
// Backups
// ---------------------------------------------------------------------------

/// A backup is due: they are on, and the last one is old enough.
pub open spec fn due(hours: i64, last: i64, now: i64) -> bool {
    hours > 0 && nearest_i64(now - last) >= nearest_i64(hours * 3600)
}

/// Whether a backup is due.
pub fn auto_backup(hours: i64, last: i64, now: i64) -> (r: bool)
    ensures
        r == due(hours, last, now),
{
    hours > 0 && sat_sub(now, last) >= sat_mul(hours, 3600)
}

/// The name of the backup of a time.
pub open spec fn backup_name(now: int) -> Seq<char> {
    "outpost-"@ + decimal_int(now) + ".db"@
}

/// The name of the backup of a time.
pub fn backup_file(now: i64) -> (r: String)
    ensures
        r@ == backup_name(now as int),
{
    concat3("outpost-", show_i64(now).as_str(), ".db")
}

/// The name of a file is that of a backup.
pub open spec fn is_backup(name: Seq<char>) -> bool {
    starts_with(name, "outpost-"@) && ends_with(name, ".db"@)
}

/// `a` stands before `b` in a dictionary.
pub open spec fn precedes(a: Seq<char>, b: Seq<char>) -> bool
    decreases a.len(),
{
    if b.len() == 0 {
        false
    } else if a.len() == 0 {
        true
    } else if a[0] != b[0] {
        a[0] < b[0]
    } else {
        precedes(a.drop_first(), b.drop_first())
    }
}

fn comes_before(a: &[char], b: &[char]) -> (r: bool)
    ensures
        r == precedes(a@, b@),
{
    let mut i: usize = 0;
    assert(a@.skip(0) =~= a@);
    assert(b@.skip(0) =~= b@);
    while i < a.len() && i < b.len()
        invariant
            i <= a@.len(),
            i <= b@.len(),
            precedes(a@, b@) == precedes(a@.skip(i as int), b@.skip(i as int)),
        decreases a@.len() - i,
    {
        assert(a@.skip(i as int)[0] == a@[i as int]);
        assert(b@.skip(i as int)[0] == b@[i as int]);
        assert(a@.skip(i as int).drop_first() =~= a@.skip(i + 1));
        assert(b@.skip(i as int).drop_first() =~= b@.skip(i + 1));
        if a[i] != b[i] {
            return a[i] < b[i];
        }
        i = i + 1;
    }
    i < b.len()
}

/// Texts in the order of a dictionary, with one more: behind those that do not stand behind it.
pub open spec fn with_text(s: Seq<Seq<char>>, x: Seq<char>) -> Seq<Seq<char>>
    decreases s.len(),
{
    if s.len() == 0 || !precedes(x, s.last()) {
        s.push(x)
    } else {
        with_text(s.drop_last(), x).push(s.last())
    }
}

/// The backups among some files, in the order of a dictionary.
pub open spec fn backups_in_order(names: Seq<Seq<char>>) -> Seq<Seq<char>>
    decreases names.len(),
{
    if names.len() == 0 {
        Seq::empty()
    } else if is_backup(names.last()) {
        with_text(backups_in_order(names.drop_last()), names.last())
    } else {
        backups_in_order(names.drop_last())
    }
}

/// The backups that are removed: the first ones, so that `keep` remain.
pub open spec fn outdated(names: Seq<Seq<char>>, keep: nat) -> Seq<Seq<char>> {
    let b = backups_in_order(names);
    if b.len() <= keep {
        Seq::empty()
    } else {
        b.take(b.len() - keep)
    }
}

proof fn lemma_with_text(s: Seq<Seq<char>>, x: Seq<char>, p: int)
    requires
        0 <= p <= s.len(),
        p == 0 || !precedes(x, s[p - 1]),
        forall|j: int| p <= j < s.len() ==> precedes(x, #[trigger] s[j]),
    ensures
        with_text(s, x) == s.take(p).push(x) + s.skip(p),
    decreases s.len() - p,
{
    if p == s.len() {
        assert(s.take(p).push(x) + s.skip(p) =~= s.push(x));
    } else {
        let t = s.drop_last();
        assert(precedes(x, s[s.len() - 1]));
        assert forall|j: int| p <= j < t.len() implies precedes(x, #[trigger] t[j]) by {
            assert(t[j] == s[j]);
        }
        lemma_with_text(t, x, p);
        assert(s.take(p).push(x) + s.skip(p) =~= (t.take(p).push(x) + t.skip(p)).push(s.last()));
    }
}

fn put_text(v: &mut Vec<String>, x: String)
    ensures
        views(final(v)@) == with_text(views(old(v)@), x@),
{
    let ghost all = views(v@);
    let given = chars_of(x.as_str());
    let mut p: usize = v.len();
    let mut found = false;
    while p > 0 && !found
        invariant
            given@ == x@,
            all == views(v@),
            p <= v@.len(),
            forall|j: int| p <= j < all.len() ==> precedes(x@, #[trigger] all[j]),
            found ==> p > 0 && !precedes(x@, all[p - 1]),
        decreases p, !found as int,
    {
        let c = chars_of(v[p - 1].as_str());
        assert(c@ == all[p - 1]);
        if comes_before(given.as_slice(), c.as_slice()) {
            p = p - 1;
        } else {
            found = true;
        }
    }
    proof {
        lemma_with_text(all, x@, p as int);
    }
    v.insert(p, x);
    assert(views(v@) =~= all.take(p as int).push(x@) + all.skip(p as int));
}

/// The backups that are removed, so that `keep` remain: the first in the order of a dictionary, which
/// are the oldest.
pub fn rotate_backups(names: &[String], keep: usize) -> (r: Vec<String>)
    ensures
        views(r@) == outdated(views(names@), keep as nat),
{
    let ghost all = views(names@);
    let mut b: Vec<String> = Vec::new();
    let mut i: usize = 0;
    assert(all.take(0) =~= Seq::empty());
    assert(views(b@) =~= Seq::empty());
    while i < names.len()
        invariant
            all == views(names@),
            i <= names@.len(),
            views(b@) == backups_in_order(all.take(i as int)),
        decreases names@.len() - i,
    {
        assert(all.take(i + 1).drop_last() =~= all.take(i as int));
        assert(all.take(i + 1).last() == names@[i as int]@);
        let c = chars_of(names[i].as_str());
        if has_prefix(c.as_slice(), "outpost-") && has_suffix(c.as_slice(), ".db") {
            put_text(&mut b, names[i].as_str().to_string());
        }
        i = i + 1;
    }
    assert(all.take(i as int) =~= all);
    let ghost ordered = views(b@);
    assert(ordered.len() == b@.len());
    if b.len() <= keep {
        b.truncate(0);
        assert(views(b@) =~= Seq::empty());
    } else {
        let n: usize = b.len() - keep;
        b.truncate(n);
        assert(views(b@) =~= ordered.take(n as int));
    }
    b
}

/// Texts stand in the order of a dictionary.
pub open spec fn in_dictionary_order(s: Seq<Seq<char>>) -> bool {
    forall|i: int, j: int|
        #![trigger s[i], s[j]]
        0 <= i <= j < s.len() ==> !precedes(s[j], s[i])
}

proof fn lemma_precedes(a: Seq<char>, b: Seq<char>, c: Seq<char>)
    ensures
        !(precedes(a, b) && precedes(b, a)),
        !precedes(b, a) && !precedes(c, b) ==> !precedes(c, a),
    decreases a.len() + b.len() + c.len(),
{
    if a.len() > 0 && b.len() > 0 && c.len() > 0 {
        lemma_precedes(a.drop_first(), b.drop_first(), c.drop_first());
    } else if a.len() > 0 && b.len() > 0 {
        lemma_precedes(a.drop_first(), b.drop_first(), c);
    }
}

proof fn lemma_with_text_ordered(s: Seq<Seq<char>>, x: Seq<char>)
    requires
        in_dictionary_order(s),
    ensures
        in_dictionary_order(with_text(s, x)),
        with_text(s, x).len() == s.len() + 1,
        forall|i: int|
            0 <= i < with_text(s, x).len() ==> (#[trigger] with_text(s, x)[i] == x || s.contains(
                with_text(s, x)[i],
            )),
    decreases s.len(),
{
    let w = with_text(s, x);
    if s.len() == 0 || !precedes(x, s.last()) {
        assert forall|i: int, j: int|
            #![trigger w[i], w[j]]
            0 <= i <= j < w.len() implies !precedes(w[j], w[i]) by {
            if j < s.len() {
                assert(w[i] == s[i] && w[j] == s[j]);
            } else if i < s.len() {
                assert(!precedes(s[s.len() - 1], s[i]));
                lemma_precedes(s[i], s.last(), x);
            } else {
                lemma_precedes(x, x, x);
            }
        }
        assert forall|i: int| 0 <= i < w.len() implies (#[trigger] w[i] == x || s.contains(w[i])) by {
            if i < s.len() {
                assert(w[i] == s[i]);
            }
        }
    } else {
        let t = s.drop_last();
        assert forall|i: int, j: int|
            #![trigger t[i], t[j]]
            0 <= i <= j < t.len() implies !precedes(t[j], t[i]) by {
            assert(!precedes(s[j], s[i]));
        }
        lemma_with_text_ordered(t, x);
        let u = with_text(t, x);
        assert forall|i: int| 0 <= i < w.len() implies (#[trigger] w[i] == x || s.contains(w[i])) by {
            if i < u.len() {
                assert(w[i] == u[i]);
                if u[i] != x {
                    let k = choose|k: int| 0 <= k < t.len() && t[k] == u[i];
                    assert(s[k] == u[i]);
                }
            } else {
                assert(w[i] == s[s.len() - 1]);
            }
        }
        assert forall|i: int, j: int|
            #![trigger w[i], w[j]]
            0 <= i <= j < w.len() implies !precedes(w[j], w[i]) by {
            if j < u.len() {
                assert(w[i] == u[i] && w[j] == u[j]);
            } else if i < u.len() {
                assert(w[i] == u[i]);
                assert(w[j] == s.last());
                lemma_precedes(x, s.last(), x);
                if u[i] != x {
                    assert(t.contains(u[i]));
                    let k = choose|k: int| 0 <= k < t.len() && t[k] == u[i];
                    assert(s[k] == u[i]);
                    assert(!precedes(s[s.len() - 1], s[k]));
                }
            } else {
                lemma_precedes(s.last(), s.last(), s.last());
            }
        }
    }
}

proof fn lemma_backups_ordered(names: Seq<Seq<char>>)
    ensures
        in_dictionary_order(backups_in_order(names)),
    decreases names.len(),
{
    if names.len() > 0 {
        lemma_backups_ordered(names.drop_last());
        if is_backup(names.last()) {
            lemma_with_text_ordered(backups_in_order(names.drop_last()), names.last());
        }
    }
}

/// No more backups are removed than are too many, and none that is removed stands behind one that
/// remains.
pub proof fn lemma_rotation_keeps_the_last(names: Seq<Seq<char>>, keep: nat)
    ensures
        ({
            let b = backups_in_order(names);
            let gone = outdated(names, keep);
            &&& gone.len() == if b.len() > keep {
                b.len() - keep
            } else {
                0
            }
            &&& forall|i: int, j: int|
                #![trigger gone[i], b[j]]
                0 <= i < gone.len() <= j < b.len() ==> !precedes(b[j], gone[i])
        }),
{
    lemma_backups_ordered(names);
    let b = backups_in_order(names);
    let gone = outdated(names, keep);
    assert forall|i: int, j: int|
        #![trigger gone[i], b[j]]
        0 <= i < gone.len() <= j < b.len() implies !precedes(b[j], gone[i]) by {
        assert(gone[i] == b[i]);
    }
}

proof fn lemma_precedes_from_the_end(a: Seq<char>, b: Seq<char>)
    requires
        a.len() == b.len(),
        a.len() > 0,
    ensures
        precedes(a, b) <==> precedes(a.drop_last(), b.drop_last()) || (a.drop_last()
            == b.drop_last() && a.last() < b.last()),
    decreases a.len(),
{
    reveal_with_fuel(precedes, 2);
    if a.len() == 1 {
        assert(a.drop_last() =~= b.drop_last());
        assert(a.drop_first() =~= Seq::empty());
        assert(b.drop_first() =~= Seq::empty());
    } else {
        let x = a.drop_first();
        let y = b.drop_first();
        lemma_precedes_from_the_end(x, y);
        assert(a.drop_last().drop_first() =~= x.drop_last());
        assert(b.drop_last().drop_first() =~= y.drop_last());
        assert(a.drop_last()[0] == a[0] && b.drop_last()[0] == b[0]);
        assert(x.last() == a.last() && y.last() == b.last());
        assert(precedes(a.drop_last(), b.drop_last()) == if a[0] != b[0] {
            a[0] < b[0]
        } else {
            precedes(x.drop_last(), y.drop_last())
        });
        if a[0] == b[0] {
            if x.drop_last() == y.drop_last() {
                assert(a.drop_last() =~= seq![a[0]] + x.drop_last());
                assert(b.drop_last() =~= seq![b[0]] + y.drop_last());
            }
            if a.drop_last() == b.drop_last() {
                assert(x.drop_last() =~= y.drop_last());
            }
        } else {
            assert(a.drop_last()[0] != b.drop_last()[0]);
        }
    }
}

proof fn lemma_decimals_in_order(m: nat, n: nat)
    requires
        decimal(m).len() == decimal(n).len(),
    ensures
        m < n <==> precedes(decimal(m), decimal(n)),
        m == n <==> decimal(m) == decimal(n),
    decreases m,
{
    crate::num::lemma_decimal(m);
    crate::num::lemma_decimal(n);
    let a = decimal(m);
    let b = decimal(n);
    lemma_precedes_from_the_end(a, b);
    if m < 10 || n < 10 {
        lemma_decimal_shape(m);
        lemma_decimal_shape(n);
        assert(a.drop_last() =~= Seq::empty());
        assert(b.drop_last() =~= Seq::empty());
    } else {
        lemma_decimal_shape(m);
        lemma_decimal_shape(n);
        lemma_decimals_in_order(m / 10, n / 10);
    }
}

proof fn lemma_decimal_shape(n: nat)
    ensures
        decimal(n).len() > 0,
        decimal(n).last() == digit_char(n % 10),
        n < 10 <==> decimal(n).len() == 1,
        n >= 10 ==> decimal(n).drop_last() == decimal(n / 10),
{
    if n >= 10 {
        lemma_decimal_nonempty(n / 10);
        assert(decimal(n).drop_last() =~= decimal(n / 10));
    }
}

proof fn lemma_decimal_nonempty(n: nat)
    ensures
        decimal(n).len() > 0,
    decreases n,
{
}

/// The order of the names of backups is that of their times, as long as the number of digits does not
/// change.
pub proof fn lemma_names_tell_the_time(m: nat, n: nat)
    requires
        decimal(m).len() == decimal(n).len(),
        m < n,
    ensures
        precedes(backup_name(m as int), backup_name(n as int)),
{
    lemma_decimals_in_order(m, n);
    lemma_precedes_inside("outpost-"@, decimal(m), decimal(n), ".db"@);
}

proof fn lemma_precedes_inside(head: Seq<char>, a: Seq<char>, b: Seq<char>, tail: Seq<char>)
    requires
        a.len() == b.len(),
        precedes(a, b),
    ensures
        precedes(head + a + tail, head + b + tail),
    decreases head.len() + a.len(),
{
    let x = head + a + tail;
    let y = head + b + tail;
    if head.len() > 0 {
        lemma_precedes_inside(head.drop_first(), a, b, tail);
        assert(x.drop_first() =~= head.drop_first() + a + tail);
        assert(y.drop_first() =~= head.drop_first() + b + tail);
    } else {
        assert(x[0] == a[0] && y[0] == b[0]);
        if a[0] == b[0] {
            lemma_precedes_inside(head, a.drop_first(), b.drop_first(), tail);
            assert(x.drop_first() =~= head + a.drop_first() + tail);
            assert(y.drop_first() =~= head + b.drop_first() + tail);
        }
    }
}

} // verus!
