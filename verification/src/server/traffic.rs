//! The traffic of a node: an estimate from reported rates, counted per month where that is asked
//! for.

use crate::calendar::{
    date_of, day_number, days_before_month, floor_div, lemma_date_exists, lemma_date_of, month_len,
};
use crate::num::{clamp_i64, clamped_i64};
use vstd::prelude::*;

pub use crate::calendar::{civil_from_days, days_from_civil};

verus! {

/// The seconds of a day.
pub const DAY_SECS: i64 = 86_400;

/// The highest rate that is believed, in bytes per second (2 to the power 40).
pub const MAX_RATE_BPS: i64 = 0x100_0000_0000;

/// The largest total, in bytes (2 to the power 60).
pub const MAX_TRAFFIC_TOTAL: i64 = 0x1000_0000_0000_0000;

/// The shortest limit on the time that one report stands for, in seconds.
pub const MIN_REPORT_SPAN: i64 = 30;

/// The days of a month on which counting can start over: those that every month has.
#[verifier::allow_in_spec]
pub fn valid_reset_day(d: i64) -> bool
    returns
        1 <= d && d <= 28,
{
    1 <= d && d <= 28
}

/// The day on which the period of the day `today` began: the last one with the given day of the
/// month.
pub open spec fn period_day(today: int, day: int) -> int {
    let (y, m, d) = date_of(today);
    if d >= day {
        day_number(y, m, day)
    } else if m == 1 {
        day_number(y - 1, 12, day)
    } else {
        day_number(y, m - 1, day)
    }
}

/// The time at which the period of the time `now` began: a midnight (UTC).
pub open spec fn period_start(now: i64, reset_day: i64) -> int {
    DAY_SECS * period_day(now as int / DAY_SECS as int, clamped_i64(reset_day, 1, 28) as int)
}

/// The time at which the period of the time `now` began.
pub fn current_period_start(now: i64, reset_day: i64) -> (r: i64)
    requires
        i64::MIN <= period_start(now, reset_day),
    ensures
        r == period_start(now, reset_day),
{
    let day: u32 = clamp_i64(reset_day, 1, 28) as u32;
    let (today, _): (i64, i64) = floor_div(now, DAY_SECS);
    let (y, m, d) = civil_from_days(today);
    proof {
        lemma_date_of(today as int, y as int, m as int, d as int);
        lemma_period_day(today as int, day as int);
    }
    let start: i64 = if d >= day {
        days_from_civil(y, m, day)
    } else if m == 1 {
        days_from_civil(y - 1, 12, day)
    } else {
        days_from_civil(y, m - 1, day)
    };
    start * DAY_SECS
}

/// The beginning of a period can be told of every time but those of the first month that a clock of
/// 64 bits can show.
pub proof fn lemma_period_fits(now: i64, reset_day: i64)
    requires
        i64::MIN + 32 * DAY_SECS <= now,
    ensures
        i64::MIN <= period_start(now, reset_day) <= now,
{
    let today = now as int / DAY_SECS as int;
    lemma_period_day(today, clamped_i64(reset_day, 1, 28) as int);
}

proof fn lemma_shift(y: int, m: int, a: int, b: int)
    ensures
        day_number(y, m, a) - day_number(y, m, b) == a - b,
{
}

/// A period begins on the day it is named by, at or before the day that lies in it, and lasts for
/// less than a month more.
pub proof fn lemma_period_day(today: int, day: int)
    requires
        1 <= day <= 28,
    ensures
        today - 31 < period_day(today, day) <= today,
        date_of(period_day(today, day)).2 == day,
{
    lemma_date_exists(today);
    let (y, m, d) = date_of(today);
    lemma_shift(y, m, d, day);
    if d >= day {
        lemma_date_of(day_number(y, m, day), y, m, day);
    } else if m == 1 {
        lemma_date_of(day_number(y - 1, 12, day), y - 1, 12, day);
        crate::calendar::lemma_year_len(y - 1);
        assert(days_before_month(y, 1) == 0);
    } else {
        lemma_date_of(day_number(y, m - 1, day), y, m - 1, day);
        assert(days_before_month(y, m) == days_before_month(y, m - 1) + month_len(y, m - 1));
    }
}

/// Within a period the beginning stays the same: the day before the next beginning still has the
/// beginning that the first day has.
pub proof fn lemma_period_lasts(y: int, m: int, day: int, later: int)
    requires
        1 <= m <= 12,
        1 <= day <= 28,
        day_number(y, m, day) <= later,
        later < (if m == 12 {
            day_number(y + 1, 1, day)
        } else {
            day_number(y, m + 1, day)
        }),
    ensures
        period_day(later, day) == day_number(y, m, day),
{
    let first = day_number(y, m, day);
    let d = day + (later - first);
    lemma_shift(y, m, d, day);
    if d <= month_len(y, m) {
        lemma_date_of(later, y, m, d);
    } else {
        let e = d - month_len(y, m);
        if m == 12 {
            crate::calendar::lemma_year_len(y);
            assert(days_before_month(y + 1, 1) == 0);
            assert(day_number(y + 1, 1, e) == later);
            lemma_shift(y + 1, 1, e, day);
            lemma_date_of(later, y + 1, 1, e);
        } else {
            assert(days_before_month(y, m + 1) == days_before_month(y, m) + month_len(y, m));
            assert(day_number(y, m + 1, e) == later);
            lemma_shift(y, m + 1, e, day);
            lemma_date_of(later, y, m + 1, e);
        }
    }
}

// ---------------------------------------------------------------------------
// Counting
// ---------------------------------------------------------------------------

/// What a node has moved, and when that was last worked out (0 before the first report).
#[derive(Debug, Clone, Copy, PartialEq, Eq, Structural)]
pub struct Traffic {
    pub rx_total: i64,
    pub tx_total: i64,
    pub last_ts: i64,
}

/// The longest time that one report stands for, in seconds: three intervals, and at least half a
/// minute.
pub open spec fn report_span(interval_secs: u32) -> int {
    if 3 * interval_secs >= MIN_REPORT_SPAN {
        3 * interval_secs
    } else {
        MIN_REPORT_SPAN as int
    }
}

/// The time that a report at `now` stands for: the first one stands for none.
pub open spec fn report_secs(last_ts: i64, now: i64, interval_secs: u32) -> int {
    if last_ts <= 0 {
        0
    } else if now - last_ts <= report_span(interval_secs) {
        now - last_ts
    } else {
        report_span(interval_secs)
    }
}

/// A total after `secs` seconds at a rate.
pub open spec fn total_after(total: i64, bps: i64, secs: int) -> i64 {
    let sum = total + clamped_i64(bps, 0, MAX_RATE_BPS) * secs;
    if sum <= MAX_TRAFFIC_TOTAL {
        sum as i64
    } else {
        MAX_TRAFFIC_TOTAL
    }
}

fn add_traffic(total: i64, bps: i64, secs: i64) -> (r: i64)
    requires
        0 <= secs <= 12_884_901_885,
    ensures
        r == total_after(total, bps, secs as int),
{
    let rate: i64 = clamp_i64(bps, 0, MAX_RATE_BPS);
    assert(0 <= rate * secs <= 0x100_0000_0000 * 12_884_901_885) by (nonlinear_arith)
        requires
            0 <= rate <= 0x100_0000_0000,
            0 <= secs <= 12_884_901_885,
    ;
    let sum: i128 = total as i128 + (rate as i128) * (secs as i128);
    if sum <= MAX_TRAFFIC_TOTAL as i128 {
        sum as i64
    } else {
        MAX_TRAFFIC_TOTAL
    }
}

/// The traffic of a node after a report at `now` with the given rates; `None` where a report of
/// that second (or a later one) was counted already.
pub fn accumulate(t: &Traffic, now: i64, rx_bps: i64, tx_bps: i64, interval_secs: u32) -> (r:
    Option<Traffic>)
    ensures
        r is Some <==> now > t.last_ts,
        r matches Some(n) ==> n == (Traffic {
            rx_total: total_after(
                t.rx_total,
                rx_bps,
                report_secs(t.last_ts, now, interval_secs),
            ),
            tx_total: total_after(
                t.tx_total,
                tx_bps,
                report_secs(t.last_ts, now, interval_secs),
            ),
            last_ts: now,
        }),
        r matches Some(n) ==> t.last_ts > 0 && now - t.last_ts <= 30 && 0 <= t.rx_total && 0
            <= t.tx_total && 0 <= rx_bps <= MAX_RATE_BPS && 0 <= tx_bps <= MAX_RATE_BPS && t.rx_total
            + rx_bps * (now - t.last_ts) <= MAX_TRAFFIC_TOTAL && t.tx_total + tx_bps * (now
            - t.last_ts) <= MAX_TRAFFIC_TOTAL ==> n.rx_total == t.rx_total + rx_bps * (now - t.last_ts)
            && n.tx_total == t.tx_total + tx_bps * (now - t.last_ts),
{
    if now <= t.last_ts {
        return None;
    }
    let three: i64 = 3 * (interval_secs as i64);
    let span: i64 = if three >= MIN_REPORT_SPAN {
        three
    } else {
        MIN_REPORT_SPAN
    };
    let secs: i64 = if t.last_ts <= 0 {
        0
    } else if now - t.last_ts <= span {
        now - t.last_ts
    } else {
        span
    };
    Some(
        Traffic {
            rx_total: add_traffic(t.rx_total, rx_bps, secs),
            tx_total: add_traffic(t.tx_total, tx_bps, secs),
            last_ts: now,
        },
    )
}

/// Whatever rates a node reports, a total neither shrinks nor grows past its limit.
pub proof fn lemma_total_bounded(total: i64, bps: i64, secs: int)
    requires
        0 <= total <= MAX_TRAFFIC_TOTAL,
        0 <= secs,
    ensures
        total <= total_after(total, bps, secs) <= MAX_TRAFFIC_TOTAL,
{
    let rate = clamped_i64(bps, 0, MAX_RATE_BPS) as int;
    assert(0 <= rate * secs) by (nonlinear_arith)
        requires
            0 <= rate,
            0 <= secs,
    ;
}

/// What to do about the period of a node.
#[derive(Debug, Clone, Copy, PartialEq, Eq, Structural)]
pub enum PeriodStep {
    /// Nothing.
    Stay,
    /// Note the beginning; what was counted stays.
    Note { start: i64 },
    /// Note the new beginning and count from 0.
    StartOver { start: i64 },
}

/// What to do about a node that counts by the month: `noted` is the beginning that was noted (0
/// where none was).
pub fn sweep_resets(now: i64, reset_day: i64, noted: i64) -> (r: PeriodStep)
    requires
        i64::MIN <= period_start(now, reset_day),
    ensures
        r == if noted == 0 {
            PeriodStep::Note { start: period_start(now, reset_day) as i64 }
        } else if noted != period_start(now, reset_day) {
            PeriodStep::StartOver { start: period_start(now, reset_day) as i64 }
        } else {
            PeriodStep::Stay
        },
{
    let start: i64 = current_period_start(now, reset_day);
    if noted == 0 {
        PeriodStep::Note { start }
    } else if noted != start {
        PeriodStep::StartOver { start }
    } else {
        PeriodStep::Stay
    }
}

} // verus!
