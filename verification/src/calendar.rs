//! The calendar: days counted from 1 January 1970, and their dates.

use vstd::prelude::*;

verus! {

/// A leap year of the Gregorian calendar.
pub open spec fn leap(y: int) -> bool {
    y % 4 == 0 && (y % 100 != 0 || y % 400 == 0)
}

/// The number of days of a month.
pub open spec fn month_len(y: int, m: int) -> int {
    if m == 2 {
        if leap(y) {
            29
        } else {
            28
        }
    } else if m == 4 || m == 6 || m == 9 || m == 11 {
        30
    } else {
        31
    }
}

/// The number of days from 1 January of the year 1 to that of the year `y`.
pub open spec fn days_before_year(y: int) -> int {
    365 * (y - 1) + (y - 1) / 4 - (y - 1) / 100 + (y - 1) / 400
}

/// The number of days of the year `y` before its month `m`.
pub open spec fn days_before_month(y: int, m: int) -> int
    decreases m,
{
    if m <= 1 {
        0
    } else {
        days_before_month(y, m - 1) + month_len(y, m - 1)
    }
}

/// A date of the calendar.
pub open spec fn valid_date(y: int, m: int, d: int) -> bool {
    1 <= m <= 12 && 1 <= d <= month_len(y, m)
}

/// The number of days from 1 January 1970 to a date.
pub open spec fn day_number(y: int, m: int, d: int) -> int {
    days_before_year(y) + days_before_month(y, m) + d - 1 - 719_162
}

/// A year is as long as its months together.
pub proof fn lemma_year_len(y: int)
    ensures
        days_before_year(y + 1) == days_before_year(y) + 365 + if leap(y) {
            1int
        } else {
            0int
        },
        days_before_month(y, 12) + month_len(y, 12) == 365 + if leap(y) {
            1int
        } else {
            0int
        },
{
    reveal_with_fuel(days_before_month, 13);
    let x = y - 1;
    assert(y / 4 == x / 4 + if y % 4 == 0 {
        1int
    } else {
        0int
    });
    assert(y / 100 == x / 100 + if y % 100 == 0 {
        1int
    } else {
        0int
    });
    assert(y / 400 == x / 400 + if y % 400 == 0 {
        1int
    } else {
        0int
    });
}

proof fn lemma_months(y: int, m: int)
    requires
        1 <= m <= 12,
    ensures
        days_before_month(y, 1) == 0,
        days_before_month(y, 2) == 31,
        m >= 3 ==> days_before_month(y, m) == (153 * (m - 3) + 2) / 5 + 59 + if leap(y) {
            1int
        } else {
            0int
        },
{
    reveal_with_fuel(days_before_month, 13);
}

/// The number of days from 1 March of the year 0 (of eras of 400 years) to that of the year `y`.
spec fn march(y: int) -> int {
    365 * y + y / 4 - y / 100 + y / 400
}

proof fn lemma_march(y: int)
    ensures
        days_before_year(y) + 59 + (if leap(y) {
            1int
        } else {
            0int
        }) == march(y) - 306,
        days_before_year(y + 1) == march(y),
{
    lemma_year_len(y);
}

proof fn lemma_era(era: int, yoe: int)
    requires
        0 <= yoe < 400,
    ensures
        march(400 * era + yoe) == 146_097 * era + 365 * yoe + yoe / 4 - yoe / 100,
{
    let y = 400 * era + yoe;
    assert(y / 4 == 100 * era + yoe / 4);
    assert(y / 100 == 4 * era + yoe / 100);
    assert(y / 400 == era);
}

/// The day number of a date by its year that begins in March, and its month and day in that year.
proof fn lemma_day_number(era: int, yoe: int, mp: int, d: int)
    requires
        0 <= yoe < 400,
        0 <= mp < 12,
    ensures
        ({
            let y = 400 * era + yoe;
            let m = if mp < 10 {
                mp + 3
            } else {
                mp - 9
            };
            let year = if m <= 2 {
                y + 1
            } else {
                y
            };
            day_number(year, m, d) == 146_097 * era + 365 * yoe + yoe / 4 - yoe / 100 + (153 * mp
                + 2) / 5 + d - 1 - 719_468
        }),
{
    let y = 400 * era + yoe;
    lemma_march(y);
    lemma_era(era, yoe);
    if mp < 10 {
        lemma_months(y, mp + 3);
    } else {
        lemma_months(y + 1, mp - 9);
    }
}

proof fn lemma_month_of(doy: int)
    requires
        0 <= doy <= 365,
    ensures
        ({
            let mp = (5 * doy + 2) / 153;
            0 <= mp < 12 && (153 * mp + 2) / 5 <= doy < (153 * (mp + 1) + 2) / 5
        }),
{
}

proof fn lemma_month_fits(era: int, yoe: int, mp: int, doy: int)
    requires
        0 <= yoe < 400,
        0 <= mp < 12,
        (153 * mp + 2) / 5 <= doy < (153 * (mp + 1) + 2) / 5,
        0 <= doy,
        doy < 365 || (doy == 365 && leap(400 * era + yoe + 1)),
    ensures
        ({
            let y = 400 * era + yoe;
            let m = if mp < 10 {
                mp + 3
            } else {
                mp - 9
            };
            let year = if m <= 2 {
                y + 1
            } else {
                y
            };
            valid_date(year, m, doy - (153 * mp + 2) / 5 + 1)
        }),
{
}

proof fn lemma_year_of_era(doe: int)
    requires
        0 <= doe < 146_097,
    ensures
        ({
            let yoe = (doe - doe / 1460 + doe / 36524 - doe / 146_096) / 365;
            let doy = doe - (365 * yoe + yoe / 4 - yoe / 100);
            &&& 0 <= yoe < 400
            &&& 0 <= doy <= 365
            &&& doy == 365 ==> (yoe + 1) % 4 == 0 && ((yoe + 1) % 100 != 0 || (yoe + 1) % 400 == 0)
        }),
{
    let yoe = (doe - doe / 1460 + doe / 36524 - doe / 146_096) / 365;
    let c = doe / 36524;
    let r = doe - 36524 * c;
    assert(0 <= c <= 4);
    if c == 4 {
        assert(doe == 146_096);
    }
}

/// The quotient and the remainder of `a` by `b`, rounded down.
pub fn floor_div(a: i64, b: i64) -> (r: (i64, i64))
    requires
        b > 0,
    ensures
        r.0 == a as int / b as int,
        r.1 == a as int % b as int,
{
    if a >= 0 {
        let (x, y): (u64, u64) = (a as u64, b as u64);
        let (q, m): (u64, u64) = (x / y, x % y);
        proof {
            assert(0 <= q <= x) by (nonlinear_arith)
                requires
                    q == x / y,
                    y >= 1,
            ;
        }
        (q as i64, m as i64)
    } else {
        let x: u64 = (-(a + 1)) as u64;
        let y: u64 = b as u64;
        let (q, m): (u64, u64) = (x / y, x % y);
        proof {
            assert(0 <= q <= x && x == y * q + m && 0 <= m < y) by (nonlinear_arith)
                requires
                    q == x / y,
                    m == x % y,
                    y >= 1,
            ;
            let (qi, mi, bi, ai) = (-(q as int) - 1, b - 1 - m, b as int, a as int);
            assert(ai == bi * qi + mi) by (nonlinear_arith)
                requires
                    ai == -(x as int) - 1,
                    x == y * q + m,
                    y == bi,
                    qi == -(q as int) - 1,
                    mi == bi - 1 - m,
            ;
            vstd::arithmetic::div_mod::lemma_fundamental_div_mod_converse(ai, bi, qi, mi);
        }
        (-(q as i64) - 1, b - 1 - m as i64)
    }
}

fn split_era(z: i64) -> (r: (i64, u64))
    ensures
        r.1 < 146_097,
        z == 146_097 * r.0 + r.1 - 719_468,
        -64_000_000_000_000 < r.0 < 64_000_000_000_000,
{
    let shifted: u128 = (z as i128 + 719_468i128 + 14_609_700_000_000_000_000i128) as u128;
    let era: i128 = (shifted / 146_097) as i128 - 100_000_000_000_000i128;
    let doe: u128 = shifted % 146_097;
    (era as i64, doe as u64)
}

fn split_year(doe: u64) -> (r: (u64, u64))
    requires
        doe < 146_097,
    ensures
        r.0 < 400,
        r.1 <= 365,
        doe == 365 * r.0 + r.0 / 4 - r.0 / 100 + r.1,
        r.1 == 365 ==> (r.0 + 1) % 4 == 0 && ((r.0 + 1) % 100 != 0 || (r.0 + 1) % 400 == 0),
{
    proof {
        lemma_year_of_era(doe as int);
    }
    let yoe: u64 = (doe - doe / 1460 + doe / 36524 - doe / 146_096) / 365;
    let doy: u64 = doe - (365 * yoe + yoe / 4 - yoe / 100);
    (yoe, doy)
}

proof fn lemma_leap_in_era(era: int, yoe: int)
    requires
        0 <= yoe < 400,
    ensures
        leap(400 * era + yoe + 1) == ((yoe + 1) % 4 == 0 && ((yoe + 1) % 100 != 0 || (yoe + 1) % 400
            == 0)),
{
}

/// The date of a day, by its number: year, month, day.
pub fn civil_from_days(z: i64) -> (r: (i64, u32, u32))
    ensures
        valid_date(r.0 as int, r.1 as int, r.2 as int),
        day_number(r.0 as int, r.1 as int, r.2 as int) == z,
{
    let (era, doe): (i64, u64) = split_era(z);
    let (yoe, doy): (u64, u64) = split_year(doe);
    proof {
        lemma_month_of(doy as int);
    }
    let mp: u64 = (5 * doy + 2) / 153;
    let d: u64 = doy - (153 * mp + 2) / 5 + 1;
    proof {
        lemma_leap_in_era(era as int, yoe as int);
        lemma_month_fits(era as int, yoe as int, mp as int, doy as int);
        lemma_day_number(era as int, yoe as int, mp as int, d as int);
    }
    let y: i64 = 400 * era + yoe as i64;
    let m: u64 = if mp < 10 {
        mp + 3
    } else {
        mp - 9
    };
    let year: i64 = if m <= 2 {
        y + 1
    } else {
        y
    };
    (year, m as u32, d as u32)
}

/// The number of a day, by its date.
pub fn days_from_civil(y: i64, m: u32, d: u32) -> (r: i64)
    requires
        1 <= m <= 12,
        1 <= d,
        i64::MIN <= day_number(y as int, m as int, d as int) <= i64::MAX,
    ensures
        r == day_number(y as int, m as int, d as int),
{
    let first: i128 = if m <= 2 {
        y as i128 - 1
    } else {
        y as i128
    };
    let shifted: u128 = (first + 40_000_000_000_000_000_000i128) as u128;
    let era: i128 = (shifted / 400) as i128 - 100_000_000_000_000_000i128;
    let yoe: i128 = (shifted % 400) as i128;
    let mp: i128 = if m > 2 {
        m as i128 - 3
    } else {
        m as i128 + 9
    };
    let months: i128 = ((153u64 * (mp as u64) + 2) / 5) as i128;
    let quarters: i128 = ((yoe as u64) / 4) as i128;
    let centuries: i128 = ((yoe as u64) / 100) as i128;
    proof {
        lemma_day_number(era as int, yoe as int, mp as int, d as int);
        assert(first == 400 * era + yoe);
    }
    let days: i128 = 146_097 * era + 365 * yoe + quarters - centuries + months + d as i128 - 1
        - 719_468;
    days as i64
}

proof fn lemma_month_monotone(y: int, a: int, b: int)
    requires
        1 <= a < b <= 13,
    ensures
        days_before_month(y, a) + month_len(y, a) <= days_before_month(y, b),
    decreases b,
{
    if a < b - 1 {
        lemma_month_monotone(y, a, b - 1);
    }
}

proof fn lemma_year_monotone(a: int, b: int)
    requires
        a < b,
    ensures
        days_before_year(a + 1) <= days_before_year(b),
    decreases b - a,
{
    if a + 1 < b {
        lemma_year_monotone(a, b - 1);
        lemma_year_len(b - 1);
    }
}

/// Of two different dates the later one has the larger number.
pub proof fn lemma_dates_ordered(y1: int, m1: int, d1: int, y2: int, m2: int, d2: int)
    requires
        valid_date(y1, m1, d1),
        valid_date(y2, m2, d2),
        y1 < y2 || (y1 == y2 && m1 < m2) || (y1 == y2 && m1 == m2 && d1 < d2),
    ensures
        day_number(y1, m1, d1) < day_number(y2, m2, d2),
{
    if y1 < y2 {
        lemma_year_monotone(y1, y2);
        lemma_year_len(y1);
        if m1 < 12 {
            lemma_month_monotone(y1, m1, 12);
        }
        if 1 < m2 {
            lemma_month_monotone(y2, 1, m2);
        }
        lemma_months(y2, 1);
    } else if m1 < m2 {
        lemma_month_monotone(y1, m1, m2);
    }
}

/// A day has one date.
pub proof fn lemma_date_unique(y1: int, m1: int, d1: int, y2: int, m2: int, d2: int)
    requires
        valid_date(y1, m1, d1),
        valid_date(y2, m2, d2),
        day_number(y1, m1, d1) == day_number(y2, m2, d2),
    ensures
        y1 == y2,
        m1 == m2,
        d1 == d2,
{
    if y1 < y2 || (y1 == y2 && m1 < m2) || (y1 == y2 && m1 == m2 && d1 < d2) {
        lemma_dates_ordered(y1, m1, d1, y2, m2, d2);
    } else if y2 < y1 || m2 < m1 || d2 < d1 {
        lemma_dates_ordered(y2, m2, d2, y1, m1, d1);
    }
}

/// The date of the day number `z`.
pub open spec fn date_of(z: int) -> (int, int, int) {
    choose|t: (int, int, int)| valid_date(t.0, t.1, t.2) && #[trigger] day_number(t.0, t.1, t.2) == z
}

/// A date that has the number `z` is the date of `z`.
pub proof fn lemma_date_of(z: int, y: int, m: int, d: int)
    requires
        valid_date(y, m, d),
        day_number(y, m, d) == z,
    ensures
        date_of(z) == (y, m, d),
{
    let w = (y, m, d);
    assert(valid_date(w.0, w.1, w.2) && day_number(w.0, w.1, w.2) == z);
    let t = date_of(z);
    lemma_date_unique(t.0, t.1, t.2, y, m, d);
}

/// Every day has a date.
pub proof fn lemma_date_exists(z: int)
    ensures
        ({
            let (y, m, d) = date_of(z);
            valid_date(y, m, d) && day_number(y, m, d) == z
        }),
{
    let era = (z + 719_468) / 146_097;
    let doe = (z + 719_468) % 146_097;
    lemma_year_of_era(doe);
    let yoe = (doe - doe / 1460 + doe / 36524 - doe / 146_096) / 365;
    let doy = doe - (365 * yoe + yoe / 4 - yoe / 100);
    lemma_month_of(doy);
    let mp = (5 * doy + 2) / 153;
    let d = doy - (153 * mp + 2) / 5 + 1;
    lemma_leap_in_era(era, yoe);
    lemma_month_fits(era, yoe, mp, doy);
    lemma_day_number(era, yoe, mp, d);
    let m = if mp < 10 {
        mp + 3
    } else {
        mp - 9
    };
    let y = if m <= 2 {
        400 * era + yoe + 1
    } else {
        400 * era + yoe
    };
    assert(z == 146_097 * era + doe - 719_468);
    lemma_date_of(z, y, m, d);
}

} // verus!
