//! The per-file running clock: a civil (calendar) date and time of day.
//!
//! Historical log lines carry only fragments of wall-clock time, so each file
//! is replayed under a `ClockState` cursor that detection rules update.  The
//! clock covers the years 1970 through 9999; dates outside that range are
//! treated as malformed and leave the clock unchanged.

use vstd::prelude::*;

verus! {

/// A civil date and time of day, without a time zone.
#[derive(Clone, Copy, Debug, PartialEq, Eq, Structural)]
pub struct ClockState {
    pub year: u32,
    pub month: u32,
    pub day: u32,
    pub hour: u32,
    pub min: u32,
    pub sec: u32,
}

/// A year has 366 days when it is divisible by 4, except century years not
/// divisible by 400.
pub open spec fn spec_is_leap_year(y: u32) -> bool {
    y % 4 == 0 && (y % 100 != 0 || y % 400 == 0)
}

/// The number of days in the given month of the given year.
pub open spec fn spec_days_in_month(y: u32, m: u32) -> u32 {
    if m == 1 || m == 3 || m == 5 || m == 7 || m == 8 || m == 10 || m == 12 {
        31
    } else if m == 4 || m == 6 || m == 9 || m == 11 {
        30
    } else if spec_is_leap_year(y) {
        29
    } else {
        28
    }
}

impl ClockState {
    /// A clock is well formed when it names a real calendar date between
    /// 1970 and 9999 and a real time of day.
    pub open spec fn wf(self) -> bool {
        &&& 1970 <= self.year <= 9999
        &&& 1 <= self.month <= 12
        &&& 1 <= self.day <= spec_days_in_month(self.year, self.month)
        &&& self.hour < 24
        &&& self.min < 60
        &&& self.sec < 60
    }

    /// The clock as seconds since 1970-01-01 00:00:00.
    pub fn epoch_seconds(&self) -> (r: i64)
        requires
            self.wf(),
        ensures
            r == spec_epoch_seconds(*self),
            0 <= r,
    {
        let mut days: u32 = 0;
        let mut y: u32 = 1970;
        while y < self.year
            invariant
                1970 <= y <= self.year <= 9999,
                days == spec_days_before_year(y),
                days <= 366 * (y - 1970),
            decreases self.year - y,
        {
            days = days + if is_leap_year(y) {
                366
            } else {
                365
            };
            y = y + 1;
        }
        let mut m: u32 = 1;
        let mut mdays: u32 = 0;
        while m < self.month
            invariant
                1 <= m <= self.month,
                self.wf(),
                mdays == spec_days_before_month(self.year, m),
                mdays <= 31 * (m - 1),
            decreases self.month - m,
        {
            mdays = mdays + days_in_month(self.year, m);
            m = m + 1;
        }
        proof {
            lemma_days_before_year_bound(self.year);
        }
        let total_days: i64 = days as i64 + mdays as i64 + self.day as i64 - 1;
        total_days * 86400 + self.hour as i64 * 3600 + self.min as i64 * 60 + self.sec as i64
    }
}

/// The number of days in the given year.
pub open spec fn spec_days_in_year(y: u32) -> int {
    if spec_is_leap_year(y) {
        366
    } else {
        365
    }
}

/// Days from 1970-01-01 up to the first day of the given year.
pub open spec fn spec_days_before_year(y: u32) -> int
    decreases y,
{
    if y <= 1970 {
        0
    } else {
        spec_days_before_year((y - 1) as u32) + spec_days_in_year((y - 1) as u32)
    }
}

/// Days from the first of January up to the first day of the given month.
pub open spec fn spec_days_before_month(y: u32, m: u32) -> int
    decreases m,
{
    if m <= 1 {
        0
    } else {
        spec_days_before_month(y, (m - 1) as u32) + spec_days_in_month(y, (m - 1) as u32)
    }
}

/// Seconds from 1970-01-01 00:00:00 to the clock's instant, both read as
/// civil time of the same (unspecified) zone.
pub open spec fn spec_epoch_seconds(c: ClockState) -> int {
    (spec_days_before_year(c.year) + spec_days_before_month(c.year, c.month) + c.day - 1) * 86400
        + c.hour * 3600 + c.min * 60 + c.sec
}

proof fn lemma_days_before_year_bound(y: u32)
    requires
        1970 <= y <= 10000,
    ensures
        0 <= spec_days_before_year(y) <= 366 * (y - 1970),
    decreases y,
{
    if y > 1970 {
        lemma_days_before_year_bound((y - 1) as u32);
    }
}

/// The first twelve months of a year hold all of its days.
proof fn lemma_year_months(y: u32)
    ensures
        spec_days_before_month(y, 13) == spec_days_in_year(y),
{
    reveal_with_fuel(spec_days_before_month, 14);
}

/// Later years never have earlier first days.
proof fn lemma_days_before_year_monotonic(y1: u32, y2: u32)
    requires
        y1 <= y2,
    ensures
        spec_days_before_year(y1) <= spec_days_before_year(y2),
    decreases y2,
{
    if y1 < y2 && y2 > 1970 {
        lemma_days_before_year_monotonic(y1, (y2 - 1) as u32);
    }
}

/// Later months never start earlier in the year.
proof fn lemma_days_before_month_monotonic(y: u32, m1: u32, m2: u32)
    requires
        m1 <= m2,
    ensures
        spec_days_before_month(y, m1) <= spec_days_before_month(y, m2),
    decreases m2,
{
    if m1 < m2 && m2 > 1 {
        lemma_days_before_month_monotonic(y, m1, (m2 - 1) as u32);
    }
}

/// The day number of a well-formed clock: days since 1970-01-01.
spec fn spec_day_number(c: ClockState) -> int {
    spec_days_before_year(c.year) + spec_days_before_month(c.year, c.month) + c.day - 1
}

/// A well-formed clock's day number falls inside its year.
proof fn lemma_day_number_in_year(c: ClockState)
    requires
        c.wf(),
    ensures
        spec_days_before_year(c.year) <= spec_day_number(c),
        spec_day_number(c) < spec_days_before_year(c.year) + spec_days_in_year(c.year),
{
    lemma_days_before_month_monotonic(c.year, 1, c.month);
    lemma_days_before_month_monotonic(c.year, (c.month + 1) as u32, 13);
    lemma_year_months(c.year);
    assert(spec_days_before_month(c.year, (c.month + 1) as u32) == spec_days_before_month(
        c.year,
        c.month,
    ) + spec_days_in_month(c.year, c.month));
}

/// Two well-formed clocks with the same epoch seconds are the same clock:
/// an instant has exactly one civil reading.
pub proof fn lemma_epoch_injective(a: ClockState, b: ClockState)
    requires
        a.wf(),
        b.wf(),
        spec_epoch_seconds(a) == spec_epoch_seconds(b),
    ensures
        a == b,
{
    let tod_a = a.hour * 3600 + a.min * 60 + a.sec;
    let tod_b = b.hour * 3600 + b.min * 60 + b.sec;
    assert(spec_day_number(a) == spec_day_number(b) && tod_a == tod_b) by {
        if spec_day_number(a) < spec_day_number(b) {
            assert(spec_day_number(a) * 86400 + 86400 <= spec_day_number(b) * 86400)
                by (nonlinear_arith)
                requires
                    spec_day_number(a) < spec_day_number(b),
            ;
        }
        if spec_day_number(b) < spec_day_number(a) {
            assert(spec_day_number(b) * 86400 + 86400 <= spec_day_number(a) * 86400)
                by (nonlinear_arith)
                requires
                    spec_day_number(b) < spec_day_number(a),
            ;
        }
    };
    assert(a.hour == b.hour && a.min == b.min && a.sec == b.sec);
    assert(a.year == b.year) by {
        if a.year < b.year {
            lemma_day_number_in_year(a);
            lemma_day_number_in_year(b);
            lemma_days_before_year_monotonic((a.year + 1) as u32, b.year);
        }
        if b.year < a.year {
            lemma_day_number_in_year(a);
            lemma_day_number_in_year(b);
            lemma_days_before_year_monotonic((b.year + 1) as u32, a.year);
        }
    };
    assert(a.month == b.month) by {
        if a.month < b.month {
            lemma_days_before_month_monotonic(a.year, (a.month + 1) as u32, b.month);
            assert(spec_days_before_month(a.year, (a.month + 1) as u32)
                == spec_days_before_month(a.year, a.month) + spec_days_in_month(
                a.year,
                a.month,
            ));
        }
        if b.month < a.month {
            lemma_days_before_month_monotonic(a.year, (b.month + 1) as u32, a.month);
            assert(spec_days_before_month(a.year, (b.month + 1) as u32)
                == spec_days_before_month(a.year, b.month) + spec_days_in_month(
                a.year,
                b.month,
            ));
        }
    };
}

/// The first timestamp past the clock's range: the start of year 10000.
pub fn epoch_limit() -> (r: i64)
    ensures
        r == 86400 * spec_days_before_year(10000),
{
    let mut days: u32 = 0;
    let mut y: u32 = 1970;
    while y < 10000
        invariant
            1970 <= y <= 10000,
            days == spec_days_before_year(y),
            days <= 366 * (y - 1970),
        decreases 10000 - y,
    {
        days = days + if is_leap_year(y) {
            366
        } else {
            365
        };
        y = y + 1;
    }
    86400 * days as i64
}

/// The clock whose epoch seconds are `ts`, for any `ts` within the clock's
/// range.
pub fn civil_from_epoch(ts: i64) -> (r: ClockState)
    requires
        0 <= ts,
        ts < 86400 * spec_days_before_year(10000),
    ensures
        r.wf(),
        spec_epoch_seconds(r) == ts,
{
    let total = ts as u64;
    let days: u64 = total / 86400;
    let rem: u64 = total % 86400;
    proof {
        vstd::arithmetic::div_mod::lemma_fundamental_div_mod(total as int, 86400);
        assert(days < spec_days_before_year(10000)) by {
            if days >= spec_days_before_year(10000) {
                assert(total >= 86400 * days) by (nonlinear_arith)
                    requires
                        total as int == 86400 * (days as int) + rem as int,
                        rem >= 0,
                ;
                assert(86400 * (days as int) >= 86400 * spec_days_before_year(10000))
                    by (nonlinear_arith)
                    requires
                        days as int >= spec_days_before_year(10000),
                ;
            }
        };
    }
    let mut y: u32 = 1970;
    let mut d: u64 = days;
    loop
        invariant
            1970 <= y <= 9999,
            days as int == spec_days_before_year(y) + d,
            days < spec_days_before_year(10000),
        ensures
            1970 <= y <= 9999,
            days as int == spec_days_before_year(y) + d,
            d < spec_days_in_year(y),
        decreases d,
    {
        let in_year: u64 = if is_leap_year(y) {
            366
        } else {
            365
        };
        if d < in_year {
            break ;
        }
        proof {
            assert(spec_days_before_year((y + 1) as u32) == spec_days_before_year(y)
                + spec_days_in_year(y));
            if y + 1 == 10000 {
                assert(days as int >= spec_days_before_year(10000));
            }
        }
        d = d - in_year;
        y = y + 1;
    }
    let mut m: u32 = 1;
    let ghost in_month_days = d;
    loop
        invariant
            1 <= m <= 12,
            in_month_days == spec_days_before_month(y, m) + d,
            in_month_days < spec_days_in_year(y),
            1970 <= y <= 9999,
        ensures
            1 <= m <= 12,
            in_month_days == spec_days_before_month(y, m) + d,
            d < spec_days_in_month(y, m),
            1970 <= y <= 9999,
        decreases 12 - m,
    {
        let in_month: u64 = days_in_month(y, m) as u64;
        if d < in_month {
            break ;
        }
        if m == 12 {
            proof {
                lemma_year_months(y);
                assert(spec_days_before_month(y, 13) == spec_days_before_month(y, 12)
                    + spec_days_in_month(y, 12));
                assert(false);
            }
        }
        proof {
            assert(spec_days_before_month(y, (m + 1) as u32) == spec_days_before_month(y, m)
                + spec_days_in_month(y, m));
        }
        d = d - in_month;
        m = m + 1;
    }
    let hour: u64 = rem / 3600;
    let rem_min: u64 = rem % 3600;
    let minute: u64 = rem_min / 60;
    let second: u64 = rem_min % 60;
    proof {
        vstd::arithmetic::div_mod::lemma_fundamental_div_mod(rem as int, 3600);
        vstd::arithmetic::div_mod::lemma_fundamental_div_mod(rem_min as int, 60);
        assert(hour < 24 && rem_min < 3600 && minute < 60 && second < 60);
        assert(total as int == 86400 * (days as int) + 3600 * hour + 60 * minute + second);
    }
    let r = ClockState {
        year: y,
        month: m,
        day: (d + 1) as u32,
        hour: hour as u32,
        min: minute as u32,
        sec: second as u32,
    };
    proof {
        assert(spec_epoch_seconds(r) == (spec_days_before_year(y) + spec_days_before_month(y, m)
            + d + 1 - 1) * 86400 + hour * 3600 + minute * 60 + second);
        assert((days as int) * 86400 == 86400 * (days as int)) by (nonlinear_arith);
    }
    r
}

pub fn is_leap_year(y: u32) -> (r: bool)
    ensures
        r == spec_is_leap_year(y),
{
    y % 4 == 0 && (y % 100 != 0 || y % 400 == 0)
}

pub fn days_in_month(y: u32, m: u32) -> (r: u32)
    ensures
        r == spec_days_in_month(y, m),
{
    if m == 1 || m == 3 || m == 5 || m == 7 || m == 8 || m == 10 || m == 12 {
        31
    } else if m == 4 || m == 6 || m == 9 || m == 11 {
        30
    } else if is_leap_year(y) {
        29
    } else {
        28
    }
}

} // verus!
