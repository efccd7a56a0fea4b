//! The timestamp inference engine.
//!
//! During historical replay, three mutually exclusive line patterns are tried
//! in a fixed priority order against each line, and the first that matches
//! updates the per-file clock:
//!
//! 1. an hour:minute marker, `"13:37 ..."`, which keeps the inferred date and
//!    sets the time of day with seconds zero;
//! 2. a day-change marker, `"--- Day changed Fri Aug 13 2021"`, which moves
//!    the clock to midnight of the given date;
//! 3. a log-open marker, `"--- Log opened Sun Aug 08 13:37:42 2021"`, which
//!    sets the full timestamp.
//!
//! A line that matches none of them, or whose numeric fields are out of
//! range, leaves the clock unchanged.

use vstd::prelude::*;

use crate::clock::ClockState;
use crate::clock::spec_days_in_month;
use crate::scan::{
    digits_end, is_digit, is_space, lemma_digits_end_all_digits, month_number, parse_u32,
    spec_digit_val, spec_digits_end, spec_digits_val, spec_is_digit, spec_is_space,
    spec_month_number, spec_word_end, word_end,
};
use crate::text::starts_with_chars;
use crate::text::to_char_vec;

verus! {

/// A real calendar date within the range the clock covers.
pub open spec fn spec_valid_date(y: u32, m: u32, d: u32) -> bool {
    &&& 1970 <= y <= 9999
    &&& 1 <= m <= 12
    &&& 1 <= d <= spec_days_in_month(y, m)
}

/// The hour:minute marker: two digits, a colon, two digits and a whitespace
/// character at the head of the line.
pub open spec fn spec_hourmin(s: Seq<char>) -> Option<(u32, u32)> {
    if s.len() >= 6 && spec_is_digit(s[0]) && spec_is_digit(s[1]) && s[2] == ':' && spec_is_digit(
        s[3],
    ) && spec_is_digit(s[4]) && spec_is_space(s[5]) {
        Some(
            (
                (spec_digit_val(s[0]) * 10 + spec_digit_val(s[1])) as u32,
                (spec_digit_val(s[3]) * 10 + spec_digit_val(s[4])) as u32,
            ),
        )
    } else {
        None
    }
}

/// The day-change marker: the literal prefix, a weekday word, a month word,
/// a day number and a year.  The result is `(month, day, year)`.
pub open spec fn spec_daychange(s: Seq<char>) -> Option<(u32, u32, u32)> {
    let pre = "--- Day changed "@;
    if !pre.is_prefix_of(s) {
        None
    } else {
        let w0 = pre.len() as int;
        let w1 = spec_word_end(s, w0);
        if w1 == w0 || w1 >= s.len() || s[w1] != ' ' {
            None
        } else {
            let m0 = w1 + 1;
            let m1 = spec_word_end(s, m0);
            if m1 == m0 || m1 >= s.len() || s[m1] != ' ' {
                None
            } else if spec_month_number(s.subrange(m0, m1)) is None {
                None
            } else {
                let mon = spec_month_number(s.subrange(m0, m1)).unwrap();
                let d0 = m1 + 1;
                let d1 = spec_digits_end(s, d0);
                if d1 == d0 || d1 >= s.len() || s[d1] != ' ' {
                    None
                } else {
                    let day = spec_digits_val(s.subrange(d0, d1));
                    if day > u32::MAX {
                        None
                    } else {
                        let y0 = d1 + 1;
                        let y1 = spec_digits_end(s, y0);
                        if y1 == y0 {
                            None
                        } else {
                            let year = spec_digits_val(s.subrange(y0, y1));
                            if year > u32::MAX {
                                None
                            } else {
                                Some((mon, day as u32, year as u32))
                            }
                        }
                    }
                }
            }
        }
    }
}

/// The log-open marker: the literal prefix, a weekday word, a month word, a
/// day number, an `HH:MM:SS` group and a year.  The result is
/// `(month, day, hour, minute, second, year)`.
pub open spec fn spec_logopen(s: Seq<char>) -> Option<(u32, u32, u32, u32, u32, u32)> {
    let pre = "--- Log opened "@;
    if !pre.is_prefix_of(s) {
        None
    } else {
        let w0 = pre.len() as int;
        let w1 = spec_word_end(s, w0);
        if w1 == w0 || w1 >= s.len() || s[w1] != ' ' {
            None
        } else {
            let m0 = w1 + 1;
            let m1 = spec_word_end(s, m0);
            if m1 == m0 || m1 >= s.len() || s[m1] != ' ' {
                None
            } else if spec_month_number(s.subrange(m0, m1)) is None {
                None
            } else {
                let mon = spec_month_number(s.subrange(m0, m1)).unwrap();
                let d0 = m1 + 1;
                let d1 = spec_digits_end(s, d0);
                if d1 == d0 || d1 >= s.len() || s[d1] != ' ' {
                    None
                } else {
                    let day = spec_digits_val(s.subrange(d0, d1));
                    if day > u32::MAX {
                        None
                    } else {
                        let h0 = d1 + 1;
                        let h1 = spec_digits_end(s, h0);
                        if h1 == h0 || h1 >= s.len() || s[h1] != ':' {
                            None
                        } else {
                            let hour = spec_digits_val(s.subrange(h0, h1));
                            if hour > u32::MAX {
                                None
                            } else {
                                let n0 = h1 + 1;
                                let n1 = spec_digits_end(s, n0);
                                if n1 == n0 || n1 >= s.len() || s[n1] != ':' {
                                    None
                                } else {
                                    let minute = spec_digits_val(s.subrange(n0, n1));
                                    if minute > u32::MAX {
                                        None
                                    } else {
                                        let c0 = n1 + 1;
                                        let c1 = spec_digits_end(s, c0);
                                        if c1 == c0 || c1 >= s.len() || s[c1] != ' ' {
                                            None
                                        } else {
                                            let second = spec_digits_val(s.subrange(c0, c1));
                                            if second > u32::MAX {
                                                None
                                            } else {
                                                let y0 = c1 + 1;
                                                let y1 = spec_digits_end(s, y0);
                                                if y1 == y0 {
                                                    None
                                                } else {
                                                    let year = spec_digits_val(
                                                        s.subrange(y0, y1),
                                                    );
                                                    if year > u32::MAX {
                                                        None
                                                    } else {
                                                        Some(
                                                            (
                                                                mon,
                                                                day as u32,
                                                                hour as u32,
                                                                minute as u32,
                                                                second as u32,
                                                                year as u32,
                                                            ),
                                                        )
                                                    }
                                                }
                                            }
                                        }
                                    }
                                }
                            }
                        }
                    }
                }
            }
        }
    }
}

/// How one line moves the clock: the highest-priority matching pattern
/// applies; a line whose fields are out of range leaves the clock unchanged.
pub open spec fn spec_clock_step(c: ClockState, s: Seq<char>) -> ClockState {
    if spec_hourmin(s) is Some {
        let hm = spec_hourmin(s).unwrap();
        if hm.0 < 24 && hm.1 < 60 {
            ClockState { year: c.year, month: c.month, day: c.day, hour: hm.0, min: hm.1, sec: 0 }
        } else {
            c
        }
    } else if spec_daychange(s) is Some {
        let md = spec_daychange(s).unwrap();
        if spec_valid_date(md.2, md.0, md.1) {
            ClockState { year: md.2, month: md.0, day: md.1, hour: 0, min: 0, sec: 0 }
        } else {
            c
        }
    } else if spec_logopen(s) is Some {
        let t = spec_logopen(s).unwrap();
        if spec_valid_date(t.5, t.0, t.1) && t.2 < 24 && t.3 < 60 && t.4 < 60 {
            ClockState { year: t.5, month: t.0, day: t.1, hour: t.2, min: t.3, sec: t.4 }
        } else {
            c
        }
    } else {
        c
    }
}

fn parse_hourmin(v: &Vec<char>) -> (r: Option<(u32, u32)>)
    ensures
        r == spec_hourmin(v@),
{
    if v.len() >= 6 && is_digit(v[0]) && is_digit(v[1]) && v[2] == ':' && is_digit(v[3]) && is_digit(
        v[4],
    ) && is_space(v[5]) {
        let hh = (v[0] as u32 - 48) * 10 + (v[1] as u32 - 48);
        let mm = (v[3] as u32 - 48) * 10 + (v[4] as u32 - 48);
        Some((hh, mm))
    } else {
        None
    }
}

fn parse_daychange(v: &Vec<char>) -> (r: Option<(u32, u32, u32)>)
    ensures
        r == spec_daychange(v@),
{
    let pre = to_char_vec("--- Day changed ");
    if !starts_with_chars(v, &pre) {
        return None;
    }
    let w0 = pre.len();
    let w1 = word_end(v, w0);
    if w1 == w0 || w1 >= v.len() || v[w1] != ' ' {
        return None;
    }
    let m0 = w1 + 1;
    let m1 = word_end(v, m0);
    if m1 == m0 || m1 >= v.len() || v[m1] != ' ' {
        return None;
    }
    let mon = match month_number(v, m0, m1) {
        Some(m) => m,
        None => {
            return None;
        },
    };
    let d0 = m1 + 1;
    let d1 = digits_end(v, d0);
    if d1 == d0 || d1 >= v.len() || v[d1] != ' ' {
        return None;
    }
    proof {
        lemma_digits_end_all_digits(v@, d0 as int);
    }
    let day = match parse_u32(v, d0, d1) {
        Some(d) => d,
        None => {
            return None;
        },
    };
    let y0 = d1 + 1;
    let y1 = digits_end(v, y0);
    if y1 == y0 {
        return None;
    }
    proof {
        lemma_digits_end_all_digits(v@, y0 as int);
    }
    let year = match parse_u32(v, y0, y1) {
        Some(y) => y,
        None => {
            return None;
        },
    };
    Some((mon, day, year))
}

fn parse_logopen(v: &Vec<char>) -> (r: Option<(u32, u32, u32, u32, u32, u32)>)
    ensures
        r == spec_logopen(v@),
{
    let pre = to_char_vec("--- Log opened ");
    if !starts_with_chars(v, &pre) {
        return None;
    }
    let w0 = pre.len();
    let w1 = word_end(v, w0);
    if w1 == w0 || w1 >= v.len() || v[w1] != ' ' {
        return None;
    }
    let m0 = w1 + 1;
    let m1 = word_end(v, m0);
    if m1 == m0 || m1 >= v.len() || v[m1] != ' ' {
        return None;
    }
    let mon = match month_number(v, m0, m1) {
        Some(m) => m,
        None => {
            return None;
        },
    };
    let d0 = m1 + 1;
    let d1 = digits_end(v, d0);
    if d1 == d0 || d1 >= v.len() || v[d1] != ' ' {
        return None;
    }
    proof {
        lemma_digits_end_all_digits(v@, d0 as int);
    }
    let day = match parse_u32(v, d0, d1) {
        Some(d) => d,
        None => {
            return None;
        },
    };
    let h0 = d1 + 1;
    let h1 = digits_end(v, h0);
    if h1 == h0 || h1 >= v.len() || v[h1] != ':' {
        return None;
    }
    proof {
        lemma_digits_end_all_digits(v@, h0 as int);
    }
    let hour = match parse_u32(v, h0, h1) {
        Some(h) => h,
        None => {
            return None;
        },
    };
    let n0 = h1 + 1;
    let n1 = digits_end(v, n0);
    if n1 == n0 || n1 >= v.len() || v[n1] != ':' {
        return None;
    }
    proof {
        lemma_digits_end_all_digits(v@, n0 as int);
    }
    let minute = match parse_u32(v, n0, n1) {
        Some(m) => m,
        None => {
            return None;
        },
    };
    let c0 = n1 + 1;
    let c1 = digits_end(v, c0);
    if c1 == c0 || c1 >= v.len() || v[c1] != ' ' {
        return None;
    }
    proof {
        lemma_digits_end_all_digits(v@, c0 as int);
    }
    let second = match parse_u32(v, c0, c1) {
        Some(s) => s,
        None => {
            return None;
        },
    };
    let y0 = c1 + 1;
    let y1 = digits_end(v, y0);
    if y1 == y0 {
        return None;
    }
    proof {
        lemma_digits_end_all_digits(v@, y0 as int);
    }
    let year = match parse_u32(v, y0, y1) {
        Some(y) => y,
        None => {
            return None;
        },
    };
    Some((mon, day, hour, minute, second, year))
}

/// A real calendar date within the clock's range.
pub fn valid_date(y: u32, m: u32, d: u32) -> (r: bool)
    ensures
        r == spec_valid_date(y, m, d),
{
    1970 <= y && y <= 9999 && 1 <= m && m <= 12 && 1 <= d && d <= crate::clock::days_in_month(y, m)
}

/// Runs one line through the detection patterns and returns the new clock.
///
/// A well-formed clock stays well formed: every update either keeps a field
/// or replaces it by a validated one.
pub fn clock_step(c: ClockState, line: &str) -> (r: ClockState)
    ensures
        r == spec_clock_step(c, line@),
        c.wf() ==> r.wf(),
{
    let v = to_char_vec(line);
    if let Some((hh, mm)) = parse_hourmin(&v) {
        if hh < 24 && mm < 60 {
            ClockState { year: c.year, month: c.month, day: c.day, hour: hh, min: mm, sec: 0 }
        } else {
            c
        }
    } else if let Some((mon, day, year)) = parse_daychange(&v) {
        if valid_date(year, mon, day) {
            ClockState { year, month: mon, day, hour: 0, min: 0, sec: 0 }
        } else {
            c
        }
    } else if let Some((mon, day, hour, minute, second, year)) = parse_logopen(&v) {
        if valid_date(year, mon, day) && hour < 24 && minute < 60 && second < 60 {
            ClockState { year, month: mon, day, hour, min: minute, sec: second }
        } else {
            c
        }
    } else {
        c
    }
}

/// A step never leaves a well-formed clock malformed: each pattern either
/// keeps a field or replaces it by a validated one.
pub proof fn lemma_clock_step_wf(c: ClockState, s: Seq<char>)
    requires
        c.wf(),
    ensures
        spec_clock_step(c, s).wf(),
{
}

/// An hour:minute marker keeps the inferred date and sets the time of day,
/// with seconds zero.
pub proof fn lemma_hourmin_keeps_date(c: ClockState, s: Seq<char>)
    requires
        spec_hourmin(s) is Some,
        spec_hourmin(s).unwrap().0 < 24,
        spec_hourmin(s).unwrap().1 < 60,
    ensures
        spec_clock_step(c, s).year == c.year,
        spec_clock_step(c, s).month == c.month,
        spec_clock_step(c, s).day == c.day,
        spec_clock_step(c, s).hour == spec_hourmin(s).unwrap().0,
        spec_clock_step(c, s).min == spec_hourmin(s).unwrap().1,
        spec_clock_step(c, s).sec == 0,
{
}

/// A day-change marker moves the clock to midnight of the parsed date,
/// whatever the prior time of day was.
pub proof fn lemma_daychange_sets_midnight(c: ClockState, s: Seq<char>)
    requires
        spec_daychange(s) is Some,
        spec_valid_date(
            spec_daychange(s).unwrap().2,
            spec_daychange(s).unwrap().0,
            spec_daychange(s).unwrap().1,
        ),
    ensures
        spec_clock_step(c, s) == (ClockState {
            year: spec_daychange(s).unwrap().2,
            month: spec_daychange(s).unwrap().0,
            day: spec_daychange(s).unwrap().1,
            hour: 0,
            min: 0,
            sec: 0,
        }),
{
    reveal_strlit("--- Day changed ");
    let pre = "--- Day changed "@;
    assert(pre.is_prefix_of(s));
    assert(pre[0] == s.subrange(0, pre.len() as int)[0]);
    assert(s[0] == '-');
    assert(spec_hourmin(s) is None);
}

/// The patterns are mutually exclusive, and the hour:minute pattern has the
/// highest priority: on a line it matches, it alone decides the step.
pub proof fn lemma_pattern_priority(c: ClockState, s: Seq<char>)
    requires
        spec_hourmin(s) is Some,
    ensures
        spec_daychange(s) is None,
        spec_logopen(s) is None,
        spec_clock_step(c, s) == ({
            let hm = spec_hourmin(s).unwrap();
            if hm.0 < 24 && hm.1 < 60 {
                ClockState {
                    year: c.year,
                    month: c.month,
                    day: c.day,
                    hour: hm.0,
                    min: hm.1,
                    sec: 0,
                }
            } else {
                c
            }
        }),
{
    reveal_strlit("--- Day changed ");
    reveal_strlit("--- Log opened ");
    assert(spec_is_digit(s[0]));
    if "--- Day changed "@.is_prefix_of(s) {
        let pre = "--- Day changed "@;
        assert(pre[0] == s.subrange(0, pre.len() as int)[0]);
        assert(s[0] == '-');
    }
    if "--- Log opened "@.is_prefix_of(s) {
        let pre = "--- Log opened "@;
        assert(pre[0] == s.subrange(0, pre.len() as int)[0]);
        assert(s[0] == '-');
    }
}

} // verus!
