use urlharvest::clock::{civil_from_epoch, epoch_limit, ClockState};
use urlharvest::str_util::{fmt_long, fmt_short, fmt_short_y, TimeStampFormats};

#[test]
fn civil_round_trip() {
    let c = civil_from_epoch(1_704_202_620);
    assert_eq!(c, ClockState { year: 2024, month: 1, day: 2, hour: 13, min: 37, sec: 0 });
    assert_eq!(c.epoch_seconds(), 1_704_202_620);

    let origin = civil_from_epoch(0);
    assert_eq!(origin, ClockState { year: 1970, month: 1, day: 1, hour: 0, min: 0, sec: 0 });

    let leap = civil_from_epoch(951_827_696);
    assert_eq!(leap, ClockState { year: 2000, month: 2, day: 29, hour: 12, min: 34, sec: 56 });
    assert_eq!(leap.epoch_seconds(), 951_827_696);
}

#[test]
fn epoch_limit_is_the_start_of_year_ten_thousand() {
    assert_eq!(epoch_limit(), 253_402_300_800);
    let last = civil_from_epoch(epoch_limit() - 1);
    assert_eq!(last, ClockState { year: 9999, month: 12, day: 31, hour: 23, min: 59, sec: 59 });
}

#[test]
fn format_styles() {
    let c = ClockState { year: 2021, month: 8, day: 8, hour: 13, min: 37, sec: 42 };
    assert_eq!(fmt_long(&c), "2021-08-08 13:37:42");
    assert_eq!(fmt_short(&c), "Aug 08 13:37");
    assert_eq!(fmt_short_y(&c), "2021 Aug 08 13:37");
}

#[test]
fn epoch_renderings() {
    // 2021-08-08 13:37:42
    let ts: i64 = 1_628_429_862;
    assert_eq!(ts.ts_long(), "2021-08-08 13:37:42");
    assert_eq!(ts.ts_short(), "Aug 08 13:37");
    assert_eq!(ts.ts_short_y(), "2021 Aug 08 13:37");
}

#[test]
fn out_of_range_timestamps_render_none() {
    assert_eq!(0i64.ts_long(), "(none)");
    assert_eq!((-5i64).ts_long(), "(none)");
    assert_eq!(i64::MAX.ts_long(), "(none)");
    assert_eq!(epoch_limit().ts_short(), "(none)");
}
