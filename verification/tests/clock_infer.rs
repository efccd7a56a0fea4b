use urlharvest::clock::ClockState;
use urlharvest::infer::clock_step;

fn clock(year: u32, month: u32, day: u32, hour: u32, min: u32, sec: u32) -> ClockState {
    ClockState { year, month, day, hour, min, sec }
}

#[test]
fn hourmin_keeps_date_and_zeroes_seconds() {
    let before = clock(2024, 1, 2, 10, 5, 44);
    let after = clock_step(before, "13:37 <@alice> hello");
    assert_eq!(after, clock(2024, 1, 2, 13, 37, 0));
}

#[test]
fn hourmin_requires_trailing_whitespace() {
    let before = clock(2024, 1, 2, 10, 5, 44);
    let after = clock_step(before, "13:37");
    assert_eq!(after, before);
}

#[test]
fn hourmin_out_of_range_leaves_clock_unchanged() {
    let before = clock(2024, 1, 2, 10, 5, 44);
    assert_eq!(clock_step(before, "25:00 too late"), before);
    assert_eq!(clock_step(before, "23:61 too late"), before);
}

#[test]
fn daychange_sets_midnight_of_parsed_date() {
    let before = clock(2024, 1, 2, 22, 15, 9);
    let after = clock_step(before, "--- Day changed Fri Aug 13 2021");
    assert_eq!(after, clock(2021, 8, 13, 0, 0, 0));
}

#[test]
fn daychange_month_name_is_case_insensitive() {
    let before = clock(2024, 1, 2, 22, 15, 9);
    let after = clock_step(before, "--- Day changed Fri AUG 13 2021");
    assert_eq!(after, clock(2021, 8, 13, 0, 0, 0));
}

#[test]
fn daychange_invalid_date_leaves_clock_unchanged() {
    let before = clock(2024, 1, 2, 22, 15, 9);
    assert_eq!(clock_step(before, "--- Day changed Fri Aug 32 2021"), before);
    assert_eq!(clock_step(before, "--- Day changed Fri Foo 13 2021"), before);
    assert_eq!(clock_step(before, "--- Day changed Fri Feb 29 2023"), before);
}

#[test]
fn daychange_leap_day_is_accepted() {
    let before = clock(2020, 1, 1, 8, 0, 0);
    let after = clock_step(before, "--- Day changed Sat Feb 29 2020");
    assert_eq!(after, clock(2020, 2, 29, 0, 0, 0));
}

#[test]
fn logopen_sets_full_timestamp() {
    let before = clock(2024, 1, 2, 22, 15, 9);
    let after = clock_step(before, "--- Log opened Sun Aug 08 13:37:42 2021");
    assert_eq!(after, clock(2021, 8, 8, 13, 37, 42));
}

#[test]
fn logopen_invalid_time_leaves_clock_unchanged() {
    let before = clock(2024, 1, 2, 22, 15, 9);
    assert_eq!(
        clock_step(before, "--- Log opened Sun Aug 08 24:00:00 2021"),
        before
    );
}

#[test]
fn unmatched_line_carries_clock_forward() {
    let before = clock(2024, 1, 2, 22, 15, 9);
    assert_eq!(clock_step(before, "just some chatter"), before);
    assert_eq!(clock_step(before, ""), before);
}

#[test]
fn hourmin_has_priority_over_marker_text_inside_line() {
    // The line opens with an hour:minute marker; the day-change text later
    // in the line must not apply.
    let before = clock(2024, 1, 2, 10, 0, 0);
    let after = clock_step(before, "13:37 --- Day changed Fri Aug 13 2021");
    assert_eq!(after, clock(2024, 1, 2, 13, 37, 0));
}

#[test]
fn epoch_of_unix_origin_is_zero() {
    assert_eq!(clock(1970, 1, 1, 0, 0, 0).epoch_seconds(), 0);
}

#[test]
fn epoch_of_known_instant() {
    assert_eq!(clock(2024, 1, 2, 13, 37, 0).epoch_seconds(), 1_704_202_620);
    assert_eq!(clock(2021, 8, 13, 0, 0, 0).epoch_seconds(), 1_628_812_800);
}

#[test]
fn days_in_month_follows_leap_rule() {
    assert_eq!(urlharvest::clock::days_in_month(2024, 2), 29);
    assert_eq!(urlharvest::clock::days_in_month(2023, 2), 28);
    assert_eq!(urlharvest::clock::days_in_month(1900, 2), 28);
    assert_eq!(urlharvest::clock::days_in_month(2000, 2), 29);
    assert_eq!(urlharvest::clock::days_in_month(2021, 12), 31);
    assert_eq!(urlharvest::clock::days_in_month(2021, 11), 30);
}

#[test]
fn daychange_accepts_full_month_names() {
    let before = clock(2024, 1, 2, 22, 15, 9);
    let after = clock_step(before, "--- Day changed Fri August 13 2021");
    assert_eq!(after, clock(2021, 8, 13, 0, 0, 0));
    let after2 = clock_step(before, "--- Log opened Sun december 05 07:08:09 2021");
    assert_eq!(after2, clock(2021, 12, 5, 7, 8, 9));
}
