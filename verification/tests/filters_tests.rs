use blog_core::clock::epoch_seconds;
use blog_core::filters::{decimal, describe, span_between, time_ago, time_ago_at, Span};

const MINUTE: i64 = 60;
const HOUR: i64 = 3_600;
const DAY: i64 = 86_400;

#[test]
fn decimal_writes_digits_without_leading_zeros() {
    assert_eq!(decimal(0), "0");
    assert_eq!(decimal(7), "7");
    assert_eq!(decimal(10), "10");
    assert_eq!(decimal(1_234_567_890), "1234567890");
    assert_eq!(decimal(u64::MAX), "18446744073709551615");
    for number in 0..2_000u64 {
        assert_eq!(decimal(number), number.to_string());
    }
}

#[test]
fn less_than_a_minute_is_a_moment() {
    assert_eq!(time_ago_at(1_000, 1_000), "az önce");
    assert_eq!(time_ago_at(1_000, 1_001), "az önce");
    assert_eq!(time_ago_at(1_000, 1_059), "az önce");
    assert_eq!(span_between(1_000, 1_059), Span::Moment);
}

#[test]
fn time_that_has_not_come_is_a_moment() {
    assert_eq!(time_ago_at(2_000, 1_000), "az önce");
    assert_eq!(time_ago_at(i64::MAX, i64::MIN), "az önce");
    assert_eq!(span_between(5 * DAY, 0), Span::Moment);
}

#[test]
fn minutes_are_counted_up_to_an_hour() {
    assert_eq!(time_ago_at(0, MINUTE), "1 dakika önce");
    assert_eq!(time_ago_at(0, 2 * MINUTE - 1), "1 dakika önce");
    assert_eq!(time_ago_at(0, 5 * MINUTE), "5 dakika önce");
    assert_eq!(time_ago_at(0, HOUR - 1), "59 dakika önce");
    assert_eq!(span_between(0, HOUR - 1), Span::Minutes(59));
}

#[test]
fn hours_are_counted_up_to_a_day() {
    assert_eq!(time_ago_at(0, HOUR), "1 saat önce");
    assert_eq!(time_ago_at(0, 3 * HOUR + 59 * MINUTE), "3 saat önce");
    assert_eq!(time_ago_at(0, DAY - 1), "23 saat önce");
}

#[test]
fn one_day_is_yesterday() {
    assert_eq!(time_ago_at(0, DAY), "dün");
    assert_eq!(time_ago_at(0, 2 * DAY - 1), "dün");
    assert_eq!(describe(Span::Days(1)), "dün");
}

#[test]
fn days_are_counted_up_to_seven() {
    assert_eq!(time_ago_at(0, 2 * DAY), "2 gün önce");
    assert_eq!(time_ago_at(0, 7 * DAY), "7 gün önce");
    assert_eq!(time_ago_at(0, 8 * DAY - 1), "7 gün önce");
}

#[test]
fn weeks_are_counted_from_the_eighth_day() {
    assert_eq!(time_ago_at(0, 8 * DAY), "1 hafta önce");
    assert_eq!(time_ago_at(0, 14 * DAY), "2 hafta önce");
    assert_eq!(time_ago_at(0, 30 * DAY), "4 hafta önce");
    assert_eq!(span_between(0, 30 * DAY), Span::Weeks(4));
}

#[test]
fn months_are_counted_from_the_thirty_first_day() {
    assert_eq!(time_ago_at(0, 31 * DAY), "1 ay önce");
    assert_eq!(time_ago_at(0, 60 * DAY), "2 ay önce");
    assert_eq!(time_ago_at(0, 365 * DAY), "12 ay önce");
}

#[test]
fn years_are_counted_from_the_day_after_the_first_year() {
    assert_eq!(time_ago_at(0, 366 * DAY), "1 yıl önce");
    assert_eq!(time_ago_at(0, 729 * DAY), "1 yıl önce");
    assert_eq!(time_ago_at(0, 730 * DAY), "2 yıl önce");
    assert_eq!(time_ago_at(0, 3_650 * DAY), "10 yıl önce");
    assert_eq!(span_between(0, 3_650 * DAY), Span::Years(10));
}

#[test]
fn times_before_the_epoch_are_measured_alike() {
    assert_eq!(time_ago_at(-5 * MINUTE, 0), "5 dakika önce");
    assert_eq!(time_ago_at(-3 * DAY, 2 * DAY), "5 gün önce");
}

#[test]
fn longest_span_does_not_overflow() {
    let days = (u64::MAX / 86_400) / 365;
    assert_eq!(span_between(i64::MIN, i64::MAX), Span::Years(days));
    assert_eq!(time_ago_at(i64::MIN, i64::MAX), format!("{} yıl önce", days));
}

#[test]
fn every_span_has_its_words() {
    assert_eq!(describe(Span::Years(3)), "3 yıl önce");
    assert_eq!(describe(Span::Months(11)), "11 ay önce");
    assert_eq!(describe(Span::Weeks(2)), "2 hafta önce");
    assert_eq!(describe(Span::Days(6)), "6 gün önce");
    assert_eq!(describe(Span::Hours(1)), "1 saat önce");
    assert_eq!(describe(Span::Minutes(45)), "45 dakika önce");
    assert_eq!(describe(Span::Moment), "az önce");
}

#[test]
fn present_time_is_read_from_the_system_clock() {
    assert_eq!(time_ago(i64::MAX), "az önce");
    let since_epoch = time_ago(0);
    assert!(since_epoch.ends_with(" yıl önce"), "{}", since_epoch);
    let years: u64 = since_epoch.trim_end_matches(" yıl önce").parse().unwrap();
    assert!(years >= 56);
}

#[test]
fn reading_of_the_wall_clock_is_counted_in_whole_seconds() {
    assert_eq!(epoch_seconds(Some(0)), 0);
    assert_eq!(epoch_seconds(Some(1_700_000_000)), 1_700_000_000);
    assert_eq!(epoch_seconds(Some(i64::MAX as u64)), i64::MAX);
}

#[test]
fn reading_beyond_the_count_is_the_last_second() {
    assert_eq!(epoch_seconds(Some(i64::MAX as u64 + 1)), i64::MAX);
    assert_eq!(epoch_seconds(Some(u64::MAX)), i64::MAX);
}

#[test]
fn clock_before_the_epoch_is_read_as_the_epoch() {
    assert_eq!(epoch_seconds(None), 0);
}
