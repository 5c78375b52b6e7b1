use tim::fmt::{format_datetime, format_relative_datetime, format_timedelta};
use tim::time::{DateTime, IODateTime, TimeDelta};

fn secs(n: i64) -> TimeDelta {
    TimeDelta::try_seconds(n).unwrap()
}

fn at(secs: i64) -> DateTime {
    DateTime::from_timestamp(secs, 0).unwrap()
}

#[test]
fn short_durations_are_written_in_minutes_and_seconds() {
    assert_eq!(format_timedelta(secs(0)), "0s");
    assert_eq!(format_timedelta(secs(45)), "45s");
    assert_eq!(format_timedelta(secs(9 * 60 + 5)), "9m5s");
    assert_eq!(format_timedelta(secs(10 * 60)), "10m");
    assert_eq!(format_timedelta(secs(10 * 60 + 59)), "10m");
}

#[test]
fn longer_durations_drop_the_smaller_units() {
    assert_eq!(format_timedelta(secs(90 * 60)), "1h30m");
    assert_eq!(format_timedelta(secs(3 * 3600 + 5 * 60 + 7)), "3h5m");
    assert_eq!(format_timedelta(secs(86400 + 2 * 3600)), "1d2h");
    assert_eq!(format_timedelta(secs(2 * 86400 + 2 * 3600)), "2d2h");
    assert_eq!(format_timedelta(secs(3 * 86400 + 4 * 3600)), "3d");
    assert_eq!(format_timedelta(secs(7 * 86400 + 2 * 86400 + 3 * 3600)), "1w2d");
    assert_eq!(format_timedelta(secs(3 * 7 * 86400 + 4 * 86400)), "3w");
}

#[test]
fn negative_durations_show_only_seconds_or_nothing() {
    assert_eq!(format_timedelta(secs(-5)), "-5s");
    assert_eq!(format_timedelta(secs(-300)), "-300s");
    assert_eq!(format_timedelta(secs(-3600)), "");
    assert_eq!(format_timedelta(secs(-2 * 86400)), "");
    assert_eq!(format_timedelta(TimeDelta::new(-1, 500_000_000).unwrap()), "0s");
}

#[test]
fn relative_instants_read_in_or_ago() {
    let now = at(1000);
    let past = IODateTime::from_utc_and_offset(at(910), 0).unwrap();
    assert_eq!(format_relative_datetime(past, now), "1m30s ago");
    let future = IODateTime::from_utc_and_offset(at(1000 + 7200), 3600).unwrap();
    assert_eq!(format_relative_datetime(future, now), "in 2h");
    let same = IODateTime::from_utc_and_offset(now, 0).unwrap();
    assert_eq!(format_relative_datetime(same, now), "0s ago");
}

#[test]
fn local_clock_readings_are_written_time_then_date() {
    let t = IODateTime::from_utc_and_offset(at(0), 3600).unwrap();
    assert_eq!(format_datetime(t), "01:00:00 1.1.1970");
    let t = IODateTime::from_utc_and_offset(at(-1), 0).unwrap();
    assert_eq!(format_datetime(t), "23:59:59 31.12.1969");
    let t = IODateTime::from_utc_and_offset(at(1_704_067_200 + 9 * 3600 + 5 * 60), 0).unwrap();
    assert_eq!(format_datetime(t), "09:05:00 1.1.2024");
    let t = IODateTime::from_utc_and_offset(at(1_704_067_200), -7200).unwrap();
    assert_eq!(format_datetime(t), "22:00:00 31.12.2023");
    assert!(IODateTime::from_utc_and_offset(at(0), 86400).is_none());
}

#[test]
fn calendar_dates_follow_the_gregorian_calendar() {
    // 2000-02-29, a leap day in a year divisible by 400.
    let t = IODateTime::from_utc_and_offset(at(951_782_400), 0).unwrap();
    assert_eq!(format_datetime(t), "00:00:00 29.2.2000");
    // 1900-03-01: 1900 has no 29 February.
    let t = IODateTime::from_utc_and_offset(at(-2_203_891_200), 0).unwrap();
    assert_eq!(format_datetime(t), "00:00:00 1.3.1900");
    // The last representable day, and the day after it on a clock east of UTC.
    let t = IODateTime::from_utc_and_offset(DateTime::max_utc(), 0).unwrap();
    assert_eq!(format_datetime(t), "23:59:59 31.12.262142");
    let t = IODateTime::from_utc_and_offset(DateTime::max_utc(), 3600).unwrap();
    assert_eq!(format_datetime(t), "00:59:59 1.1.262143");
}

#[test]
fn the_first_representable_day_is_written_too() {
    let first = at(-8_334_601_228_800);
    let t = IODateTime::from_utc_and_offset(first, 0).unwrap();
    assert_eq!(format_datetime(t), "00:00:00 1.1.-262143");
    let t = IODateTime::from_utc_and_offset(first, -3600).unwrap();
    assert_eq!(format_datetime(t), "23:00:00 31.12.-262144");
}
