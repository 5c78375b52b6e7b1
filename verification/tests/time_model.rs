use tim::time::{DateTime, NaiveDate, NaiveTime, TimeDelta};

fn at(secs: i64) -> DateTime {
    DateTime::from_timestamp(secs, 0).unwrap()
}

#[test]
fn time_delta_bounds_are_i64_max_milliseconds() {
    assert!(TimeDelta::new(9_223_372_036_854_775, 807_000_000).is_some());
    assert!(TimeDelta::new(9_223_372_036_854_775, 807_000_001).is_none());
    assert!(TimeDelta::new(-9_223_372_036_854_776, 193_000_000).is_some());
    assert!(TimeDelta::new(-9_223_372_036_854_776, 192_999_999).is_none());
    assert!(TimeDelta::new(0, 1_000_000_000).is_none());
}

#[test]
fn whole_units_round_toward_zero() {
    let d = TimeDelta::try_seconds(-90).unwrap();
    assert_eq!(d.num_seconds(), -90);
    assert_eq!(d.num_minutes(), -1);
    assert_eq!(d.num_hours(), 0);
    let half = TimeDelta::new(-1, 500_000_000).unwrap();
    assert_eq!(half.num_seconds(), 0);
    let w = TimeDelta::try_days(15).unwrap();
    assert_eq!(w.num_weeks(), 2);
    assert_eq!(w.num_days(), 15);
}

#[test]
fn durations_add_subtract_and_negate() {
    let a = TimeDelta::try_minutes(90).unwrap();
    let b = TimeDelta::try_hours(1).unwrap();
    assert_eq!(a.checked_sub(&b).unwrap(), TimeDelta::try_minutes(30).unwrap());
    assert_eq!(a.checked_add(&b).unwrap().num_minutes(), 150);
    assert_eq!(a.neg().num_minutes(), -90);
    let max = TimeDelta::new(9_223_372_036_854_775, 807_000_000).unwrap();
    assert!(max.checked_add(&TimeDelta::new(0, 1).unwrap()).is_none());
    assert!(TimeDelta::try_weeks(i64::MAX).is_none());
}

#[test]
fn instants_keep_to_the_calendar_range() {
    assert!(DateTime::from_timestamp(8_210_266_876_799, 999_999_999).is_some());
    assert!(DateTime::from_timestamp(8_210_266_876_800, 0).is_none());
    assert!(DateTime::from_timestamp(-8_334_601_228_800, 0).is_some());
    assert!(DateTime::from_timestamp(-8_334_601_228_801, 0).is_none());
    let max = DateTime::max_utc();
    assert_eq!(max.timestamp(), 8_210_266_876_799);
    assert!(max.checked_add_signed(&TimeDelta::new(0, 1).unwrap()).is_none());
    assert_eq!(
        at(10).checked_add_signed(&TimeDelta::try_seconds(-20).unwrap()).unwrap().timestamp(),
        -10
    );
}

#[test]
fn date_and_time_of_an_instant_before_the_epoch() {
    let t = at(-1);
    assert_eq!(t.date_naive().epoch_days(), -1);
    assert_eq!(t.time().num_seconds_from_midnight(), 86_399);
    let t = at(1_704_067_200 + 3_661);
    assert_eq!(t.date_naive().epoch_days(), 19_723);
    assert_eq!(t.time(), NaiveTime::from_hms_opt(1, 1, 1).unwrap());
}

#[test]
fn duration_between_instants() {
    let a = DateTime::from_timestamp(100, 250).unwrap();
    let b = DateTime::from_timestamp(40, 500).unwrap();
    let d = a.signed_duration_since(&b);
    assert_eq!(d.parts(), (59, 999_999_750));
    assert!(b.signed_duration_since(&a).is_negative());
    assert!(b.is_before(&a));
}

#[test]
fn dates_step_forward_until_the_last_day() {
    let d = NaiveDate::from_epoch_days(0).unwrap();
    assert_eq!(d.succ_opt().unwrap().epoch_days(), 1);
    let last = NaiveDate::from_epoch_days(95_026_236).unwrap();
    assert!(last.succ_opt().is_none());
    assert!(NaiveDate::from_epoch_days(95_026_237).is_none());
    assert!(NaiveDate::from_epoch_days(-96_465_292).is_some());
    assert!(NaiveDate::from_epoch_days(-96_465_293).is_none());
}

#[test]
fn clock_times_wrap_round_midnight() {
    let t = NaiveTime::from_hms_opt(23, 30, 0).unwrap();
    let later = t.wrapping_add_signed(&TimeDelta::try_hours(2).unwrap());
    assert_eq!(later, NaiveTime::from_hms_opt(1, 30, 0).unwrap());
    let earlier = t.wrapping_add_signed(&TimeDelta::try_hours(-24).unwrap());
    assert_eq!(earlier, t);
    assert!(NaiveTime::from_hms_opt(24, 0, 0).is_none());
    assert!(NaiveTime::midnight().is_before(&t));
}
