use tim::expr::{time_amount_from_group, ExprError, TimeDeltaExpr, TimeExpr};
use tim::text::IntErrorKind;
use tim::time::{DateTime, NaiveDate, TimeDelta};

fn at(secs: i64) -> DateTime {
    DateTime::from_timestamp(secs, 0).unwrap()
}

const ZERO: TimeDeltaExpr = TimeDeltaExpr::TimeAmount { w: 0, d: 0, h: 0, m: 0, s: 0 };

#[test]
fn a_time_of_day_is_hours_and_minutes() {
    assert_eq!(TimeDeltaExpr::from_str("9:30"), Ok(TimeDeltaExpr::TimeOfDay { h: 9, m: 30 }));
    assert_eq!(TimeDeltaExpr::from_str("1:2:3"), Ok(TimeDeltaExpr::TimeOfDay { h: 1, m: 2 }));
    assert_eq!(TimeDeltaExpr::from_str("+3:+4"), Ok(TimeDeltaExpr::TimeOfDay { h: 3, m: 4 }));
}

#[test]
fn an_unreadable_time_of_day_is_an_error() {
    assert_eq!(TimeDeltaExpr::from_str("1:"), Err(ExprError::ParseInt(IntErrorKind::Empty)));
    assert_eq!(TimeDeltaExpr::from_str(":5"), Err(ExprError::ParseInt(IntErrorKind::Empty)));
    assert_eq!(
        TimeDeltaExpr::from_str("x:5"),
        Err(ExprError::ParseInt(IntErrorKind::InvalidDigit))
    );
    assert_eq!(
        TimeDeltaExpr::from_str("99999999999999999999:1"),
        Err(ExprError::ParseInt(IntErrorKind::PosOverflow))
    );
}

#[test]
fn an_amount_without_weeks_reads_as_nothing() {
    assert_eq!(TimeDeltaExpr::from_str("12"), Ok(ZERO));
    assert_eq!(TimeDeltaExpr::from_str("2h"), Ok(ZERO));
    assert_eq!(TimeDeltaExpr::from_str("1d2h30m"), Ok(ZERO));
    assert_eq!(TimeDeltaExpr::from_str(""), Ok(ZERO));
}

#[test]
fn an_amount_of_weeks_stops_or_fails() {
    assert_eq!(TimeDeltaExpr::try_from_str("2w"), None);
    assert_eq!(TimeDeltaExpr::try_from_str("2w3d"), None);
    assert_eq!(
        TimeDeltaExpr::try_from_str("99999999999999999999w"),
        Some(Err(ExprError::ParseInt(IntErrorKind::PosOverflow)))
    );
    assert_eq!(
        TimeDeltaExpr::try_from_str("\u{0663}w"),
        Some(Err(ExprError::ParseInt(IntErrorKind::InvalidDigit)))
    );
    assert_eq!(TimeDeltaExpr::try_from_str("2h"), Some(Ok(ZERO)));
}

#[test]
fn deltas_evaluate_to_durations() {
    let d = TimeDeltaExpr::TimeOfDay { h: 1, m: 30 }.eval();
    assert_eq!(d, TimeDelta::try_minutes(90).unwrap());
    let d = TimeDeltaExpr::TimeAmount { w: 1, d: 1, h: 1, m: 1, s: 1 }.eval();
    assert_eq!(d.num_seconds(), 7 * 86400 + 86400 + 3600 + 60 + 1);
    assert_eq!(ZERO.eval(), TimeDelta::zero());
}

#[test]
fn delta_overflow_is_reported() {
    assert_eq!(TimeDeltaExpr::TimeOfDay { h: usize::MAX, m: 0 }.try_eval(), None);
    assert_eq!(TimeDeltaExpr::TimeOfDay { h: 1, m: usize::MAX }.try_eval(), None);
    assert_eq!(
        TimeDeltaExpr::TimeAmount { w: 1 << 50, d: 0, h: 0, m: 0, s: 0 }.try_eval(),
        None
    );
    // The count wraps to -1 when it is read as an `i64`.
    assert_eq!(
        TimeDeltaExpr::TimeOfDay { h: 0, m: usize::MAX }.try_eval(),
        Some(TimeDelta::try_minutes(-1).unwrap())
    );
}

#[test]
fn keywords_and_dates_stand_for_themselves() {
    assert_eq!(TimeExpr::from_str("now"), Ok(TimeExpr::Now));
    assert_eq!(TimeExpr::from_str("today"), Ok(TimeExpr::Today));
    assert_eq!(TimeExpr::from_str("tmr"), Ok(TimeExpr::Tomorrow));
    assert_eq!(TimeExpr::from_str("tomorrow"), Ok(TimeExpr::Tomorrow));
    assert_eq!(
        TimeExpr::from_str("24.12.2024"),
        Ok(TimeExpr::Date(NaiveDate::from_epoch_days(20_081).unwrap()))
    );
}

#[test]
fn deltas_after_a_plus_are_added() {
    assert_eq!(
        TimeExpr::from_str("now+1:30"),
        Ok(TimeExpr::Add(Box::new(TimeExpr::Now), vec![TimeDeltaExpr::TimeOfDay { h: 1, m: 30 }]))
    );
    assert_eq!(
        TimeExpr::from_str("tmr+9:00+0:15"),
        Ok(TimeExpr::Add(
            Box::new(TimeExpr::Tomorrow),
            vec![TimeDeltaExpr::TimeOfDay { h: 9, m: 0 }, TimeDeltaExpr::TimeOfDay { h: 0, m: 15 }]
        ))
    );
    assert_eq!(
        TimeExpr::from_str("now+"),
        Ok(TimeExpr::Add(Box::new(TimeExpr::Now), vec![ZERO]))
    );
}

#[test]
fn a_bad_delta_is_an_error() {
    assert_eq!(
        TimeExpr::from_str("now+x:1"),
        Err(ExprError::ParseInt(IntErrorKind::InvalidDigit))
    );
    assert_eq!(
        TimeExpr::try_from_str("foo+x:1"),
        Some(Err(ExprError::ParseInt(IntErrorKind::InvalidDigit)))
    );
}

#[test]
fn an_unknown_anchor_or_weeks_never_returns() {
    assert_eq!(TimeExpr::try_from_str("yesterday"), None);
    assert_eq!(TimeExpr::try_from_str("foo+1:00"), None);
    assert_eq!(TimeExpr::try_from_str("now+2w"), None);
    assert_eq!(TimeExpr::try_from_str("+1:00"), None);
}

#[test]
fn expressions_evaluate_relative_to_now() {
    let midnight = 1_704_067_200;
    let now = at(midnight + 3661);
    assert_eq!(TimeExpr::Now.eval(now), now);
    assert_eq!(TimeExpr::Today.eval(now), at(midnight));
    assert_eq!(TimeExpr::Tomorrow.eval(now), at(midnight + 86400));
    let date = NaiveDate::from_epoch_days(20_081).unwrap();
    assert_eq!(TimeExpr::Date(date).eval(now), at(20_081 * 86400));
    let e = TimeExpr::from_str("tmr+9:30").unwrap();
    assert_eq!(e.eval(now), at(midnight + 86400 + 9 * 3600 + 30 * 60));
}

#[test]
fn tomorrow_after_the_last_day_cannot_be_computed() {
    assert_eq!(TimeExpr::Tomorrow.try_eval(DateTime::max_utc()), None);
    assert_eq!(TimeExpr::Today.try_eval(DateTime::max_utc()), Some(at(8_210_266_876_800 - 86400)));
    let far = TimeExpr::Add(Box::new(TimeExpr::Now), vec![TimeDeltaExpr::TimeOfDay { h: 1, m: 0 }]);
    assert_eq!(far.try_eval(DateTime::max_utc()), None);
}

#[test]
fn the_weeks_group_decides_an_amount() {
    assert_eq!(
        time_amount_from_group("2h", Some(Some(None))),
        Some(Ok(TimeDeltaExpr::TimeAmount { w: 0, d: 0, h: 0, m: 0, s: 0 }))
    );
    assert_eq!(
        time_amount_from_group("x", Some(None)),
        Some(Err(ExprError::InvalidTimeDelta("x".to_string())))
    );
    assert_eq!(time_amount_from_group("3w", Some(Some(Some("3w".to_string())))), None);
    assert_eq!(
        time_amount_from_group("99999999999999999999999w", Some(Some(Some("99999999999999999999999w".to_string())))),
        Some(Err(ExprError::ParseInt(IntErrorKind::PosOverflow)))
    );
    assert_eq!(time_amount_from_group("2h", None), None);
}

#[test]
fn text_without_a_colon_or_weeks_reads_as_no_time() {
    assert_eq!(TimeDeltaExpr::try_from_str("abc"), Some(Ok(ZERO)));
    assert_eq!(TimeDeltaExpr::try_from_str("3h"), Some(Ok(ZERO)));
}
