use tim::time::{DateTime, NaiveDate, NaiveTime};
use tim::util::{local_reading, LocalTimeError};
use tim::util::{combine_dt, combine_io_dt, combine_io_dt_to_utc, now, to_io, to_utc};

#[test]
fn a_date_and_a_time_make_an_instant() {
    let d = NaiveDate::from_epoch_days(19_723).unwrap();
    let t = NaiveTime::from_hms_opt(9, 30, 0).unwrap();
    assert_eq!(combine_dt(d, t).timestamp(), 1_704_067_200 + 9 * 3600 + 30 * 60);
}

#[test]
fn the_local_reading_of_an_instant_leads_back_to_it() {
    let t = DateTime::from_timestamp(1_704_067_200, 5).unwrap();
    assert_eq!(to_utc(to_io(t)), t);
    let n = now();
    assert_eq!(to_utc(to_io(n)), n);
}

#[test]
fn a_local_reading_is_offset_from_utc() {
    let d = NaiveDate::from_epoch_days(19_723).unwrap();
    let t = NaiveTime::from_hms_opt(12, 0, 0).unwrap();
    let io = combine_io_dt(d, t).unwrap();
    let utc = combine_io_dt_to_utc(d, t).unwrap();
    assert_eq!(io.utc(), utc);
    assert_eq!(utc.timestamp() + io.offset() as i64, 1_704_067_200 + 12 * 3600);
}

#[test]
fn the_zones_answer_places_a_local_reading() {
    let d = NaiveDate::from_epoch_days(19_723).unwrap();
    let t = NaiveTime::from_hms_opt(12, 0, 0).unwrap();
    let io = local_reading(d, t, Some(3600)).unwrap();
    assert_eq!(io.offset(), 3600);
    assert_eq!(to_utc(io).timestamp(), 1_704_067_200 + 11 * 3600);
    let io = local_reading(d, t, Some(0)).unwrap();
    assert_eq!(to_utc(io), combine_dt(d, t));
    assert_eq!(local_reading(d, t, None), Err(LocalTimeError::NonexistentTime { date: d, time: t }));
}
