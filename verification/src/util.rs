//! The current time, and moving between UTC instants and the local clock.

use vstd::prelude::*;
use chrono::{Offset, TimeZone};
pub use crate::time::{DateTime, IODateTime, NaiveDate, NaiveTime};
use crate::time::{datetime_in_range, nanos_per_day, nanos_per_sec};

verus! {

/// The current instant, read from the system clock through `chrono::Utc::now`.
///
/// The value depends on when the call is made, so the contract states only
/// that it is a representable instant not before 1970-01-01 (chrono stops
/// with a panic on a system clock set earlier than that).
#[verifier::external_body]
pub fn now() -> (r: DateTime)
    ensures
        datetime_in_range(r@),
        0 <= r@,
{
    let t = chrono::Utc::now();
    DateTime::from_timestamp(t.timestamp(), t.timestamp_subsec_nanos()).unwrap()
}

/// The instant at the given time of day (UTC) on the given date.
pub fn combine_dt(date: NaiveDate, time: NaiveTime) -> (r: DateTime)
    ensures
        r@ == date@ * nanos_per_day() + time@,
{
    DateTime::from_date_and_time(&date, &time)
}

/// The offset from UTC, in seconds, of the local time zone at the instant
/// `utc`, as `chrono::Local` reports it (`offset_from_utc_datetime`, then
/// `local_minus_utc`).
///
/// The value depends on the machine's time zone, so the contract states only
/// the bound that chrono's `FixedOffset` keeps: less than a day either way.
#[verifier::external_body]
fn local_offset_at(utc: &DateTime) -> (r: i32)
    ensures
        -86400 < r < 86400,
{
    let naive = chrono::DateTime::from_timestamp(utc.timestamp(), utc.timestamp_subsec_nanos())
        .unwrap().naive_utc();
    chrono::Local.offset_from_utc_datetime(&naive).fix().local_minus_utc()
}

/// The instant `utc` as read on the local clock.
pub fn to_io(utc: DateTime) -> (r: IODateTime)
    ensures
        r.instant() == utc@,
{
    let offset = local_offset_at(&utc);
    IODateTime::from_utc_and_offset(utc, offset).unwrap()
}

/// The instant of a local clock reading.
pub fn to_utc(io: IODateTime) -> (r: DateTime)
    ensures
        r@ == io.instant(),
{
    io.utc()
}

/// The earliest offset from UTC, in seconds, under which the local time zone
/// shows `time` on `date`, as `chrono::Local` reports it
/// (`NaiveDateTime::and_local_timezone(Local).earliest()`), or `None` when the
/// local clock skips that reading.
///
/// Which readings exist depends on the machine's time zone, so the contract
/// states only what holds of every answer: the offset is less than a day
/// either way, and the instant it gives is representable (chrono holds that
/// instant in a `DateTime`).
#[verifier::external_body]
fn earliest_local_offset(date: &NaiveDate, time: &NaiveTime) -> (r: Option<i32>)
    ensures
        r matches Some(off) ==> -86400 < off < 86400 && datetime_in_range(
            date@ * nanos_per_day() + time@ - off * nanos_per_sec(),
        ),
{
    let day = chrono::NaiveDate::from_epoch_days(date.epoch_days()).unwrap();
    let clock = chrono::NaiveTime::from_num_seconds_from_midnight_opt(
        time.num_seconds_from_midnight(),
        time.nanosecond(),
    ).unwrap();
    day.and_time(clock).and_local_timezone(chrono::Local).earliest().map(
        |t| t.offset().fix().local_minus_utc(),
    )
}

/// Why a local clock reading could not be placed in time.
#[derive(Clone, Copy, Debug, PartialEq, Eq, Structural)]
pub enum LocalTimeError {
    /// The local clock skips `time` on `date` (for example when daylight
    /// saving time begins).
    NonexistentTime { date: NaiveDate, time: NaiveTime },
}

/// The local wall-clock reading `time` on `date`, in nanoseconds since the
/// local epoch.
pub open spec fn local_nanos(date: NaiveDate, time: NaiveTime) -> int {
    date@ * nanos_per_day() + time@
}

/// `offset` is an answer the local time zone can give for the reading `time`
/// on `date`: none at all, or an offset of less than a day under which the
/// reading falls at a representable instant.
pub open spec fn offset_admissible(date: NaiveDate, time: NaiveTime, offset: Option<i32>) -> bool {
    offset matches Some(o) ==> -86400 < o < 86400 && datetime_in_range(
        local_nanos(date, time) - o * nanos_per_sec(),
    )
}

/// `r` is the reading `time` on `date` placed in time by the zone's answer
/// `offset`: the error when the zone has none, else the instant at which a
/// clock `o` seconds east of UTC shows that reading, with that offset.
pub open spec fn reading_placed(
    r: Result<IODateTime, LocalTimeError>,
    date: NaiveDate,
    time: NaiveTime,
    offset: Option<i32>,
) -> bool {
    match offset {
        None => r == Err::<IODateTime, LocalTimeError>(LocalTimeError::NonexistentTime { date, time }),
        Some(o) => r matches Ok(t) && t.local() == local_nanos(date, time) && t.offset_secs() == o,
    }
}

/// `r` is the UTC instant of the reading `time` on `date` under the zone's
/// answer `offset`, or the error when the zone has none.
pub open spec fn utc_placed(
    r: Result<DateTime, LocalTimeError>,
    date: NaiveDate,
    time: NaiveTime,
    offset: Option<i32>,
) -> bool {
    match offset {
        None => r == Err::<DateTime, LocalTimeError>(LocalTimeError::NonexistentTime { date, time }),
        Some(o) => r matches Ok(u) && u@ == local_nanos(date, time) - o * nanos_per_sec(),
    }
}

/// Places the local clock reading `time` on `date` in time, given the local
/// zone's answer for it: `None` when the zone skips that reading, else the
/// offset in seconds east of UTC that it has there.
pub fn local_reading(date: NaiveDate, time: NaiveTime, offset: Option<i32>) -> (r: Result<
    IODateTime,
    LocalTimeError,
>)
    requires
        offset_admissible(date, time, offset),
    ensures
        reading_placed(r, date, time, offset),
        r matches Ok(t) ==> offset matches Some(o) && t.instant() == local_nanos(date, time) - o
            * nanos_per_sec(),
{
    match offset {
        None => Err(LocalTimeError::NonexistentTime { date, time }),
        Some(off) => {
            let local = DateTime::from_date_and_time(&date, &time);
            let shift = crate::time::TimeDelta::try_seconds(-(off as i64)).unwrap();
            let utc = local.checked_add_signed(&shift).unwrap();
            Ok(IODateTime::from_utc_and_offset(utc, off).unwrap())
        },
    }
}

/// The instant at which the local clock shows `time` on `date` (the earliest
/// one, where the reading occurs twice), with the local offset there; an
/// error where the local clock skips that reading.
///
/// Which readings exist, and their offsets, depend on the machine's time
/// zone: the contract states that the result is the zone's answer placed in
/// time by `local_reading`, whatever that answer is.
pub fn combine_io_dt(date: NaiveDate, time: NaiveTime) -> (r: Result<IODateTime, LocalTimeError>)
    ensures
        exists|offset: Option<i32>|
            offset_admissible(date, time, offset) && #[trigger] reading_placed(
                r,
                date,
                time,
                offset,
            ),
{
    let offset = earliest_local_offset(&date, &time);
    let r = local_reading(date, time, offset);
    assert(reading_placed(r, date, time, offset));
    r
}

/// The UTC instant at which the local clock shows `time` on `date` (the
/// earliest one, where the reading occurs twice): the instant of
/// `combine_io_dt`, under the same answer of the local zone; an error where
/// the local clock skips that reading.
pub fn combine_io_dt_to_utc(date: NaiveDate, time: NaiveTime) -> (r: Result<DateTime, LocalTimeError>)
    ensures
        exists|offset: Option<i32>|
            offset_admissible(date, time, offset) && #[trigger] utc_placed(r, date, time, offset),
{
    let placed = combine_io_dt(date, time);
    let ghost offset = choose|offset: Option<i32>|
        offset_admissible(date, time, offset) && #[trigger] reading_placed(
            placed,
            date,
            time,
            offset,
        );
    let r = match placed {
        Ok(t) => Ok(to_utc(t)),
        Err(e) => Err(e),
    };
    assert(utc_placed(r, date, time, offset));
    r
}

} // verus!
