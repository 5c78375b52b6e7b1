//! Instants, durations, calendar dates and times of day, held as plain
//! integers. Each value is viewed as a number of nanoseconds (or of days, for
//! a date), and each type keeps the range of values that the calendar
//! library it stands for can represent.

use vstd::prelude::*;
use vstd::arithmetic::div_mod::lemma_fundamental_div_mod_converse;

verus! {

pub open spec fn nanos_per_sec() -> int {
    1_000_000_000
}

pub open spec fn nanos_per_minute() -> int {
    60_000_000_000
}

pub open spec fn nanos_per_hour() -> int {
    3_600_000_000_000
}

pub open spec fn nanos_per_day() -> int {
    86_400_000_000_000
}

pub open spec fn nanos_per_week() -> int {
    604_800_000_000_000
}

/// The largest magnitude of a duration: `i64::MAX` milliseconds, in nanoseconds.
pub open spec fn max_delta_nanos() -> int {
    9_223_372_036_854_775_807_000_000
}

/// A duration of `v` nanoseconds can be represented.
pub open spec fn delta_in_range(v: int) -> bool {
    -max_delta_nanos() <= v <= max_delta_nanos()
}

/// Division rounding toward zero, for a positive divisor.
pub open spec fn div_trunc(a: int, b: int) -> int {
    if a >= 0 {
        a / b
    } else {
        -((-a) / b)
    }
}

/// Whole seconds in a duration of `v` nanoseconds, rounded toward zero.
pub open spec fn whole_seconds(v: int) -> int {
    div_trunc(v, nanos_per_sec())
}

pub open spec fn whole_minutes(v: int) -> int {
    div_trunc(whole_seconds(v), 60)
}

pub open spec fn whole_hours(v: int) -> int {
    div_trunc(whole_seconds(v), 3600)
}

pub open spec fn whole_days(v: int) -> int {
    div_trunc(whole_seconds(v), 86400)
}

pub open spec fn whole_weeks(v: int) -> int {
    div_trunc(whole_days(v), 7)
}

/// Rounds `a / b` toward zero, as Rust's integer division does.
fn trunc_div_i64(a: i64, b: i64) -> (r: i64)
    requires
        b > 0,
        a > i64::MIN,
    ensures
        r == div_trunc(a as int, b as int),
        a >= 0 ==> 0 <= r <= a,
        a < 0 ==> a <= r <= 0,
{
    if a >= 0 {
        let q = (a as u64) / (b as u64);
        assert(q <= a) by (nonlinear_arith)
            requires
                q == (a as u64) / (b as u64),
                b > 0,
                a >= 0,
        ;
        q as i64
    } else {
        let q = ((-a) as u64) / (b as u64);
        assert(q <= -a) by (nonlinear_arith)
            requires
                q == ((-a) as u64) / (b as u64),
                b > 0,
                a < 0,
        ;
        -(q as i64)
    }
}

/// A signed duration with nanosecond precision.
#[derive(Clone, Copy, Debug, PartialEq, Eq, Structural)]
pub struct TimeDelta {
    secs: i64,
    nanos: i32,
}

impl TimeDelta {
    #[verifier::type_invariant]
    spec fn well_formed(self) -> bool {
        &&& 0 <= self.nanos < 1_000_000_000
        &&& delta_in_range(self.secs * nanos_per_sec() + self.nanos)
    }
}

impl View for TimeDelta {
    type V = int;

    /// The duration in nanoseconds.
    closed spec fn view(&self) -> int {
        self.secs * nanos_per_sec() + self.nanos
    }
}

impl TimeDelta {
    /// The duration of `secs` seconds and `nanos` nanoseconds, if it is in range.
    pub fn new(secs: i64, nanos: u32) -> (r: Option<TimeDelta>)
        ensures
            r is Some <==> (nanos < 1_000_000_000 && delta_in_range(
                secs * nanos_per_sec() + nanos,
            )),
            r matches Some(d) ==> d@ == secs * nanos_per_sec() + nanos,
    {
        if nanos >= 1_000_000_000 {
            return None;
        }
        if secs < -9_223_372_036_854_776 || secs > 9_223_372_036_854_775 || (secs
            == 9_223_372_036_854_775 && nanos > 807_000_000) || (secs == -9_223_372_036_854_776
            && nanos < 193_000_000) {
            return None;
        }
        Some(TimeDelta { secs, nanos: nanos as i32 })
    }

    /// The empty duration.
    pub fn zero() -> (r: TimeDelta)
        ensures
            r@ == 0,
    {
        TimeDelta { secs: 0, nanos: 0 }
    }

    /// The whole seconds and the nanoseconds (below one second) that make up the duration.
    pub fn parts(&self) -> (r: (i64, i32))
        ensures
            0 <= r.1 < 1_000_000_000,
            r.0 * nanos_per_sec() + r.1 == self@,
            delta_in_range(self@),
    {
        proof {
            use_type_invariant(self);
        }
        (self.secs, self.nanos)
    }

    /// The duration is below zero.
    pub fn is_negative(&self) -> (r: bool)
        ensures
            r == (self@ < 0),
            delta_in_range(self@),
    {
        proof {
            use_type_invariant(self);
        }
        self.secs < 0
    }

    /// `seconds` seconds, if that is in range.
    pub fn try_seconds(seconds: i64) -> (r: Option<TimeDelta>)
        ensures
            r is Some <==> delta_in_range(seconds * nanos_per_sec()),
            r matches Some(d) ==> d@ == seconds * nanos_per_sec(),
    {
        TimeDelta::new(seconds, 0)
    }

    /// `minutes` minutes, if that is in range.
    pub fn try_minutes(minutes: i64) -> (r: Option<TimeDelta>)
        ensures
            r is Some <==> delta_in_range(minutes * nanos_per_minute()),
            r matches Some(d) ==> d@ == minutes * nanos_per_minute(),
    {
        match minutes.checked_mul(60) {
            Some(s) => TimeDelta::try_seconds(s),
            None => None,
        }
    }

    /// `hours` hours, if that is in range.
    pub fn try_hours(hours: i64) -> (r: Option<TimeDelta>)
        ensures
            r is Some <==> delta_in_range(hours * nanos_per_hour()),
            r matches Some(d) ==> d@ == hours * nanos_per_hour(),
    {
        match hours.checked_mul(3600) {
            Some(s) => TimeDelta::try_seconds(s),
            None => None,
        }
    }

    /// `days` days of 24 hours, if that is in range.
    pub fn try_days(days: i64) -> (r: Option<TimeDelta>)
        ensures
            r is Some <==> delta_in_range(days * nanos_per_day()),
            r matches Some(d) ==> d@ == days * nanos_per_day(),
    {
        match days.checked_mul(86400) {
            Some(s) => TimeDelta::try_seconds(s),
            None => None,
        }
    }

    /// `weeks` weeks of 7 days, if that is in range.
    pub fn try_weeks(weeks: i64) -> (r: Option<TimeDelta>)
        ensures
            r is Some <==> delta_in_range(weeks * nanos_per_week()),
            r matches Some(d) ==> d@ == weeks * nanos_per_week(),
    {
        match weeks.checked_mul(604800) {
            Some(s) => TimeDelta::try_seconds(s),
            None => None,
        }
    }

    /// The sum of two durations, if it is in range.
    pub fn checked_add(&self, rhs: &TimeDelta) -> (r: Option<TimeDelta>)
        ensures
            r is Some <==> delta_in_range(self@ + rhs@),
            r matches Some(d) ==> d@ == self@ + rhs@,
    {
        proof {
            use_type_invariant(self);
            use_type_invariant(rhs);
        }
        let mut secs = self.secs + rhs.secs;
        let mut nanos = self.nanos + rhs.nanos;
        if nanos >= 1_000_000_000 {
            nanos = nanos - 1_000_000_000;
            secs = secs + 1;
        }
        TimeDelta::new(secs, nanos as u32)
    }

    /// The difference of two durations, if it is in range.
    pub fn checked_sub(&self, rhs: &TimeDelta) -> (r: Option<TimeDelta>)
        ensures
            r is Some <==> delta_in_range(self@ - rhs@),
            r matches Some(d) ==> d@ == self@ - rhs@,
    {
        proof {
            use_type_invariant(self);
            use_type_invariant(rhs);
        }
        let mut secs = self.secs - rhs.secs;
        let mut nanos = self.nanos - rhs.nanos;
        if nanos < 0 {
            nanos = nanos + 1_000_000_000;
            secs = secs - 1;
        }
        TimeDelta::new(secs, nanos as u32)
    }

    /// The duration with its sign flipped.
    pub fn neg(&self) -> (r: TimeDelta)
        ensures
            r@ == -self@,
    {
        proof {
            use_type_invariant(self);
        }
        if self.nanos == 0 {
            TimeDelta { secs: -self.secs, nanos: 0 }
        } else {
            TimeDelta { secs: -self.secs - 1, nanos: 1_000_000_000 - self.nanos }
        }
    }

    /// Whole seconds, rounded toward zero.
    pub fn num_seconds(&self) -> (r: i64)
        ensures
            r == whole_seconds(self@),
            -9_223_372_036_854_775 <= r <= 9_223_372_036_854_775,
            delta_in_range(self@),
    {
        proof {
            use_type_invariant(self);
            let v = self@;
            if self.secs < 0 && self.nanos > 0 {
                lemma_fundamental_div_mod_converse(
                    -v,
                    nanos_per_sec(),
                    -self.secs - 1,
                    nanos_per_sec() - self.nanos,
                );
            } else if self.secs < 0 {
                lemma_fundamental_div_mod_converse(-v, nanos_per_sec(), -self.secs as int, 0);
            } else {
                lemma_fundamental_div_mod_converse(
                    v,
                    nanos_per_sec(),
                    self.secs as int,
                    self.nanos as int,
                );
            }
        }
        if self.secs < 0 && self.nanos > 0 {
            self.secs + 1
        } else {
            self.secs
        }
    }

    /// Whole minutes, rounded toward zero.
    pub fn num_minutes(&self) -> (r: i64)
        ensures
            r == whole_minutes(self@),
            delta_in_range(self@),
    {
        trunc_div_i64(self.num_seconds(), 60)
    }

    /// Whole hours, rounded toward zero.
    pub fn num_hours(&self) -> (r: i64)
        ensures
            r == whole_hours(self@),
            delta_in_range(self@),
    {
        trunc_div_i64(self.num_seconds(), 3600)
    }

    /// Whole days of 24 hours, rounded toward zero.
    pub fn num_days(&self) -> (r: i64)
        ensures
            r == whole_days(self@),
            delta_in_range(self@),
    {
        trunc_div_i64(self.num_seconds(), 86400)
    }

    /// Whole weeks, rounded toward zero.
    pub fn num_weeks(&self) -> (r: i64)
        ensures
            r == whole_weeks(self@),
            delta_in_range(self@),
    {
        trunc_div_i64(self.num_days(), 7)
    }
}

/// The first representable day, counted from 1970-01-01 (it is -262143-01-01).
pub open spec fn min_days() -> int {
    -96_465_292
}

/// The last representable day, counted from 1970-01-01 (it is 262142-12-31).
pub open spec fn max_days() -> int {
    95_026_236
}

/// An instant `v` nanoseconds after 1970-01-01 00:00:00 UTC can be represented.
pub open spec fn datetime_in_range(v: int) -> bool {
    min_days() * nanos_per_day() <= v < (max_days() + 1) * nanos_per_day()
}

/// The latest representable instant, in nanoseconds since the epoch.
pub open spec fn max_datetime() -> int {
    (max_days() + 1) * nanos_per_day() - 1
}

/// The earliest representable instant, in nanoseconds since the epoch.
pub open spec fn min_datetime() -> int {
    min_days() * nanos_per_day()
}

/// The day (counted from 1970-01-01) on which the instant `v` falls.
pub open spec fn day_of(v: int) -> int {
    v / nanos_per_day()
}

/// The time of day of the instant `v`, in nanoseconds since midnight.
pub open spec fn time_of_day(v: int) -> int {
    v % nanos_per_day()
}

/// An instant in UTC, with nanosecond precision.
#[derive(Clone, Copy, Debug, PartialEq, Eq, Structural)]
pub struct DateTime {
    secs: i64,
    nanos: u32,
}

impl DateTime {
    #[verifier::type_invariant]
    spec fn well_formed(self) -> bool {
        &&& self.nanos < 1_000_000_000
        &&& -8_334_601_228_800 <= self.secs <= 8_210_266_876_799
    }
}

impl View for DateTime {
    type V = int;

    /// Nanoseconds since 1970-01-01 00:00:00 UTC.
    closed spec fn view(&self) -> int {
        self.secs * nanos_per_sec() + self.nanos
    }
}

impl DateTime {
    /// The instant `secs` seconds and `nsecs` nanoseconds after the epoch, if it is in range.
    pub fn from_timestamp(secs: i64, nsecs: u32) -> (r: Option<DateTime>)
        ensures
            r is Some <==> (nsecs < 1_000_000_000 && datetime_in_range(
                secs * nanos_per_sec() + nsecs,
            )),
            r matches Some(d) ==> d@ == secs * nanos_per_sec() + nsecs,
    {
        if nsecs >= 1_000_000_000 || secs < -8_334_601_228_800 || secs > 8_210_266_876_799 {
            None
        } else {
            Some(DateTime { secs, nanos: nsecs })
        }
    }

    /// The latest representable instant.
    pub fn max_utc() -> (r: DateTime)
        ensures
            r@ == max_datetime(),
    {
        DateTime { secs: 8_210_266_876_799, nanos: 999_999_999 }
    }

    /// Whole seconds since the epoch (rounded down).
    pub fn timestamp(&self) -> (r: i64)
        ensures
            r == self@ / nanos_per_sec(),
            datetime_in_range(self@),
    {
        proof {
            use_type_invariant(self);
            lemma_fundamental_div_mod_converse(
                self@,
                nanos_per_sec(),
                self.secs as int,
                self.nanos as int,
            );
        }
        self.secs
    }

    /// Nanoseconds past the whole second.
    pub fn timestamp_subsec_nanos(&self) -> (r: u32)
        ensures
            r == self@ % nanos_per_sec(),
            datetime_in_range(self@),
    {
        proof {
            use_type_invariant(self);
            lemma_fundamental_div_mod_converse(
                self@,
                nanos_per_sec(),
                self.secs as int,
                self.nanos as int,
            );
        }
        self.nanos
    }

    /// The instant `d` later, if it is in range.
    pub fn checked_add_signed(&self, d: &TimeDelta) -> (r: Option<DateTime>)
        ensures
            r is Some <==> datetime_in_range(self@ + d@),
            r matches Some(t) ==> t@ == self@ + d@,
    {
        proof {
            use_type_invariant(self);
        }
        let (dsecs, dnanos) = d.parts();
        let mut secs: i64 = self.secs + dsecs;
        let mut nanos: i64 = self.nanos as i64 + dnanos as i64;
        if nanos >= 1_000_000_000 {
            nanos = nanos - 1_000_000_000;
            secs = secs + 1;
        }
        DateTime::from_timestamp(secs, nanos as u32)
    }

    /// The duration from `rhs` to `self`.
    pub fn signed_duration_since(&self, rhs: &DateTime) -> (r: TimeDelta)
        ensures
            r@ == self@ - rhs@,
    {
        proof {
            use_type_invariant(self);
            use_type_invariant(rhs);
        }
        let mut secs: i64 = self.secs - rhs.secs;
        let mut nanos: i64 = self.nanos as i64 - rhs.nanos as i64;
        if nanos < 0 {
            nanos = nanos + 1_000_000_000;
            secs = secs - 1;
        }
        TimeDelta { secs, nanos: nanos as i32 }
    }

    /// The instant is strictly before `other`.
    pub fn is_before(&self, other: &DateTime) -> (r: bool)
        ensures
            r == (self@ < other@),
    {
        proof {
            use_type_invariant(self);
            use_type_invariant(other);
        }
        self.secs < other.secs || (self.secs == other.secs && self.nanos < other.nanos)
    }

    /// The UTC date on which the instant falls.
    pub fn date_naive(&self) -> (r: NaiveDate)
        ensures
            r@ == day_of(self@),
    {
        proof {
            use_type_invariant(self);
        }
        let days: i64 = if self.secs >= 0 {
            self.secs / 86400
        } else {
            -((-self.secs - 1) / 86400) - 1
        };
        let rem: i64 = self.secs - days * 86400;
        assert(0 <= rem < 86400);
        proof {
            lemma_fundamental_div_mod_converse(
                self@,
                nanos_per_day(),
                days as int,
                rem * nanos_per_sec() + self.nanos,
            );
        }
        NaiveDate { days: days as i32 }
    }

    /// The UTC time of day of the instant.
    pub fn time(&self) -> (r: NaiveTime)
        ensures
            r@ == time_of_day(self@),
    {
        proof {
            use_type_invariant(self);
        }
        let days: i64 = if self.secs >= 0 {
            self.secs / 86400
        } else {
            -((-self.secs - 1) / 86400) - 1
        };
        let rem: i64 = self.secs - days * 86400;
        assert(0 <= rem < 86400);
        proof {
            lemma_fundamental_div_mod_converse(
                self@,
                nanos_per_day(),
                days as int,
                rem * nanos_per_sec() + self.nanos,
            );
        }
        NaiveTime { secs: rem as u32, frac: self.nanos }
    }

    /// The instant at the given time of day on the given date.
    pub fn from_date_and_time(date: &NaiveDate, time: &NaiveTime) -> (r: DateTime)
        ensures
            r@ == date@ * nanos_per_day() + time@,
    {
        proof {
            use_type_invariant(date);
            use_type_invariant(time);
        }
        DateTime { secs: date.days as i64 * 86400 + time.secs as i64, nanos: time.frac }
    }
}

/// A calendar date, counted in days from 1970-01-01.
#[derive(Clone, Copy, Debug, PartialEq, Eq, Structural)]
pub struct NaiveDate {
    days: i32,
}

impl NaiveDate {
    #[verifier::type_invariant]
    spec fn well_formed(self) -> bool {
        -96_465_292 <= self.days <= 95_026_236
    }
}

impl View for NaiveDate {
    type V = int;

    /// Days since 1970-01-01.
    closed spec fn view(&self) -> int {
        self.days as int
    }
}

impl NaiveDate {
    /// The date `days` days after 1970-01-01, if it is in range.
    pub fn from_epoch_days(days: i64) -> (r: Option<NaiveDate>)
        ensures
            r is Some <==> min_days() <= days <= max_days(),
            r matches Some(d) ==> d@ == days,
    {
        if days < -96_465_292 || days > 95_026_236 {
            None
        } else {
            Some(NaiveDate { days: days as i32 })
        }
    }

    /// Days since 1970-01-01.
    pub fn epoch_days(&self) -> (r: i32)
        ensures
            r == self@,
            min_days() <= self@ <= max_days(),
    {
        proof {
            use_type_invariant(self);
        }
        self.days
    }

    /// The next day, if it is in range.
    pub fn succ_opt(&self) -> (r: Option<NaiveDate>)
        ensures
            r is Some <==> self@ < max_days(),
            r matches Some(d) ==> d@ == self@ + 1,
    {
        proof {
            use_type_invariant(self);
        }
        if self.days < 95_026_236 {
            Some(NaiveDate { days: self.days + 1 })
        } else {
            None
        }
    }
}

/// A time of day, with nanosecond precision (no leap seconds).
#[derive(Clone, Copy, Debug, PartialEq, Eq, Structural)]
pub struct NaiveTime {
    secs: u32,
    frac: u32,
}

impl NaiveTime {
    #[verifier::type_invariant]
    spec fn well_formed(self) -> bool {
        self.secs < 86400 && self.frac < 1_000_000_000
    }
}

impl View for NaiveTime {
    type V = int;

    /// Nanoseconds since midnight.
    closed spec fn view(&self) -> int {
        self.secs * nanos_per_sec() + self.frac
    }
}

impl NaiveTime {
    /// The time `hour:min:sec`, if each part is in range.
    pub fn from_hms_opt(hour: u32, min: u32, sec: u32) -> (r: Option<NaiveTime>)
        ensures
            r is Some <==> (hour < 24 && min < 60 && sec < 60),
            r matches Some(t) ==> t@ == (hour * 3600 + min * 60 + sec) * nanos_per_sec(),
    {
        if hour < 24 && min < 60 && sec < 60 {
            Some(NaiveTime { secs: hour * 3600 + min * 60 + sec, frac: 0 })
        } else {
            None
        }
    }

    /// The time `secs` seconds and `nano` nanoseconds after midnight, if in range.
    pub fn from_num_seconds_from_midnight_opt(secs: u32, nano: u32) -> (r: Option<NaiveTime>)
        ensures
            r is Some <==> (secs < 86400 && nano < 1_000_000_000),
            r matches Some(t) ==> t@ == secs * nanos_per_sec() + nano,
    {
        if secs < 86400 && nano < 1_000_000_000 {
            Some(NaiveTime { secs, frac: nano })
        } else {
            None
        }
    }

    /// Midnight, 00:00:00.
    pub fn midnight() -> (r: NaiveTime)
        ensures
            r@ == 0,
    {
        NaiveTime { secs: 0, frac: 0 }
    }

    /// Whole seconds since midnight.
    pub fn num_seconds_from_midnight(&self) -> (r: u32)
        ensures
            r == self@ / nanos_per_sec(),
            r < 86400,
            0 <= self@ < nanos_per_day(),
    {
        proof {
            use_type_invariant(self);
            lemma_fundamental_div_mod_converse(
                self@,
                nanos_per_sec(),
                self.secs as int,
                self.frac as int,
            );
        }
        self.secs
    }

    /// Nanoseconds past the whole second.
    pub fn nanosecond(&self) -> (r: u32)
        ensures
            r == self@ % nanos_per_sec(),
            0 <= self@ < nanos_per_day(),
    {
        proof {
            use_type_invariant(self);
            lemma_fundamental_div_mod_converse(
                self@,
                nanos_per_sec(),
                self.secs as int,
                self.frac as int,
            );
        }
        self.frac
    }

    /// The time is strictly before `other`.
    pub fn is_before(&self, other: &NaiveTime) -> (r: bool)
        ensures
            r == (self@ < other@),
    {
        proof {
            use_type_invariant(self);
            use_type_invariant(other);
        }
        self.secs < other.secs || (self.secs == other.secs && self.frac < other.frac)
    }

    /// Something starting at this time and lasting `d` ends strictly after
    /// `limit` on the same day (counting on past midnight, without wrapping).
    pub fn ends_after(&self, d: &TimeDelta, limit: &NaiveTime) -> (r: bool)
        ensures
            r == (self@ + d@ > limit@),
    {
        proof {
            use_type_invariant(self);
            use_type_invariant(limit);
        }
        let (ds, dn) = d.parts();
        let end: i128 = (self.secs as i128 + ds as i128) * 1_000_000_000 + self.frac as i128
            + dn as i128;
        let lim: i128 = limit.secs as i128 * 1_000_000_000 + limit.frac as i128;
        end > lim
    }

    /// The time `d` later on the clock, wrapping around midnight.
    pub fn wrapping_add_signed(&self, d: &TimeDelta) -> (r: NaiveTime)
        ensures
            r@ == (self@ + d@) % nanos_per_day(),
    {
        proof {
            use_type_invariant(self);
        }
        let (dsecs, dnanos) = d.parts();
        let mut secs: i64 = self.secs as i64 + dsecs;
        let mut frac: i64 = self.frac as i64 + dnanos as i64;
        if frac >= 1_000_000_000 {
            frac = frac - 1_000_000_000;
            secs = secs + 1;
        }
        let days: i64 = if secs >= 0 {
            secs / 86400
        } else {
            -((-secs - 1) / 86400) - 1
        };
        let rem: i64 = secs - days * 86400;
        assert(0 <= rem < 86400);
        proof {
            lemma_fundamental_div_mod_converse(
                self@ + d@,
                nanos_per_day(),
                days as int,
                rem * nanos_per_sec() + frac,
            );
        }
        NaiveTime { secs: rem as u32, frac: frac as u32 }
    }
}

/// An instant together with the offset (in seconds east of UTC) of the local
/// clock at that instant.
#[derive(Clone, Copy, Debug, PartialEq, Eq, Structural)]
pub struct IODateTime {
    utc: DateTime,
    offset: i32,
}

impl IODateTime {
    #[verifier::type_invariant]
    spec fn well_formed(self) -> bool {
        -86400 < self.offset < 86400
    }

    /// The instant, in nanoseconds since the epoch.
    pub closed spec fn instant(self) -> int {
        self.utc@
    }

    /// The offset of the local clock from UTC, in seconds.
    pub closed spec fn offset_secs(self) -> int {
        self.offset as int
    }

    /// The local wall-clock reading, in nanoseconds since the local epoch.
    pub open spec fn local(self) -> int {
        self.instant() + self.offset_secs() * nanos_per_sec()
    }

    /// The instant `utc` as read on a clock `offset` seconds east of UTC, if the
    /// offset is less than a day.
    pub fn from_utc_and_offset(utc: DateTime, offset: i32) -> (r: Option<IODateTime>)
        ensures
            r is Some <==> -86400 < offset < 86400,
            r matches Some(t) ==> t.instant() == utc@ && t.offset_secs() == offset,
    {
        if -86400 < offset && offset < 86400 {
            Some(IODateTime { utc, offset })
        } else {
            None
        }
    }

    /// The instant.
    pub fn utc(&self) -> (r: DateTime)
        ensures
            r@ == self.instant(),
    {
        self.utc
    }

    /// The offset of the local clock from UTC, in seconds.
    pub fn offset(&self) -> (r: i32)
        ensures
            r == self.offset_secs(),
            -86400 < r < 86400,
    {
        proof {
            use_type_invariant(self);
        }
        self.offset
    }
}

} // verus!
