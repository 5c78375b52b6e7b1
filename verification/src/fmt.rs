//! Human-readable text for instants and durations.

use vstd::prelude::*;
use chrono::Datelike;
use crate::text::{
    decimal,
    decimal_signed,
    push_char,
    push_decimal,
    push_decimal_signed,
    push_zero_padded2,
    zero_padded2,
};
use vstd::arithmetic::div_mod::lemma_fundamental_div_mod_converse;
use crate::time::{
    day_of,
    div_trunc,
    time_of_day,
    nanos_per_day,
    nanos_per_hour,
    nanos_per_minute,
    nanos_per_sec,
    nanos_per_week,
    whole_days,
    whole_hours,
    whole_minutes,
    whole_seconds,
    whole_weeks,
    DateTime,
    IODateTime,
    TimeDelta,
};

verus! {

/// The largest count of `unit_nanos` that fits in `v`, rounded toward zero,
/// times the unit, does not exceed `v` in magnitude and has its sign.
proof fn lemma_whole_units_fit(v: int, secs: int, k: int, q: int)
    requires
        k > 0,
        secs == whole_seconds(v),
        q == div_trunc(secs, k),
    ensures
        v >= 0 ==> 0 <= q * k * nanos_per_sec() <= v,
        v < 0 ==> v <= q * k * nanos_per_sec() <= 0,
{
    if v >= 0 {
        assert(secs * nanos_per_sec() <= v) by (nonlinear_arith)
            requires
                v >= 0,
                secs == v / nanos_per_sec(),
        ;
        assert(0 <= q * k <= secs) by (nonlinear_arith)
            requires
                k > 0,
                secs >= 0,
                q == secs / k,
        ;
        assert(0 <= q * k * nanos_per_sec() <= secs * nanos_per_sec()) by (nonlinear_arith)
            requires
                0 <= q * k <= secs,
        ;
    } else {
        assert(secs * nanos_per_sec() >= v) by (nonlinear_arith)
            requires
                v < 0,
                secs == -((-v) / nanos_per_sec()),
        ;
        if secs >= 0 {
            assert(secs == 0) by (nonlinear_arith)
                requires
                    v < 0,
                    secs == -((-v) / nanos_per_sec()),
                    secs >= 0,
            ;
            assert(q == 0);
        } else {
            assert(secs <= q * k <= 0) by (nonlinear_arith)
                requires
                    k > 0,
                    secs < 0,
                    q == -((-secs) / k),
            ;
            assert(secs * nanos_per_sec() <= q * k * nanos_per_sec() <= 0) by (nonlinear_arith)
                requires
                    secs <= q * k <= 0,
            ;
        }
    }
}

/// Whole weeks times a week does not exceed the duration, for a positive count.
proof fn lemma_whole_weeks_fit(v: int)
    ensures
        whole_weeks(v) > 0 ==> 0 < whole_weeks(v) * nanos_per_week() <= v,
{
    let s = whole_seconds(v);
    let d = whole_days(v);
    let w = whole_weeks(v);
    lemma_whole_units_fit(v, s, 86400, d);
    if w > 0 {
        assert(d >= 7) by (nonlinear_arith)
            requires
                w == div_trunc(d, 7),
                w > 0,
        ;
        assert(w * 7 <= d) by (nonlinear_arith)
            requires
                w == d / 7,
                d >= 0,
        ;
        assert(w * nanos_per_week() <= d * 86400 * nanos_per_sec()) by (nonlinear_arith)
            requires
                w * 7 <= d,
                w > 0,
        ;
        assert(v >= 0) by (nonlinear_arith)
            requires
                d == div_trunc(s, 86400),
                s == div_trunc(v, nanos_per_sec()),
                d >= 7,
        ;
    }
}

/// The text of a duration, as `format_timedelta` writes it: the largest units
/// first, each present only when its count is positive and the larger units
/// leave room for it (weeks; days only under two weeks; hours only within
/// two days and no weeks; minutes only under a day; seconds only under ten
/// minutes and no larger unit).
pub open spec fn timedelta_text(v: int) -> Seq<char> {
    let weeks = whole_weeks(v);
    let r1 = if weeks > 0 {
        v - weeks * nanos_per_week()
    } else {
        v
    };
    let t1 = if weeks > 0 {
        decimal_signed(weeks) + seq!['w']
    } else {
        Seq::empty()
    };
    let days = whole_days(r1);
    let put_days = days > 0 && weeks < 2;
    let r2 = if put_days {
        r1 - days * nanos_per_day()
    } else {
        r1
    };
    let t2 = if put_days {
        t1 + decimal_signed(days) + seq!['d']
    } else {
        t1
    };
    let hours = whole_hours(r2);
    let put_hours = hours > 0 && days <= 2 && weeks == 0;
    let r3 = if put_hours {
        r2 - hours * nanos_per_hour()
    } else {
        r2
    };
    let t3 = if put_hours {
        t2 + decimal_signed(hours) + seq!['h']
    } else {
        t2
    };
    let minutes = whole_minutes(r3);
    let put_minutes = minutes > 0 && days == 0 && weeks == 0;
    let r4 = if put_minutes {
        r3 - minutes * nanos_per_minute()
    } else {
        r3
    };
    let t4 = if put_minutes {
        t3 + decimal_signed(minutes) + seq!['m']
    } else {
        t3
    };
    let seconds = whole_seconds(r4);
    if minutes < 10 && hours == 0 && days == 0 && weeks == 0 {
        t4 + decimal_signed(seconds) + seq!['s']
    } else {
        t4
    }
}

/// Writes a duration with its largest units first, for example `1w2d`,
/// `3h5m` or `42s`.
pub fn format_timedelta(timedelta: TimeDelta) -> (s: String)
    ensures
        s@ == timedelta_text(timedelta@),
{
    let ghost v = timedelta@;
    let mut s = String::new();
    let mut remaining = timedelta;

    let weeks = remaining.num_weeks();
    if weeks > 0 {
        push_decimal_signed(&mut s, weeks);
        push_char(&mut s, 'w');
        proof {
            lemma_whole_weeks_fit(v);
        }
        let unit = TimeDelta::try_weeks(weeks).unwrap();
        remaining = remaining.checked_sub(&unit).unwrap();
    }
    let ghost r1 = remaining@;
    let ghost t1 = s@;

    let days = remaining.num_days();
    if days > 0 && weeks < 2 {
        push_decimal_signed(&mut s, days);
        push_char(&mut s, 'd');
        proof {
            lemma_whole_units_fit(r1, whole_seconds(r1), 86400, days as int);
            assert(days * nanos_per_day() == days * 86400 * nanos_per_sec()) by (nonlinear_arith);
        }
        let unit = TimeDelta::try_days(days).unwrap();
        remaining = remaining.checked_sub(&unit).unwrap();
    }
    let ghost r2 = remaining@;

    let hours = remaining.num_hours();
    if hours > 0 && days <= 2 && weeks == 0 {
        push_decimal_signed(&mut s, hours);
        push_char(&mut s, 'h');
        proof {
            lemma_whole_units_fit(r2, whole_seconds(r2), 3600, hours as int);
            assert(hours * nanos_per_hour() == hours * 3600 * nanos_per_sec()) by (nonlinear_arith);
        }
        let unit = TimeDelta::try_hours(hours).unwrap();
        remaining = remaining.checked_sub(&unit).unwrap();
    }
    let ghost r3 = remaining@;

    let minutes = remaining.num_minutes();
    if minutes > 0 && days == 0 && weeks == 0 {
        push_decimal_signed(&mut s, minutes);
        push_char(&mut s, 'm');
        proof {
            lemma_whole_units_fit(r3, whole_seconds(r3), 60, minutes as int);
            assert(minutes * nanos_per_minute() == minutes * 60 * nanos_per_sec())
                by (nonlinear_arith);
        }
        let unit = TimeDelta::try_minutes(minutes).unwrap();
        remaining = remaining.checked_sub(&unit).unwrap();
    }

    let seconds = remaining.num_seconds();
    if minutes < 10 && hours == 0 && days == 0 && weeks == 0 {
        push_decimal_signed(&mut s, seconds);
        push_char(&mut s, 's');
    }
    proof {
        assert(s@ =~= timedelta_text(v));
    }
    s
}

proof fn lemma_decimal_nonempty(n: nat)
    ensures
        decimal(n).len() >= 1,
    decreases n,
{
    if n >= 10 {
        lemma_decimal_nonempty(n / 10);
    }
}

/// Every duration of zero or more is written with at least one unit, so a
/// relative instant always reads `in ...` or `... ago` with a number in it.
pub proof fn timedelta_text_is_never_empty(v: int)
    requires
        v >= 0,
    ensures
        timedelta_text(v).len() > 0,
{
    let weeks = whole_weeks(v);
    let r1 = if weeks > 0 {
        v - weeks * nanos_per_week()
    } else {
        v
    };
    lemma_whole_weeks_fit(v);
    let days = whole_days(r1);
    lemma_whole_units_fit(r1, whole_seconds(r1), 86400, days);
    let r2 = if days > 0 && weeks < 2 {
        r1 - days * nanos_per_day()
    } else {
        r1
    };
    assert(days * nanos_per_day() == days * 86400 * nanos_per_sec()) by (nonlinear_arith);
    let hours = whole_hours(r2);
    lemma_whole_units_fit(r2, whole_seconds(r2), 3600, hours);
    assert(hours * nanos_per_hour() == hours * 3600 * nanos_per_sec()) by (nonlinear_arith);
    let r3 = if hours > 0 && days <= 2 && weeks == 0 {
        r2 - hours * nanos_per_hour()
    } else {
        r2
    };
    let minutes = whole_minutes(r3);
    lemma_whole_units_fit(r3, whole_seconds(r3), 60, minutes);
    assert(minutes * nanos_per_minute() == minutes * 60 * nanos_per_sec()) by (nonlinear_arith);
    lemma_decimal_nonempty(weeks as nat);
    lemma_decimal_nonempty(days as nat);
    lemma_decimal_nonempty(hours as nat);
    lemma_decimal_nonempty(minutes as nat);
    let r4 = if minutes > 0 && days == 0 && weeks == 0 {
        r3 - minutes * nanos_per_minute()
    } else {
        r3
    };
    let seconds = whole_seconds(r4);
    if seconds >= 0 {
        lemma_decimal_nonempty(seconds as nat);
    } else {
        lemma_decimal_nonempty((-seconds) as nat);
    }
}


/// Whether `y` is a leap year of the (proleptic) Gregorian calendar.
pub open spec fn is_leap_year(y: int) -> bool {
    y % 4 == 0 && (y % 100 != 0 || y % 400 == 0)
}

/// The leap years before year `y`, counted from year 0 (a negative count
/// before it).
pub open spec fn leap_years_before(y: int) -> int {
    (y - 1) / 4 - (y - 1) / 100 + (y - 1) / 400
}

/// The day (counted from 1970-01-01) on which year `y` begins.
pub open spec fn days_before_year(y: int) -> int {
    365 * (y - 1970) + leap_years_before(y) - leap_years_before(1970)
}

/// The number of days in month `m` of year `y`.
pub open spec fn days_in_month(y: int, m: int) -> int {
    if m == 2 {
        if is_leap_year(y) {
            29
        } else {
            28
        }
    } else if m == 4 || m == 6 || m == 9 || m == 11 {
        30
    } else {
        31
    }
}

/// The days of year `y` before month `m` begins.
pub open spec fn days_before_month(y: int, m: int) -> int {
    let common: int = if m <= 1 {
        0
    } else if m == 2 {
        31
    } else if m == 3 {
        59
    } else if m == 4 {
        90
    } else if m == 5 {
        120
    } else if m == 6 {
        151
    } else if m == 7 {
        181
    } else if m == 8 {
        212
    } else if m == 9 {
        243
    } else if m == 10 {
        273
    } else if m == 11 {
        304
    } else if m == 12 {
        334
    } else {
        365
    };
    if m > 2 && is_leap_year(y) {
        common + 1
    } else {
        common
    }
}

/// `(year, month, day)` is a date of the Gregorian calendar, and falls on
/// `day_number` (days counted from 1970-01-01).
pub open spec fn is_date_of(date: (int, int, int), day_number: int) -> bool {
    let (y, m, d) = date;
    &&& 1 <= m <= 12
    &&& 1 <= d <= days_in_month(y, m)
    &&& days_before_year(y) + days_before_month(y, m) + d - 1 == day_number
}

/// The Gregorian calendar date `(year, month, day)` of the day `day_number`
/// (counted from 1970-01-01).
pub open spec fn calendar_date_of(day_number: int) -> (int, int, int) {
    choose|date: (int, int, int)| is_date_of(date, day_number)
}

proof fn lemma_div_step(x: int, k: int)
    requires
        k > 0,
    ensures
        x / k - (x - 1) / k == if x % k == 0 {
            1int
        } else {
            0int
        },
{
    vstd::arithmetic::div_mod::lemma_fundamental_div_mod(x, k);
    vstd::arithmetic::div_mod::lemma_fundamental_div_mod(x - 1, k);
    let q = x / k;
    let p = (x - 1) / k;
    let r = x % k;
    let t = (x - 1) % k;
    assert(k * q + r == k * p + t + 1);
    assert(k * (q - p) == t + 1 - r) by (nonlinear_arith)
        requires
            k * q + r == k * p + t + 1,
    ;
    if q - p >= 2 {
        assert(k * (q - p) >= 2 * k) by (nonlinear_arith)
            requires
                q - p >= 2,
                k > 0,
        ;
    }
    if q - p <= -1 {
        assert(k * (q - p) <= -k) by (nonlinear_arith)
            requires
                q - p <= -1,
                k > 0,
        ;
    }
    if q - p == 1 {
        assert(k * (q - p) == k) by (nonlinear_arith)
            requires
                q - p == 1,
        ;
    }
    if q - p == 0 {
        assert(k * (q - p) == 0);
    }
}

/// A year has 365 days, one more when it is a leap year.
proof fn lemma_year_length(y: int)
    ensures
        days_before_year(y + 1) == days_before_year(y) + 365 + if is_leap_year(y) {
            1int
        } else {
            0int
        },
{
    lemma_div_step(y, 4);
    lemma_div_step(y, 100);
    lemma_div_step(y, 400);
    if y % 100 == 0 {
        vstd::arithmetic::div_mod::lemma_fundamental_div_mod(y, 100);
        vstd::arithmetic::div_mod::lemma_fundamental_div_mod_converse(y, 4, 25 * (y / 100), 0);
    }
    if y % 400 == 0 {
        vstd::arithmetic::div_mod::lemma_fundamental_div_mod(y, 400);
        vstd::arithmetic::div_mod::lemma_fundamental_div_mod_converse(y, 100, 4 * (y / 400), 0);
    }
}

/// Later years begin on later days.
proof fn lemma_years_ordered(a: int, b: int)
    requires
        a <= b,
    ensures
        days_before_year(a) <= days_before_year(b),
    decreases b - a,
{
    if a < b {
        lemma_year_length(a);
        lemma_years_ordered(a + 1, b);
    }
}

/// A date of year `y` falls between the first day of `y` and that of `y + 1`.
proof fn lemma_date_in_year(date: (int, int, int), n: int)
    requires
        is_date_of(date, n),
    ensures
        days_before_year(date.0) <= n < days_before_year(date.0 + 1),
{
    lemma_year_length(date.0);
}

/// A day has one calendar date.
pub proof fn lemma_date_unique(a: (int, int, int), b: (int, int, int), n: int)
    requires
        is_date_of(a, n),
        is_date_of(b, n),
    ensures
        a == b,
{
    lemma_date_in_year(a, n);
    lemma_date_in_year(b, n);
    if a.0 < b.0 {
        lemma_years_ordered(a.0 + 1, b.0);
    }
    if b.0 < a.0 {
        lemma_years_ordered(b.0 + 1, a.0);
    }
    assert(a.0 == b.0);
}

/// A calendar date that falls on a day is the one [`calendar_date_of`] names
/// for that day.
pub proof fn lemma_calendar_date_of(date: (int, int, int), n: int)
    requires
        is_date_of(date, n),
    ensures
        calendar_date_of(n) == date,
{
    lemma_date_unique(calendar_date_of(n), date, n);
}

/// Reads the year, month and day of the local date through chrono.
///
/// Builds `chrono::DateTime::from_timestamp(utc_secs, 0)` in the fixed offset
/// `offset` and calls `Datelike::year`, `month` and `day` on it. chrono counts
/// dates in the proleptic Gregorian calendar, so the contract states that the
/// result is the calendar date of the local day, `utc_secs + offset` seconds
/// after 1970-01-01 00:00.
#[verifier::external_body]
fn calendar_date(utc_secs: i64, offset: i32) -> (r: (i32, u32, u32))
    requires
        -8_334_601_228_800 <= utc_secs <= 8_210_266_876_799,
        -86400 < offset < 86400,
    ensures
        is_date_of((r.0 as int, r.1 as int, r.2 as int), (utc_secs + offset) / 86400),
{
    let zone = chrono::FixedOffset::east_opt(offset).unwrap();
    let local = chrono::DateTime::from_timestamp(utc_secs, 0).unwrap().with_timezone(&zone);
    (local.year(), local.month(), local.day())
}

/// The text `HH:MM:SS D.M.Y` of the local clock reading of `dt`.
pub open spec fn datetime_text(dt: IODateTime) -> Seq<char> {
    let secs_of_day = time_of_day(dt.local()) / nanos_per_sec();
    let hour = secs_of_day / 3600;
    let minute = secs_of_day % 3600 / 60;
    let second = secs_of_day % 60;
    let date = calendar_date_of(day_of(dt.local()));
    zero_padded2(hour as nat) + seq![':'] + zero_padded2(minute as nat) + seq![':']
        + zero_padded2(second as nat) + seq![' '] + decimal(date.2 as nat) + seq!['.']
        + decimal(date.1 as nat) + seq!['.'] + decimal_signed(date.0)
}

proof fn lemma_two_digits(n: nat)
    requires
        n < 100,
    ensures
        zero_padded2(n).len() == 2,
        zero_padded2(n)[0] as int - 48 == n / 10,
        zero_padded2(n)[1] as int - 48 == n % 10,
{
    reveal_with_fuel(decimal, 2);
    if n >= 10 {
        assert(decimal(n / 10) == seq![crate::text::digit_char((n / 10) as int)]);
    }
}

/// The clock part of the written reading, `HH:MM:SS`, read back as hours,
/// minutes and seconds, gives the seconds of the local time of day, with
/// minutes and seconds below 60.
pub proof fn written_clock_is_the_local_time_of_day(dt: IODateTime)
    ensures
        ({
            let text = datetime_text(dt);
            let t = time_of_day(dt.local()) / nanos_per_sec();
            let hours = (text[0] as int - 48) * 10 + (text[1] as int - 48);
            let minutes = (text[3] as int - 48) * 10 + (text[4] as int - 48);
            let seconds = (text[6] as int - 48) * 10 + (text[7] as int - 48);
            &&& text.len() > 8
            &&& text[2] == ':' && text[5] == ':' && text[8] == ' '
            &&& forall|k: int|
                0 <= k < 8 && k != 2 && k != 5 ==> 0 <= #[trigger] text[k] as int - 48 < 10
            &&& minutes < 60 && seconds < 60
            &&& hours * 3600 + minutes * 60 + seconds == t
        }),
{
    let t = time_of_day(dt.local()) / nanos_per_sec();
    assert(0 <= t < 86400);
    lemma_two_digits((t / 3600) as nat);
    lemma_two_digits((t % 3600 / 60) as nat);
    lemma_two_digits((t % 60) as nat);
    let text = datetime_text(dt);
    let hh = zero_padded2((t / 3600) as nat);
    let mm = zero_padded2((t % 3600 / 60) as nat);
    let ss = zero_padded2((t % 60) as nat);
    assert(text[0] == hh[0] && text[1] == hh[1] && text[2] == ':');
    assert(text[3] == mm[0] && text[4] == mm[1] && text[5] == ':');
    assert(text[6] == ss[0] && text[7] == ss[1] && text[8] == ' ');
}

/// Writes the local wall-clock reading as `HH:MM:SS D.M.Y`, for example
/// `09:05:00 3.7.2024`.
pub fn format_datetime(datetime: IODateTime) -> (s: String)
    ensures
        s@ == datetime_text(datetime),
{
    let utc = datetime.utc();
    let offset = datetime.offset();
    let utc_secs = utc.timestamp();
    let local_secs: i64 = utc_secs + offset as i64;
    let days: i64 = if local_secs >= 0 {
        local_secs / 86400
    } else {
        -((-local_secs - 1) / 86400) - 1
    };
    let sod: i64 = local_secs - days * 86400;
    assert(0 <= sod < 86400);
    proof {
        let local = datetime.local();
        let nanos = utc@ % nanos_per_sec();
        lemma_fundamental_div_mod_converse(utc@, nanos_per_sec(), utc_secs as int, nanos);
        lemma_fundamental_div_mod_converse(
            local,
            nanos_per_day(),
            days as int,
            sod * nanos_per_sec() + nanos,
        );
        lemma_fundamental_div_mod_converse(
            time_of_day(local),
            nanos_per_sec(),
            sod as int,
            nanos,
        );
    }
    let hour: u64 = (sod / 3600) as u64;
    let minute: u64 = (sod % 3600 / 60) as u64;
    let second: u64 = (sod % 60) as u64;
    let (year, month, day) = calendar_date(utc_secs, offset);
    proof {
        lemma_fundamental_div_mod_converse(local_secs as int, 86400, days as int, sod as int);
        lemma_calendar_date_of((year as int, month as int, day as int), days as int);
    }
    let mut s = String::new();
    push_zero_padded2(&mut s, hour);
    push_char(&mut s, ':');
    push_zero_padded2(&mut s, minute);
    push_char(&mut s, ':');
    push_zero_padded2(&mut s, second);
    push_char(&mut s, ' ');
    push_decimal(&mut s, day as u64);
    push_char(&mut s, '.');
    push_decimal(&mut s, month as u64);
    push_char(&mut s, '.');
    push_decimal_signed(&mut s, year as i64);
    proof {
        assert(s@ =~= datetime_text(datetime));
    }
    s
}

/// The text of an instant relative to `now`: `in ...` for an instant still to
/// come, `... ago` otherwise.
pub open spec fn relative_text(instant: int, now: int) -> Seq<char> {
    let delta = now - instant;
    if delta < 0 {
        "in "@ + timedelta_text(-delta)
    } else {
        timedelta_text(delta) + " ago"@
    }
}

/// Writes how far `datetime` lies from `now`, for example `in 2h` or `5m ago`.
pub fn format_relative_datetime(datetime: IODateTime, now: DateTime) -> (s: String)
    ensures
        s@ == relative_text(datetime.instant(), now@),
{
    let delta = now.signed_duration_since(&datetime.utc());
    if delta.is_negative() {
        let mut s = "in ".to_owned();
        let text = format_timedelta(delta.neg());
        s.append(text.as_str());
        s
    } else {
        let mut s = format_timedelta(delta);
        s.append(" ago");
        s
    }
}

} // verus!
