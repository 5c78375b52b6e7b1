//! Time expressions such as `now`, `tomorrow+9:30` or `24.12.2024+2h`, and
//! their values.

use vstd::prelude::*;
use crate::text::{
    count_char,
    lemma_count_char_positive,
    lemma_split_on_count,
    contains_char,
    parse_usize,
    parse_usize_spec,
    split_char,
    split_on,
    str_eq,
    IntErrorKind,
};
use crate::time::{
    datetime_in_range,
    day_of,
    delta_in_range,
    max_days,
    nanos_per_day,
    nanos_per_hour,
    nanos_per_minute,
    nanos_per_sec,
    nanos_per_week,
    DateTime,
    NaiveDate,
    NaiveTime,
    TimeDelta,
};
use crate::util::combine_dt;

verus! {

broadcast use vstd::string::group_string_axioms;

// ---------------------------------------------------------------------------
// Calls into the outside crates
// ---------------------------------------------------------------------------

/// What `regex::Regex::new(pattern)` and then `captures(haystack)` give for
/// capture group `group`: `None` when the pattern does not compile,
/// `Some(None)` when there is no match, `Some(Some(None))` when the group
/// takes no part in the match, and otherwise the text the group matched.
pub uninterp spec fn regex_group(pattern: Seq<char>, haystack: Seq<char>, group: int) -> Option<
    Option<Option<Seq<char>>>,
>;

/// The views of the strings in a nested optional result.
pub open spec fn nested_view(r: Option<Option<Option<String>>>) -> Option<Option<Option<Seq<char>>>> {
    match r {
        None => None,
        Some(None) => Some(None),
        Some(Some(None)) => Some(Some(None)),
        Some(Some(Some(t))) => Some(Some(Some(t@))),
    }
}

/// Compiles `pattern` with `regex::Regex::new`, runs `Regex::captures` on
/// `haystack` and reads capture group `group` (`Captures::get`, then
/// `Match::as_str`). The contract names the result as a function of the three
/// arguments. Of the amount pattern it also states what the regex rules
/// plainly give: the pattern compiles and, every group being optional,
/// matches every text; its first group, `(\d+w)`, can only match text with a
/// `w` in it.
#[verifier::external_body]
fn regex_capture_group(pattern: &str, haystack: &str, group: usize) -> (r: Option<
    Option<Option<String>>,
>)
    ensures
        nested_view(r) == regex_group(pattern@, haystack@, group as int),
        pattern@ == time_amount_pattern() && group == 1 ==> r matches Some(Some(_)),
        pattern@ == time_amount_pattern() && group == 1 && !haystack@.contains('w') ==> r == Some(
            Some(None::<String>),
        ),
{
    let re = match regex::Regex::new(pattern) {
        Ok(re) => re,
        Err(_) => return None,
    };
    let caps = match re.captures(haystack) {
        Some(caps) => caps,
        None => return Some(None),
    };
    match caps.get(group) {
        Some(m) => Some(Some(Some(m.as_str().to_string()))),
        None => Some(Some(None)),
    }
}

/// The day (counted from 1970-01-01) that `chrono::NaiveDate::parse_from_str`
/// reads from `s` with the format `fmt`, or `None` where it fails.
pub uninterp spec fn parsed_date(s: Seq<char>, fmt: Seq<char>) -> Option<int>;

/// Reads a date with `chrono::NaiveDate::parse_from_str(s, fmt)`, then counts
/// its days from 1970-01-01 with `NaiveDate::to_epoch_days`. The contract
/// names the result as a function of both arguments; it states nothing else
/// of it.
#[verifier::external_body]
fn parse_date(s: &str, fmt: &str) -> (r: Option<NaiveDate>)
    ensures
        r matches Some(d) ==> parsed_date(s@, fmt@) == Some(d@),
        r is None ==> parsed_date(s@, fmt@) is None,
{
    match chrono::NaiveDate::parse_from_str(s, fmt) {
        Ok(d) => NaiveDate::from_epoch_days(d.to_epoch_days() as i64),
        Err(_) => None,
    }
}

// ---------------------------------------------------------------------------
// Errors
// ---------------------------------------------------------------------------

/// Why a time expression could not be read.
#[derive(Clone, Debug, PartialEq, Eq)]
pub enum ExprError {
    /// The text is no time delta (it holds the text).
    InvalidTimeDelta(String),
    /// A number in the expression could not be read.
    ParseInt(IntErrorKind),
}

/// An [`ExprError`] with its text as a sequence of characters.
pub enum ExprErrorView {
    InvalidTimeDelta(Seq<char>),
    ParseInt(IntErrorKind),
}

impl View for ExprError {
    type V = ExprErrorView;

    open spec fn view(&self) -> ExprErrorView {
        match self {
            ExprError::InvalidTimeDelta(s) => ExprErrorView::InvalidTimeDelta(s@),
            ExprError::ParseInt(k) => ExprErrorView::ParseInt(*k),
        }
    }
}

// ---------------------------------------------------------------------------
// Time deltas
// ---------------------------------------------------------------------------

/// A duration to add to an instant: a time of day `h:m` (read as that many
/// hours and minutes), or an amount of weeks, days, hours, minutes and seconds.
#[derive(Debug, PartialEq, Eq, Clone, Copy, Structural)]
pub enum TimeDeltaExpr {
    TimeOfDay { h: usize, m: usize },
    TimeAmount { w: usize, d: usize, h: usize, m: usize, s: usize },
}

/// The pattern by which an amount of time is read.
pub open spec fn time_amount_pattern() -> Seq<char> {
    "(\\d+w)?(\\d+d)?(\\d+h)?(\\d+m(?:in)?)?(\\d+s)?"@
}

/// The outcome of reading `s` as a time delta: `None` where reading it does
/// not return (it stops with a panic), otherwise the delta or the error.
///
/// Text with a `:` is `h:m`, each read as `usize::from_str` reads it (a
/// missing `m` reads as empty text). Other text is matched against
/// [`time_amount_pattern`], of which only the weeks group is consulted: when
/// it takes no part in the match the amount is all zeros; when it does, its
/// number is read and reading then stops (the days are looked for in the
/// weeks group, which does not end in `d`), so only an unreadable number of
/// weeks returns, as an error.
pub open spec fn delta_outcome(s: Seq<char>) -> Option<Result<TimeDeltaExpr, ExprErrorView>> {
    if s.contains(':') {
        let parts = split_on(s, ':');
        let m_text = if parts.len() > 1 {
            parts[1]
        } else {
            Seq::empty()
        };
        match parse_usize_spec(parts[0]) {
            Err(e) => Some(Err(ExprErrorView::ParseInt(e))),
            Ok(h) => match parse_usize_spec(m_text) {
                Err(e) => Some(Err(ExprErrorView::ParseInt(e))),
                Ok(m) => Some(Ok(TimeDeltaExpr::TimeOfDay { h: h as usize, m: m as usize })),
            },
        }
    } else {
        amount_outcome(s, regex_group(time_amount_pattern(), s, 1))
    }
}

/// The outcome of reading `s` as an amount of time, given what matching
/// [`time_amount_pattern`] against it gave for the weeks group (see
/// [`regex_group`]): `None` where reading stops with a panic.
pub open spec fn amount_outcome(s: Seq<char>, weeks: Option<Option<Option<Seq<char>>>>) -> Option<
    Result<TimeDeltaExpr, ExprErrorView>,
> {
    match weeks {
        None => None,
        Some(None) => Some(Err(ExprErrorView::InvalidTimeDelta(s))),
        Some(Some(None)) => Some(Ok(TimeDeltaExpr::TimeAmount { w: 0, d: 0, h: 0, m: 0, s: 0 })),
        Some(Some(Some(g))) => if g.len() > 0 && g.last() == 'w' {
            match parse_usize_spec(g.drop_last()) {
                Err(e) => Some(Err(ExprErrorView::ParseInt(e))),
                Ok(_) => None,
            }
        } else {
            None
        },
    }
}

/// The view of an optional parse result.
pub open spec fn outcome_view(r: Option<Result<TimeDeltaExpr, ExprError>>) -> Option<
    Result<TimeDeltaExpr, ExprErrorView>,
> {
    match r {
        None => None,
        Some(x) => Some(delta_result_view(x)),
    }
}

/// The view of a parse result.
pub open spec fn delta_result_view(r: Result<TimeDeltaExpr, ExprError>) -> Result<
    TimeDeltaExpr,
    ExprErrorView,
> {
    match r {
        Ok(d) => Ok(d),
        Err(e) => Err(e@),
    }
}

/// The value of `v` as Rust's `as i64` gives it from a `usize`.
pub open spec fn usize_as_i64(v: int) -> int {
    if v <= i64::MAX {
        v
    } else {
        v - 0x1_0000_0000_0000_0000
    }
}

/// A count of `unit` nanoseconds, when it is in range.
pub open spec fn units(count: int, unit: int) -> Option<int> {
    if delta_in_range(usize_as_i64(count) * unit) {
        Some(usize_as_i64(count) * unit)
    } else {
        None
    }
}

/// The sum of two durations, when both are present and the sum is in range.
pub open spec fn sum_delta(a: Option<int>, b: Option<int>) -> Option<int> {
    match (a, b) {
        (Some(x), Some(y)) => if delta_in_range(x + y) {
            Some(x + y)
        } else {
            None
        },
        _ => None,
    }
}

/// The duration of a time delta in nanoseconds, or `None` where computing it
/// overflows (and stops with a panic).
pub open spec fn delta_value(e: TimeDeltaExpr) -> Option<int> {
    match e {
        TimeDeltaExpr::TimeOfDay { h, m } => if h * 60 > usize::MAX || m + h * 60 > usize::MAX {
            None
        } else {
            units(m + h * 60, nanos_per_minute())
        },
        TimeDeltaExpr::TimeAmount { w, d, h, m, s } => sum_delta(
            sum_delta(
                sum_delta(
                    sum_delta(units(w as int, nanos_per_week()), units(d as int, nanos_per_day())),
                    units(h as int, nanos_per_hour()),
                ),
                units(m as int, nanos_per_minute()),
            ),
            units(s as int, nanos_per_sec()),
        ),
    }
}

fn usize_to_i64(v: usize) -> (r: i64)
    ensures
        r == usize_as_i64(v as int),
{
    if (v as u64) <= 9_223_372_036_854_775_807u64 {
        v as i64
    } else {
        assert(usize::MAX == 0xffff_ffff_ffff_ffff);
        -((usize::MAX - v) as i64) - 1
    }
}

fn add_opt(a: Option<TimeDelta>, b: Option<TimeDelta>) -> (r: Option<TimeDelta>)
    ensures
        r matches Some(x) ==> a is Some && b is Some,
        (match (a, b) {
            (Some(x), Some(y)) => sum_delta(Some(x@), Some(y@)),
            _ => None,
        }) == (match r {
            Some(x) => Some(x@),
            None => None::<int>,
        }),
{
    match (a, b) {
        (Some(x), Some(y)) => x.checked_add(&y),
        _ => None,
    }
}

/// The view of an optional duration.
pub open spec fn opt_view(a: Option<TimeDelta>) -> Option<int> {
    match a {
        Some(x) => Some(x@),
        None => None,
    }
}

/// Reads the amount of time `s`, given what matching the amount pattern
/// against `s` gave for its weeks group (see [`regex_group`]); `None` where
/// that reading stops with a panic.
pub fn time_amount_from_group(s: &str, weeks: Option<Option<Option<String>>>) -> (r: Option<
    Result<TimeDeltaExpr, ExprError>,
>)
    ensures
        outcome_view(r) == amount_outcome(s@, nested_view(weeks)),
{
    match weeks {
        None => None,
        Some(None) => Some(Err(ExprError::InvalidTimeDelta(s.to_owned()))),
        Some(Some(None)) => Some(Ok(TimeDeltaExpr::TimeAmount { w: 0, d: 0, h: 0, m: 0, s: 0 })),
        Some(Some(Some(g))) => {
            let n = g.unicode_len();
            if n == 0 || g.as_str().get_char(n - 1) != 'w' {
                return None;
            }
            let digits = g.as_str().substring_char(0, n - 1);
            proof {
                assert(digits@ =~= g@.drop_last());
            }
            match parse_usize(digits) {
                Err(e) => Some(Err(ExprError::ParseInt(e))),
                Ok(_) => None,
            }
        },
    }
}

impl TimeDeltaExpr {
    /// Reads a time delta: `h:m`, or an amount such as `2h`. Reading stops
    /// with a panic on some amounts (see [`delta_outcome`]); those are left
    /// out here, and [`TimeDeltaExpr::try_from_str`] reports them.
    pub fn from_str(s: &str) -> (r: Result<TimeDeltaExpr, ExprError>)
        requires
            delta_outcome(s@) is Some,
        ensures
            delta_outcome(s@) == Some(delta_result_view(r)),
    {
        if contains_char(s, ':') {
            let parts = split_char(s, ':');
            let h = match parse_usize(parts[0].as_str()) {
                Ok(h) => h,
                Err(e) => {
                    return Err(ExprError::ParseInt(e));
                },
            };
            let empty = String::new();
            let m_text = if parts.len() > 1 {
                &parts[1]
            } else {
                &empty
            };
            let m = match parse_usize(m_text.as_str()) {
                Ok(m) => m,
                Err(e) => {
                    return Err(ExprError::ParseInt(e));
                },
            };
            Ok(TimeDeltaExpr::TimeOfDay { h, m })
        } else {
            let weeks = regex_capture_group(
                "(\\d+w)?(\\d+d)?(\\d+h)?(\\d+m(?:in)?)?(\\d+s)?",
                s,
                1,
            );
            match time_amount_from_group(s, weeks) {
                Some(r) => r,
                None => {
                    proof {
                        assert(false);
                    }
                    Err(ExprError::InvalidTimeDelta(s.to_owned()))
                },
            }
        }
    }

    /// Reads a time delta as [`TimeDeltaExpr::from_str`] does, or returns
    /// `None` where that reading stops with a panic.
    pub fn try_from_str(s: &str) -> (r: Option<Result<TimeDeltaExpr, ExprError>>)
        ensures
            r is None <==> delta_outcome(s@) is None,
            r matches Some(x) ==> delta_outcome(s@) == Some(delta_result_view(x)),
            !s@.contains(':') && !s@.contains('w') ==> r == Some(
                Ok::<TimeDeltaExpr, ExprError>(
                    TimeDeltaExpr::TimeAmount { w: 0, d: 0, h: 0, m: 0, s: 0 },
                ),
            ),
    {
        if !contains_char(s, ':') {
            let weeks = regex_capture_group(
                "(\\d+w)?(\\d+d)?(\\d+h)?(\\d+m(?:in)?)?(\\d+s)?",
                s,
                1,
            );
            return time_amount_from_group(s, weeks);
        }
        Some(TimeDeltaExpr::from_str(s))
    }

    /// The duration, or `None` where computing it overflows.
    pub fn try_eval(&self) -> (r: Option<TimeDelta>)
        ensures
            opt_view(r) == delta_value(*self),
    {
        match self {
            TimeDeltaExpr::TimeOfDay { h, m } => {
                let hm = match h.checked_mul(60) {
                    Some(x) => x,
                    None => {
                        return None;
                    },
                };
                let total = match m.checked_add(hm) {
                    Some(x) => x,
                    None => {
                        return None;
                    },
                };
                TimeDelta::try_minutes(usize_to_i64(total))
            },
            TimeDeltaExpr::TimeAmount { w, d, h, m, s } => {
                let weeks = TimeDelta::try_weeks(usize_to_i64(*w));
                let days = TimeDelta::try_days(usize_to_i64(*d));
                let a = add_opt(weeks, days);
                let hours = TimeDelta::try_hours(usize_to_i64(*h));
                let b = add_opt(a, hours);
                let minutes = TimeDelta::try_minutes(usize_to_i64(*m));
                let c = add_opt(b, minutes);
                let seconds = TimeDelta::try_seconds(usize_to_i64(*s));
                add_opt(c, seconds)
            },
        }
    }

    /// The duration; computing it must not overflow.
    pub fn eval(&self) -> (r: TimeDelta)
        requires
            delta_value(*self) is Some,
        ensures
            Some(r@) == delta_value(*self),
    {
        self.try_eval().unwrap()
    }
}

// ---------------------------------------------------------------------------
// Time expressions
// ---------------------------------------------------------------------------

/// An instant: the current one, the start of today or of tomorrow, the start
/// of a given date, or another expression with durations added.
#[derive(Debug, PartialEq, Eq)]
pub enum TimeExpr {
    Now,
    /// "Date expressions" are always datetime expressions with time of day 00:00.
    Today,
    Tomorrow,
    Date(NaiveDate),
    Add(Box<TimeExpr>, Vec<TimeDeltaExpr>),
}

/// A [`TimeExpr`] with its date as a day count and its deltas as a sequence.
pub enum TimeExprView {
    Now,
    Today,
    Tomorrow,
    Date(int),
    Add(Box<TimeExprView>, Seq<TimeDeltaExpr>),
}

/// The view of a time expression.
pub open spec fn expr_view(e: TimeExpr) -> TimeExprView
    decreases e,
{
    match e {
        TimeExpr::Now => TimeExprView::Now,
        TimeExpr::Today => TimeExprView::Today,
        TimeExpr::Tomorrow => TimeExprView::Tomorrow,
        TimeExpr::Date(d) => TimeExprView::Date(d@),
        TimeExpr::Add(t, ds) => TimeExprView::Add(Box::new(expr_view(*t)), ds@),
    }
}

/// The format of a literal date, such as `24.12.2024`.
pub open spec fn date_format() -> Seq<char> {
    "%d.%m.%Y"@
}

/// The expression that `s` names by itself: a keyword or a literal date.
pub open spec fn simple_expr(s: Seq<char>) -> Option<TimeExprView> {
    if s == "now"@ {
        Some(TimeExprView::Now)
    } else if s == "today"@ {
        Some(TimeExprView::Today)
    } else if s == "tmr"@ || s == "tomorrow"@ {
        Some(TimeExprView::Tomorrow)
    } else {
        match parsed_date(s, date_format()) {
            Some(d) => Some(TimeExprView::Date(d)),
            None => None,
        }
    }
}

/// The outcome of reading the deltas `texts` from left to right, stopping at
/// the first that fails: `None` where a reading does not return.
pub open spec fn deltas_outcome(texts: Seq<Seq<char>>) -> Option<
    Result<Seq<TimeDeltaExpr>, ExprErrorView>,
>
    decreases texts.len(),
{
    if texts.len() == 0 {
        Some(Ok(Seq::empty()))
    } else {
        match delta_outcome(texts[0]) {
            None => None,
            Some(Err(e)) => Some(Err(e)),
            Some(Ok(d)) => match deltas_outcome(texts.drop_first()) {
                None => None,
                Some(Err(e)) => Some(Err(e)),
                Some(Ok(ds)) => Some(Ok(seq![d] + ds)),
            },
        }
    }
}

/// The outcome `o` of reading some deltas, after `p` were read before them.
pub open spec fn prepend_deltas(
    p: Seq<TimeDeltaExpr>,
    o: Option<Result<Seq<TimeDeltaExpr>, ExprErrorView>>,
) -> Option<Result<Seq<TimeDeltaExpr>, ExprErrorView>> {
    match o {
        None => None,
        Some(Err(e)) => Some(Err(e)),
        Some(Ok(ds)) => Some(Ok(p + ds)),
    }
}

/// The outcome of reading `s` as a time expression: `None` where reading it
/// does not return.
///
/// A keyword (`now`, `today`, `tmr`, `tomorrow`) or a literal date stands for
/// itself. Otherwise the text is split at each `+`; the pieces after the
/// first are read as deltas, left to right, and an error among them is the
/// result. The first piece must then be a keyword or a date (any other first
/// piece is read again and again without end); with no deltas it is the
/// result, else the sum of it and the deltas.
pub open spec fn expr_outcome(s: Seq<char>) -> Option<Result<TimeExprView, ExprErrorView>> {
    match simple_expr(s) {
        Some(e) => Some(Ok(e)),
        None => {
            let parts = split_on(s, '+');
            match deltas_outcome(parts.drop_first()) {
                None => None,
                Some(Err(e)) => Some(Err(e)),
                Some(Ok(ds)) => match simple_expr(parts[0]) {
                    None => None,
                    Some(anchor) => if ds.len() == 0 {
                        Some(Ok(anchor))
                    } else {
                        Some(Ok(TimeExprView::Add(Box::new(anchor), ds)))
                    },
                },
            }
        },
    }
}

/// The view of a parse result.
pub open spec fn expr_result_view(r: Result<TimeExpr, ExprError>) -> Result<
    TimeExprView,
    ExprErrorView,
> {
    match r {
        Ok(e) => Ok(expr_view(e)),
        Err(e) => Err(e@),
    }
}

/// The instant `now + d`, when it is representable.
pub open spec fn add_delta(t: Option<int>, d: TimeDeltaExpr) -> Option<int> {
    match (t, delta_value(d)) {
        (Some(x), Some(y)) => if datetime_in_range(x + y) {
            Some(x + y)
        } else {
            None
        },
        _ => None,
    }
}

/// Adds the deltas `ds` to `t` in order.
pub open spec fn add_deltas(t: Option<int>, ds: Seq<TimeDeltaExpr>) -> Option<int>
    decreases ds.len(),
{
    if ds.len() == 0 {
        t
    } else {
        add_delta(add_deltas(t, ds.drop_last()), ds.last())
    }
}

/// The instant an expression stands for when the current instant is `now`,
/// or `None` where computing it leaves the representable range (and stops
/// with a panic).
pub open spec fn expr_value(e: TimeExprView, now: int) -> Option<int>
    decreases e,
{
    match e {
        TimeExprView::Now => Some(now),
        TimeExprView::Today => Some(day_of(now) * nanos_per_day()),
        TimeExprView::Tomorrow => if day_of(now) < max_days() {
            Some((day_of(now) + 1) * nanos_per_day())
        } else {
            None
        },
        TimeExprView::Date(d) => Some(d * nanos_per_day()),
        TimeExprView::Add(t, ds) => add_deltas(expr_value(*t, now), ds),
    }
}

/// The view of an optional instant.
pub open spec fn instant_view(a: Option<DateTime>) -> Option<int> {
    match a {
        Some(x) => Some(x@),
        None => None,
    }
}

impl TimeExpr {
    /// Reads a keyword or a literal date.
    fn simple_from_str(s: &str) -> (r: Option<TimeExpr>)
        ensures
            match r {
                Some(e) => simple_expr(s@) == Some(expr_view(e)),
                None => simple_expr(s@) is None,
            },
    {
        if str_eq(s, "now") {
            Some(TimeExpr::Now)
        } else if str_eq(s, "today") {
            Some(TimeExpr::Today)
        } else if str_eq(s, "tmr") || str_eq(s, "tomorrow") {
            Some(TimeExpr::Tomorrow)
        } else {
            match parse_date(s, "%d.%m.%Y") {
                Some(d) => Some(TimeExpr::Date(d)),
                None => None,
            }
        }
    }

    /// Reads a time expression, such as `now`, `tmr+9:00` or `1.4.2025+2h`.
    /// Reading stops with a panic, or does not end, on some texts (see
    /// [`expr_outcome`]); those are left out here, and
    /// [`TimeExpr::try_from_str`] reports them.
    pub fn from_str(s: &str) -> (r: Result<TimeExpr, ExprError>)
        requires
            expr_outcome(s@) is Some,
        ensures
            expr_outcome(s@) == Some(expr_result_view(r)),
    {
        match TimeExpr::simple_from_str(s) {
            Some(e) => Ok(e),
            None => {
                let parts = split_char(s, '+');
                let ghost texts = split_on(s@, '+');
                proof {
                    assert(texts.subrange(1, texts.len() as int) =~= texts.drop_first());
                    assert(deltas_outcome(texts.drop_first()) == prepend_deltas(
                        Seq::empty(),
                        deltas_outcome(texts.drop_first()),
                    )) by {
                        match deltas_outcome(texts.drop_first()) {
                            Some(Ok(ds)) => {
                                assert(Seq::<TimeDeltaExpr>::empty() + ds =~= ds);
                            },
                            _ => {},
                        }
                    }
                }
                let mut deltas: Vec<TimeDeltaExpr> = Vec::new();
                let mut k: usize = 1;
                while k < parts.len()
                    invariant
                        1 <= k <= parts@.len(),
                        parts@.len() == texts.len(),
                        forall|j: int| 0 <= j < parts@.len() ==> #[trigger] parts@[j]@ == texts[j],
                        simple_expr(s@) is None,
                        texts == split_on(s@, '+'),
                        expr_outcome(s@) is Some,
                        deltas_outcome(texts.drop_first()) is Some,
                        deltas_outcome(texts.drop_first()) == prepend_deltas(
                            deltas@,
                            deltas_outcome(texts.subrange(k as int, texts.len() as int)),
                        ),
                    decreases parts@.len() - k,
                {
                    let ghost rest = texts.subrange(k as int, texts.len() as int);
                    assert(rest[0] == parts@[k as int]@);
                    assert(rest.drop_first() =~= texts.subrange(k + 1, texts.len() as int));
                    let ghost prev = deltas@;
                    let ghost here = deltas_outcome(rest);
                    assert(here == match delta_outcome(rest[0]) {
                        None => None,
                        Some(Err(e)) => Some(Err(e)),
                        Some(Ok(d)) => match deltas_outcome(rest.drop_first()) {
                            None => None,
                            Some(Err(e)) => Some(Err(e)),
                            Some(Ok(ds)) => Some(Ok(seq![d] + ds)),
                        },
                    });
                    let d = match TimeDeltaExpr::from_str(parts[k].as_str()) {
                        Ok(d) => d,
                        Err(e) => {
                            proof {
                                assert(here == Some(Err::<Seq<TimeDeltaExpr>, ExprErrorView>(e@)));
                                assert(deltas_outcome(texts.drop_first()) == Some(
                                    Err::<Seq<TimeDeltaExpr>, ExprErrorView>(e@),
                                ));
                                assert(simple_expr(s@) is None);
                            }
                            return Err(e);
                        },
                    };
                    deltas.push(d);
                    k = k + 1;
                    proof {
                        let next = deltas_outcome(texts.subrange(k as int, texts.len() as int));
                        match next {
                            Some(Ok(ds)) => {
                                assert(prev + (seq![d] + ds) =~= deltas@ + ds);
                            },
                            _ => {},
                        }
                    }
                }
                proof {
                    assert(texts.subrange(k as int, texts.len() as int).len() == 0);
                    assert(deltas@ + Seq::<TimeDeltaExpr>::empty() =~= deltas@);
                }
                match TimeExpr::simple_from_str(parts[0].as_str()) {
                    Some(anchor) => if deltas.len() == 0 {
                        Ok(anchor)
                    } else {
                        Ok(TimeExpr::Add(Box::new(anchor), deltas))
                    },
                    None => {
                        proof {
                            assert(false);
                        }
                        Ok(TimeExpr::Now)
                    },
                }
            },
        }
    }

    /// Reads a time expression as [`TimeExpr::from_str`] does, or returns
    /// `None` where that reading stops with a panic or does not end.
    pub fn try_from_str(s: &str) -> (r: Option<Result<TimeExpr, ExprError>>)
        ensures
            r is None <==> expr_outcome(s@) is None,
            r matches Some(x) ==> expr_outcome(s@) == Some(expr_result_view(x)),
    {
        if TimeExpr::simple_from_str(s).is_some() {
            return Some(TimeExpr::from_str(s));
        }
        let parts = split_char(s, '+');
        let ghost texts = split_on(s@, '+');
        let ghost mut prefix: Seq<TimeDeltaExpr> = Seq::empty();
        proof {
            assert(texts.subrange(1, texts.len() as int) =~= texts.drop_first());
            match deltas_outcome(texts.drop_first()) {
                Some(Ok(ds)) => {
                    assert(Seq::<TimeDeltaExpr>::empty() + ds =~= ds);
                },
                _ => {},
            }
        }
        let mut k: usize = 1;
        while k < parts.len()
            invariant
                1 <= k <= parts@.len(),
                parts@.len() == texts.len(),
                texts == split_on(s@, '+'),
                forall|j: int| 0 <= j < parts@.len() ==> #[trigger] parts@[j]@ == texts[j],
                simple_expr(s@) is None,
                deltas_outcome(texts.drop_first()) == prepend_deltas(
                    prefix,
                    deltas_outcome(texts.subrange(k as int, texts.len() as int)),
                ),
            decreases parts@.len() - k,
        {
            let ghost rest = texts.subrange(k as int, texts.len() as int);
            assert(rest[0] == parts@[k as int]@);
            assert(rest.drop_first() =~= texts.subrange(k + 1, texts.len() as int));
            match TimeDeltaExpr::try_from_str(parts[k].as_str()) {
                None => {
                    return None;
                },
                Some(Err(_)) => {
                    return Some(TimeExpr::from_str(s));
                },
                Some(Ok(d)) => {
                    proof {
                        let next = deltas_outcome(texts.subrange(k + 1, texts.len() as int));
                        match next {
                            Some(Ok(ds)) => {
                                assert(prefix + (seq![d] + ds) =~= prefix.push(d) + ds);
                            },
                            _ => {},
                        }
                        prefix = prefix.push(d);
                    }
                },
            }
            k = k + 1;
        }
        proof {
            assert(texts.subrange(k as int, texts.len() as int).len() == 0);
            assert(prefix + Seq::<TimeDeltaExpr>::empty() =~= prefix);
        }
        if TimeExpr::simple_from_str(parts[0].as_str()).is_none() {
            return None;
        }
        Some(TimeExpr::from_str(s))
    }
    /// The instant this expression stands for when the current instant is
    /// `now`, or `None` where computing it leaves the representable range.
    pub fn try_eval(&self, now: DateTime) -> (r: Option<DateTime>)
        ensures
            instant_view(r) == expr_value(expr_view(*self), now@),
        decreases self,
    {
        match self {
            TimeExpr::Now => Some(now),
            TimeExpr::Today => Some(combine_dt(now.date_naive(), NaiveTime::midnight())),
            TimeExpr::Tomorrow => match now.date_naive().succ_opt() {
                Some(next) => Some(combine_dt(next, NaiveTime::midnight())),
                None => None,
            },
            TimeExpr::Date(d) => Some(combine_dt(*d, NaiveTime::midnight())),
            TimeExpr::Add(t, ds) => {
                let mut acc = t.try_eval(now);
                let ghost start = expr_value(expr_view(**t), now@);
                let mut k: usize = 0;
                while k < ds.len()
                    invariant
                        k <= ds@.len(),
                        instant_view(acc) == add_deltas(start, ds@.take(k as int)),
                    decreases ds@.len() - k,
                {
                    proof {
                        assert(ds@.take(k + 1).drop_last() =~= ds@.take(k as int));
                        assert(ds@.take(k + 1).last() == ds@[k as int]);
                    }
                    acc = match (acc, ds[k].try_eval()) {
                        (Some(x), Some(y)) => x.checked_add_signed(&y),
                        _ => None,
                    };
                    k = k + 1;
                }
                proof {
                    assert(ds@.take(ds@.len() as int) =~= ds@);
                }
                acc
            },
        }
    }

    /// The instant this expression stands for when the current instant is
    /// `now`; it must lie in the representable range.
    pub fn eval(&self, now: DateTime) -> (r: DateTime)
        requires
            expr_value(expr_view(*self), now@) is Some,
        ensures
            Some(r@) == expr_value(expr_view(*self), now@),
    {
        self.try_eval(now).unwrap()
    }
}

/// "Date expressions" (`today`, `tomorrow` and a literal date) stand for an
/// instant at 00:00.
pub proof fn date_expressions_fall_at_midnight(e: TimeExprView, now: int)
    requires
        e is Today || e is Tomorrow || e is Date,
    ensures
        expr_value(e, now) matches Some(v) ==> crate::time::time_of_day(v) == 0,
{
    match expr_value(e, now) {
        Some(v) => {
            match e {
                TimeExprView::Today => {
                    vstd::arithmetic::div_mod::lemma_fundamental_div_mod_converse(
                        v,
                        nanos_per_day(),
                        day_of(now),
                        0,
                    );
                },
                TimeExprView::Tomorrow => {
                    vstd::arithmetic::div_mod::lemma_fundamental_div_mod_converse(
                        v,
                        nanos_per_day(),
                        day_of(now) + 1,
                        0,
                    );
                },
                TimeExprView::Date(d) => {
                    vstd::arithmetic::div_mod::lemma_fundamental_div_mod_converse(
                        v,
                        nanos_per_day(),
                        d,
                        0,
                    );
                },
                _ => {},
            }
        },
        None => {},
    }
}

/// Reading deltas that all read gives one delta per text, each the reading
/// of its text.
proof fn lemma_deltas_outcome(texts: Seq<Seq<char>>)
    ensures
        deltas_outcome(texts) matches Some(Ok(ds)) ==> {
            &&& ds.len() == texts.len()
            &&& forall|i: int|
                0 <= i < ds.len() ==> delta_outcome(#[trigger] texts[i]) == Some(
                    Ok::<TimeDeltaExpr, ExprErrorView>(ds[i]),
                )
        },
    decreases texts.len(),
{
    if texts.len() > 0 {
        lemma_deltas_outcome(texts.drop_first());
        match deltas_outcome(texts) {
            Some(Ok(ds)) => {
                let rest = deltas_outcome(texts.drop_first())->Some_0->Ok_0;
                assert forall|i: int| 0 <= i < ds.len() implies delta_outcome(
                    #[trigger] texts[i],
                ) == Some(Ok::<TimeDeltaExpr, ExprErrorView>(ds[i])) by {
                    if i > 0 {
                        assert(texts[i] == texts.drop_first()[i - 1]);
                        assert(ds[i] == rest[i - 1]);
                    }
                }
            },
            _ => {},
        }
    }
}

/// A text with `+` that is neither a keyword nor a literal date, and that
/// reads, reads as its first piece (a keyword or a literal date, never itself
/// a sum) plus one delta for each `+`: the pieces after the first, read in
/// order.
pub proof fn sums_read_piece_by_piece(s: Seq<char>)
    requires
        expr_outcome(s) matches Some(Ok(_)),
        simple_expr(s) is None,
        s.contains('+'),
    ensures
        expr_outcome(s) matches Some(Ok(e)) && {
            let parts = split_on(s, '+');
            &&& e matches TimeExprView::Add(anchor, ds)
            &&& simple_expr(parts[0]) == Some(*anchor)
            &&& !(*anchor is Add)
            &&& ds.len() == count_char(s, '+')
            &&& parts.len() == ds.len() + 1
            &&& forall|i: int|
                0 <= i < ds.len() ==> delta_outcome(#[trigger] parts[i + 1]) == Some(
                    Ok::<TimeDeltaExpr, ExprErrorView>(ds[i]),
                )
        },
{
    let parts = split_on(s, '+');
    let i = choose|i: int| 0 <= i < s.len() && s[i] == '+';
    lemma_count_char_positive(s, '+', i);
    lemma_split_on_count(s, '+');
    lemma_deltas_outcome(parts.drop_first());
    let ds = deltas_outcome(parts.drop_first())->Some_0->Ok_0;
    assert(ds.len() >= 1);
    assert forall|i: int| 0 <= i < ds.len() implies delta_outcome(#[trigger] parts[i + 1])
        == Some(Ok::<TimeDeltaExpr, ExprErrorView>(ds[i])) by {
        assert(parts[i + 1] == parts.drop_first()[i]);
    }
}

/// `now` stands for the current instant; `today` for 00:00 of the current
/// day, at or before now and less than a day before it; `tomorrow`, where it
/// is representable, for a day after `today`.
pub proof fn keywords_bracket_now(now: int)
    ensures
        expr_value(TimeExprView::Now, now) == Some(now),
        expr_value(TimeExprView::Today, now) matches Some(t) && t <= now < t + nanos_per_day() && (
        expr_value(TimeExprView::Tomorrow, now) matches Some(u) ==> u == t + nanos_per_day()),
{
    vstd::arithmetic::div_mod::lemma_fundamental_div_mod(now, nanos_per_day());
}

/// The total of the durations of `ds` (those that overflow counted as none).
pub open spec fn deltas_total(ds: Seq<TimeDeltaExpr>) -> int
    decreases ds.len(),
{
    if ds.len() == 0 {
        0
    } else {
        deltas_total(ds.drop_last()) + match delta_value(ds.last()) {
            Some(v) => v,
            None => 0,
        }
    }
}

proof fn lemma_add_deltas(t: Option<int>, ds: Seq<TimeDeltaExpr>)
    ensures
        add_deltas(t, ds) matches Some(v) ==> {
            &&& t matches Some(b) && v == b + deltas_total(ds)
            &&& forall|i: int| 0 <= i < ds.len() ==> delta_value(#[trigger] ds[i]) is Some
        },
    decreases ds.len(),
{
    if ds.len() > 0 {
        lemma_add_deltas(t, ds.drop_last());
        if add_deltas(t, ds) is Some {
            assert forall|i: int| 0 <= i < ds.len() implies delta_value(#[trigger] ds[i]) is Some by {
                if i < ds.len() - 1 {
                    assert(ds[i] == ds.drop_last()[i]);
                }
            }
        }
    }
}

/// An expression with deltas stands for the instant its anchor stands for,
/// later by the total of the deltas' durations, where none of them overflows.
pub proof fn sums_add_their_deltas(anchor: TimeExprView, ds: Seq<TimeDeltaExpr>, now: int)
    ensures
        expr_value(TimeExprView::Add(Box::new(anchor), ds), now) matches Some(v) ==> {
            &&& expr_value(anchor, now) matches Some(b) && v == b + deltas_total(ds)
            &&& forall|i: int| 0 <= i < ds.len() ==> delta_value(#[trigger] ds[i]) is Some
        },
{
    lemma_add_deltas(expr_value(anchor, now), ds);
}

/// An amount of weeks, days, hours, minutes and seconds lasts
/// 604800 w + 86400 d + 3600 h + 60 m + s seconds, whenever that fits in a
/// duration (and nothing can be computed when it does not).
pub proof fn amounts_count_their_units(w: usize, d: usize, h: usize, m: usize, s: usize)
    requires
        w <= i64::MAX,
        d <= i64::MAX,
        h <= i64::MAX,
        m <= i64::MAX,
        s <= i64::MAX,
    ensures
        ({
            let total = (604800 * w + 86400 * d + 3600 * h + 60 * m + s) * 1_000_000_000;
            delta_value(TimeDeltaExpr::TimeAmount { w, d, h, m, s }) == if total
                <= 9_223_372_036_854_775_807_000_000 {
                Some(total)
            } else {
                None
            }
        }),
{
}

/// A time of day `h:m` lasts 60 h + m minutes, whenever that fits in a
/// duration (and nothing can be computed when it does not).
pub proof fn times_of_day_count_minutes(h: usize, m: usize)
    requires
        60 * h + m <= usize::MAX,
        60 * h + m <= i64::MAX,
    ensures
        ({
            let total = (60 * h + m) * 60_000_000_000;
            delta_value(TimeDeltaExpr::TimeOfDay { h, m }) == if total
                <= 9_223_372_036_854_775_807_000_000 {
                Some(total)
            } else {
                None
            }
        }),
{
}

} // verus!
