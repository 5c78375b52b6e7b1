//! Spans of time and their overlaps.

use vstd::prelude::*;
use crate::time::{datetime_in_range, DateTime, TimeDelta};

verus! {

/// The span of time from `begin` to `end`.
#[derive(Clone, Copy, Debug, PartialEq, Eq, Structural)]
pub struct Interval {
    pub begin: DateTime,
    pub end: DateTime,
}

/// The overlap of two intervals: from the later begin to the earlier end,
/// present when one interval begins within the other.
pub open spec fn overlap_of(a: Interval, b: Interval) -> Option<Interval> {
    if (a.begin@ <= b.begin@ && b.begin@ < a.end@) || (b.begin@ <= a.begin@ && a.begin@
        < b.end@) {
        Some(
            Interval {
                begin: if a.begin@ <= b.begin@ {
                    b.begin
                } else {
                    a.begin
                },
                end: if a.end@ <= b.end@ {
                    a.end
                } else {
                    b.end
                },
            },
        )
    } else {
        None
    }
}

/// `i` paired with its overlap with `a`, when they overlap.
pub open spec fn paired_overlap(a: Interval, i: Interval) -> Option<(Interval, Interval)> {
    match overlap_of(a, i) {
        Some(ol) => Some((i, ol)),
        None => None,
    }
}

/// Each interval of `others` that overlaps `a`, paired with the overlap, in order.
pub open spec fn overlaps_of(a: Interval, others: Seq<Interval>) -> Seq<(Interval, Interval)> {
    others.filter_map(|i: Interval| paired_overlap(a, i))
}

impl Interval {
    /// The interval from `begin` to `end`.
    pub fn new(begin: DateTime, end: DateTime) -> (r: Interval)
        ensures
            r == (Interval { begin, end }),
    {
        Interval { begin, end }
    }

    /// The interval that starts at `begin` and lasts `duration`; the end must
    /// be a representable instant.
    pub fn from_duration(begin: DateTime, duration: TimeDelta) -> (r: Interval)
        requires
            datetime_in_range(begin@ + duration@),
        ensures
            r.begin == begin,
            r.end@ == begin@ + duration@,
    {
        let end = begin.checked_add_signed(&duration).unwrap();
        Interval::new(begin, end)
    }

    /// The overlap between two intervals, if there is any.
    pub fn overlap(&self, other: Interval) -> (r: Option<Interval>)
        ensures
            r == overlap_of(*self, other),
    {
        let a_first = !other.begin.is_before(&self.begin);
        let b_first = !self.begin.is_before(&other.begin);
        if (a_first && other.begin.is_before(&self.end)) || (b_first && self.begin.is_before(
            &other.end,
        )) {
            let begin = if a_first {
                other.begin
            } else {
                self.begin
            };
            let end = if !other.end.is_before(&self.end) {
                self.end
            } else {
                other.end
            };
            Some(Interval::new(begin, end))
        } else {
            None
        }
    }

    /// Each interval of `others` that overlaps this one, paired with the
    /// overlap, in the order of `others`.
    pub fn overlaps(&self, others: Vec<Interval>) -> (r: Vec<(Interval, Interval)>)
        ensures
            r@ == overlaps_of(*self, others@),
    {
        let ghost f = |i: Interval| paired_overlap(*self, i);
        let mut r: Vec<(Interval, Interval)> = Vec::new();
        let mut k: usize = 0;
        while k < others.len()
            invariant
                k <= others@.len(),
                f == (|i: Interval| paired_overlap(*self, i)),
                r@ == others@.take(k as int).filter_map(f),
            decreases others@.len() - k,
        {
            let i = others[k];
            proof {
                others@.lemma_filter_map_take_succ(f, k as int);
            }
            match self.overlap(i) {
                Some(ol) => {
                    r.push((i, ol));
                },
                None => {},
            }
            k = k + 1;
        }
        proof {
            assert(others@.take(others@.len() as int) =~= others@);
        }
        r
    }
}

/// Whether two intervals overlap does not depend on their order, and the
/// overlap found either way spans the same time.
pub proof fn overlap_is_symmetric(a: Interval, b: Interval)
    ensures
        overlap_of(a, b) is Some <==> overlap_of(b, a) is Some,
        overlap_of(a, b) matches Some(x) ==> overlap_of(b, a) matches Some(y) && x.begin@
            == y.begin@ && x.end@ == y.end@,
{
}

/// The overlap begins no earlier than either interval and ends no later than
/// either.
pub proof fn overlap_lies_within_both(a: Interval, b: Interval)
    ensures
        overlap_of(a, b) matches Some(x) ==> {
            &&& a.begin@ <= x.begin@ && b.begin@ <= x.begin@
            &&& x.end@ <= a.end@ && x.end@ <= b.end@
        },
{
}

/// Two intervals that each begin before they end overlap exactly when the
/// later begin comes before the earlier end, and the overlap then runs from
/// the later begin to the earlier end. So an interval overlaps itself
/// entirely.
pub proof fn overlap_is_the_common_span(a: Interval, b: Interval)
    requires
        a.begin@ < a.end@,
        b.begin@ < b.end@,
    ensures
        ({
            let later_begin = if a.begin@ <= b.begin@ {
                b.begin@
            } else {
                a.begin@
            };
            let earlier_end = if a.end@ <= b.end@ {
                a.end@
            } else {
                b.end@
            };
            &&& overlap_of(a, b) is Some <==> later_begin < earlier_end
            &&& overlap_of(a, b) matches Some(x) ==> x.begin@ == later_begin && x.end@
                == earlier_end
        }),
        overlap_of(a, a) == Some(a),
{
}

} // verus!
