use tim::interval::Interval;
use tim::time::{DateTime, TimeDelta};

fn at(secs: i64) -> DateTime {
    DateTime::from_timestamp(secs, 0).unwrap()
}

fn iv(a: i64, b: i64) -> Interval {
    Interval::new(at(a), at(b))
}

#[test]
fn partly_overlapping_intervals_share_the_middle() {
    assert_eq!(iv(0, 10).overlap(iv(5, 15)), Some(iv(5, 10)));
    assert_eq!(iv(5, 15).overlap(iv(0, 10)), Some(iv(5, 10)));
}

#[test]
fn an_interval_inside_another_is_their_overlap() {
    assert_eq!(iv(0, 10).overlap(iv(2, 4)), Some(iv(2, 4)));
    assert_eq!(iv(2, 4).overlap(iv(0, 10)), Some(iv(2, 4)));
}

#[test]
fn touching_or_separate_intervals_do_not_overlap() {
    assert_eq!(iv(0, 10).overlap(iv(10, 20)), None);
    assert_eq!(iv(10, 20).overlap(iv(0, 10)), None);
    assert_eq!(iv(0, 1).overlap(iv(5, 6)), None);
}

#[test]
fn overlaps_pairs_each_overlapping_interval_with_its_overlap() {
    let others = vec![iv(0, 3), iv(20, 30), iv(8, 12), iv(12, 14)];
    assert_eq!(
        iv(2, 12).overlaps(others),
        vec![(iv(0, 3), iv(2, 3)), (iv(8, 12), iv(8, 12))]
    );
}

#[test]
fn an_interval_from_a_duration_ends_that_much_later() {
    let i = Interval::from_duration(at(100), TimeDelta::try_minutes(2).unwrap());
    assert_eq!(i, iv(100, 220));
}
