use tim::table::info_table;
use tim::time::{DateTime, TimeDelta};
use tim::Task;

fn at(secs: i64) -> DateTime {
    DateTime::from_timestamp(secs, 0).unwrap()
}

#[test]
fn a_table_pads_every_column_to_its_widest_cell() {
    let tasks = vec![Task::new("a"), Task::new("bb")];
    let lines = info_table(tasks, false, false);
    assert_eq!(
        lines,
        vec![
            "| Name | Deadline | Estimated duration | Scheduled start |",
            "| ---- | -------- | ------------------ | --------------- |",
            "| a    |    -     |         -          |        -        |",
            "| bb   |    -     |         -          |        -        |",
        ]
    );
}

#[test]
fn rows_come_in_order_of_deadline_and_share_one_width() {
    let mut due = Task::new("due");
    due.deadline = Some(at(1_704_067_200));
    let mut finished = Task::new("finished task");
    finished.finished_at = Some(at(0));
    let tasks = vec![due, Task::new("open"), finished];
    let lines = info_table(tasks, false, true);
    assert_eq!(lines.len(), 5);
    assert!(lines[0].starts_with("| Name          | Deadline                | "));
    assert!(lines[0].ends_with("| Started at | Finished at             |"));
    assert!(lines[2].starts_with("| open "));
    assert!(lines[3].starts_with("| finished task "));
    assert!(lines[4].starts_with("| due           | 2024-01-01 00:00:00 UTC |"));
    let width = lines[0].chars().count();
    assert!(lines.iter().all(|l| l.chars().count() == width));
}

#[test]
fn finished_tasks_can_be_left_out() {
    let mut finished = Task::new("finished task");
    finished.finished_at = Some(at(0));
    let lines = info_table(vec![Task::new("open"), finished], true, false);
    assert_eq!(lines.len(), 3);
    assert_eq!(lines[2], "| open |    -     |         -          |        -        |");
}

#[test]
fn durations_are_listed_in_iso_form() {
    let cell = |d: TimeDelta| {
        let mut t = Task::new("t");
        t.specified_duration = Some(d);
        let lines = info_table(vec![t], false, false);
        lines[2].split('|').nth(3).unwrap().trim().to_string()
    };
    assert_eq!(cell(TimeDelta::try_minutes(90).unwrap()), "PT5400S");
    assert_eq!(cell(TimeDelta::new(1, 500_000_000).unwrap()), "PT1.5S");
    assert_eq!(cell(TimeDelta::new(0, 1_000).unwrap()), "PT0.000001S");
    assert_eq!(cell(TimeDelta::new(-1, 750_000_000).unwrap()), "-PT0.25S");
    assert_eq!(cell(TimeDelta::zero()), "P0D");
}

#[test]
fn instants_are_listed_as_chrono_writes_them() {
    let cell = |t: DateTime| {
        let mut task = Task::new("t");
        task.deadline = Some(t);
        let lines = info_table(vec![task], false, false);
        lines[2].split('|').nth(2).unwrap().trim().to_string()
    };
    assert_eq!(cell(at(0)), "1970-01-01 00:00:00 UTC");
    assert_eq!(cell(DateTime::from_timestamp(0, 5_000_000).unwrap()), "1970-01-01 00:00:00.005 UTC");
    assert_eq!(cell(DateTime::from_timestamp(0, 1_500).unwrap()), "1970-01-01 00:00:00.000001500 UTC");
    assert_eq!(cell(DateTime::from_timestamp(59, 250_000).unwrap()), "1970-01-01 00:00:59.000250 UTC");
    assert_eq!(cell(at(-1)), "1969-12-31 23:59:59 UTC");
    assert_eq!(cell(at(-62_198_755_200)), "-0001-01-01 00:00:00 UTC");
    assert_eq!(cell(at(253_402_300_800)), "+10000-01-01 00:00:00 UTC");
    assert_eq!(cell(at(-8_334_601_228_800)), "-262143-01-01 00:00:00 UTC");
    assert_eq!(cell(DateTime::max_utc()), "+262142-12-31 23:59:59.999999999 UTC");
}
