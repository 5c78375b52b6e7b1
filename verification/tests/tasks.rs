use tim::expr::{TimeDeltaExpr, TimeExpr};
use tim::time::{DateTime, TimeDelta};
use tim::{schedule_tasks, try_schedule_tasks_at, ScheduleError, Task};

const MIDNIGHT: i64 = 1_704_067_200; // 2024-01-01 00:00:00 UTC
const HOUR: i64 = 3600;
const DAY: i64 = 86400;

fn at(secs: i64) -> DateTime {
    DateTime::from_timestamp(secs, 0).unwrap()
}

fn task(name: &str, deadline: Option<i64>, minutes: Option<i64>) -> Task {
    let mut t = Task::new(name);
    t.deadline = deadline.map(at);
    t.specified_duration = minutes.map(|m| TimeDelta::try_minutes(m).unwrap());
    t
}

fn starts(tasks: &[Task]) -> Vec<(String, i64)> {
    tasks
        .iter()
        .map(|t| (t.name.clone(), t.scheduled_start.unwrap().timestamp()))
        .collect()
}

fn sample() -> Vec<Task> {
    let mut done = task("done", Some(MIDNIGHT), None);
    done.finished_at = Some(at(MIDNIGHT - DAY));
    vec![
        task("a", Some(MIDNIGHT + 3 * DAY), Some(120)),
        task("b", Some(MIDNIGHT + DAY), None),
        done,
        task("c", None, Some(30)),
    ]
}

#[test]
fn a_new_task_has_only_a_name() {
    let t = Task::new("write report");
    assert_eq!(t.name, "write report");
    assert!(t.deadline.is_none() && t.specified_duration.is_none());
    assert!(t.scheduled_start.is_none() && t.started_at.is_none() && t.finished_at.is_none());
    assert_eq!(t.file_name(), "write report.json");
}

#[test]
fn a_task_lasts_an_hour_unless_told_otherwise() {
    let t = Task::new("x");
    assert_eq!(t.estimated_duration(), TimeDelta::try_hours(1).unwrap());
    let t = task("y", None, Some(25));
    assert_eq!(t.estimated_duration(), TimeDelta::try_minutes(25).unwrap());
}

#[test]
fn a_scheduled_task_ends_after_its_duration() {
    let mut t = task("y", None, Some(25));
    assert_eq!(t.scheduled_end(), None);
    t.scheduled_start = Some(at(MIDNIGHT));
    assert_eq!(t.scheduled_end(), Some(at(MIDNIGHT + 25 * 60)));
}

#[test]
fn tasks_are_scheduled_by_deadline_from_nine() {
    let out = try_schedule_tasks_at(sample(), at(MIDNIGHT + 8 * HOUR)).unwrap().unwrap();
    assert_eq!(
        starts(&out),
        vec![
            ("b".to_string(), MIDNIGHT + 9 * HOUR),
            ("a".to_string(), MIDNIGHT + 10 * HOUR),
            ("c".to_string(), MIDNIGHT + 12 * HOUR),
        ]
    );
    assert_eq!(out[1].deadline, Some(at(MIDNIGHT + 3 * DAY)));
}

#[test]
fn a_task_that_would_run_past_six_moves_to_the_next_morning() {
    let out = try_schedule_tasks_at(sample(), at(MIDNIGHT + 17 * HOUR)).unwrap().unwrap();
    assert_eq!(
        starts(&out),
        vec![
            ("b".to_string(), MIDNIGHT + 17 * HOUR),
            ("a".to_string(), MIDNIGHT + DAY + 9 * HOUR),
            ("c".to_string(), MIDNIGHT + DAY + 11 * HOUR),
        ]
    );
}

#[test]
fn scheduling_continues_after_the_task_in_progress() {
    let mut tasks = sample();
    let mut busy = task("busy", None, Some(180));
    busy.started_at = Some(at(MIDNIGHT + 7 * HOUR));
    tasks.push(busy);
    let out = try_schedule_tasks_at(tasks, at(MIDNIGHT)).unwrap().unwrap();
    assert_eq!(
        starts(&out),
        vec![
            ("b".to_string(), MIDNIGHT + 10 * HOUR),
            ("a".to_string(), MIDNIGHT + 11 * HOUR),
            ("c".to_string(), MIDNIGHT + 13 * HOUR),
        ]
    );
}

#[test]
fn two_tasks_in_progress_are_refused() {
    let mut tasks = sample();
    tasks[0].started_at = Some(at(MIDNIGHT));
    tasks[1].started_at = Some(at(MIDNIGHT));
    assert_eq!(
        try_schedule_tasks_at(tasks, at(MIDNIGHT)),
        Some(Err(ScheduleError::SeveralInProgress))
    );
    // A finished task does not count as in progress.
    let mut tasks = sample();
    tasks[2].started_at = Some(at(MIDNIGHT - 2 * DAY));
    assert!(matches!(try_schedule_tasks_at(tasks, at(MIDNIGHT)), Some(Ok(_))));
}

#[test]
fn equal_deadlines_keep_their_order() {
    let tasks = vec![task("x", None, None), task("y", None, None), task("z", Some(MIDNIGHT), None)];
    let out = try_schedule_tasks_at(tasks, at(MIDNIGHT + 9 * HOUR)).unwrap().unwrap();
    let names: Vec<String> = out.iter().map(|t| t.name.clone()).collect();
    assert_eq!(names, vec!["z", "x", "y"]);
}

#[test]
fn scheduling_past_the_last_day_is_reported() {
    let tasks = vec![task("late", None, Some(600))];
    assert_eq!(try_schedule_tasks_at(tasks, DateTime::max_utc()), None);
}

#[test]
fn scheduling_now_gives_every_open_task_a_start() {
    let out = schedule_tasks(sample()).unwrap().unwrap();
    assert_eq!(out.len(), 3);
    for t in &out {
        let start = t.scheduled_start.unwrap();
        assert!(start.time().num_seconds_from_midnight() >= 9 * 3600);
    }
}

#[test]
fn a_task_that_would_run_past_midnight_moves_to_the_next_morning() {
    let tasks = vec![task("late", None, Some(6 * 60))];
    let out = try_schedule_tasks_at(tasks, at(MIDNIGHT + 19 * HOUR)).unwrap().unwrap();
    assert_eq!(starts(&out), vec![("late".to_string(), MIDNIGHT + DAY + 9 * HOUR)]);
}

#[test]
fn a_task_that_fits_before_six_starts_at_once() {
    let tasks = vec![task("short", None, Some(2 * 60)), task("exact", None, Some(60))];
    let out = try_schedule_tasks_at(tasks, at(MIDNIGHT + 15 * HOUR)).unwrap().unwrap();
    assert_eq!(
        starts(&out),
        vec![("short".to_string(), MIDNIGHT + 15 * HOUR), ("exact".to_string(), MIDNIGHT + 17 * HOUR)]
    );
}

#[test]
fn every_task_of_a_working_day_or_less_ends_by_six() {
    for begin in [0, 7, 9, 13, 17, 19, 23] {
        let tasks = vec![
            task("a", Some(MIDNIGHT + DAY), Some(9 * 60)),
            task("b", Some(MIDNIGHT + 2 * DAY), Some(5 * 60)),
            task("c", Some(MIDNIGHT + 3 * DAY), Some(4 * 60 + 30)),
            task("d", None, Some(45)),
        ];
        let out = try_schedule_tasks_at(tasks, at(MIDNIGHT + begin * HOUR)).unwrap().unwrap();
        for t in &out {
            let start = t.scheduled_start.unwrap();
            let tod = start.time().num_seconds_from_midnight() as i64;
            let secs = t.estimated_duration().num_seconds();
            assert!(tod >= 9 * HOUR);
            assert!(tod + secs <= 18 * HOUR);
        }
    }
}

#[test]
fn a_requested_task_takes_its_deadline_and_duration() {
    let now = at(MIDNIGHT + 10 * HOUR);
    let two_hours = TimeDeltaExpr::TimeAmount { w: 0, d: 0, h: 2, m: 0, s: 0 };
    let t = Task::requested("report", Some(&TimeExpr::Tomorrow), Some(two_hours), now).unwrap();
    assert_eq!(t.name, "report");
    assert_eq!(t.deadline, Some(at(MIDNIGHT + DAY)));
    assert_eq!(t.specified_duration, Some(TimeDelta::try_hours(2).unwrap()));
    assert_eq!(t.scheduled_start, None);
    let plain = Task::requested("plain", None, None, now).unwrap();
    assert_eq!(plain, Task::new("plain"));
    assert_eq!(Task::requested("late", Some(&TimeExpr::Tomorrow), None, DateTime::max_utc()), None);
}
