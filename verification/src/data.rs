//! The stored form of a task, with its estimated duration as a field.

use vstd::prelude::*;
use crate::time::{DateTime, TimeDelta};

verus! {

/// A task as stored: its name, deadline, estimated duration, and when it is
/// scheduled, was started and was finished.
#[derive(Clone, Debug, PartialEq, Eq)]
pub struct Task {
    pub name: String,
    pub deadline: Option<DateTime>,
    pub estimated_duration: Option<TimeDelta>,
    pub scheduled_start: Option<DateTime>,
    pub started_at: Option<DateTime>,
    pub finished_at: Option<DateTime>,
}

impl Task {
    /// A task with the given name and nothing else set.
    pub fn new(name: &str) -> (r: Task)
        ensures
            r.name@ == name@,
            r.deadline is None,
            r.estimated_duration is None,
            r.scheduled_start is None,
            r.started_at is None,
            r.finished_at is None,
    {
        Task {
            name: name.to_owned(),
            deadline: None,
            estimated_duration: None,
            scheduled_start: None,
            started_at: None,
            finished_at: None,
        }
    }
}

} // verus!
