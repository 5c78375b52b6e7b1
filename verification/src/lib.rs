//! A small task planner: tasks with deadlines and durations, scheduled into
//! working hours, listed as a table, and time expressions such as
//! `tomorrow+9:30` or `now+2h`.

pub mod data;
pub mod expr;
pub mod fmt;
pub mod interval;
pub mod table;
pub mod text;
pub mod time;
pub mod util;

use vstd::prelude::*;
use crate::time::{
    datetime_in_range,
    day_of,
    max_datetime,
    max_days,
    nanos_per_day,
    nanos_per_hour,
    time_of_day,
    DateTime,
    NaiveTime,
    TimeDelta,
};
use crate::util::combine_dt;

verus! {

/// A task: what it is called, when it is due, how long it takes, and when it
/// is scheduled, was started and was finished.
#[derive(Debug, PartialEq, Eq)]
pub struct Task {
    pub name: String,
    pub deadline: Option<DateTime>,
    pub specified_duration: Option<TimeDelta>,
    pub scheduled_start: Option<DateTime>,
    pub started_at: Option<DateTime>,
    pub finished_at: Option<DateTime>,
}

impl Clone for Task {
    fn clone(&self) -> (r: Self)
        ensures
            r == *self,
    {
        Task {
            name: self.name.clone(),
            deadline: self.deadline,
            specified_duration: self.specified_duration,
            scheduled_start: self.scheduled_start,
            started_at: self.started_at,
            finished_at: self.finished_at,
        }
    }
}

/// How long a task is taken to last, in nanoseconds: its specified duration,
/// or one hour.
pub open spec fn estimated_nanos(t: Task) -> int {
    match t.specified_duration {
        Some(d) => d@,
        None => nanos_per_hour(),
    }
}

/// The file name `<name>.json` under which a task is saved.
pub open spec fn file_name_of(t: Task) -> Seq<char> {
    t.name@ + ".json"@
}

impl Task {
    /// A task with the given name and nothing else set.
    pub fn new(name: &str) -> (r: Task)
        ensures
            r.name@ == name@,
            r.deadline is None,
            r.specified_duration is None,
            r.scheduled_start is None,
            r.started_at is None,
            r.finished_at is None,
    {
        Task {
            name: name.to_owned(),
            deadline: None,
            specified_duration: None,
            scheduled_start: None,
            started_at: None,
            finished_at: None,
        }
    }

    /// The task a user adds: named `name`, due when `deadline` stands for at
    /// `now`, and taking as long as `takes` lasts. `None` where either value
    /// cannot be computed (it leaves the representable range).
    pub fn requested(
        name: &str,
        deadline: Option<&crate::expr::TimeExpr>,
        takes: Option<crate::expr::TimeDeltaExpr>,
        now: DateTime,
    ) -> (r: Option<Task>)
        ensures
            r is Some <==> (deadline matches Some(e) ==> crate::expr::expr_value(
                crate::expr::expr_view(*e),
                now@,
            ) is Some) && (takes matches Some(d) ==> crate::expr::delta_value(d) is Some),
            r matches Some(t) ==> {
                &&& t.name@ == name@
                &&& crate::expr::instant_view(t.deadline) == match deadline {
                    Some(e) => crate::expr::expr_value(crate::expr::expr_view(*e), now@),
                    None => None,
                }
                &&& crate::expr::opt_view(t.specified_duration) == match takes {
                    Some(d) => crate::expr::delta_value(d),
                    None => None,
                }
                &&& t.scheduled_start is None
                &&& t.started_at is None
                &&& t.finished_at is None
            },
    {
        let mut task = Task::new(name);
        if let Some(e) = deadline {
            match e.try_eval(now) {
                Some(at) => {
                    task.deadline = Some(at);
                },
                None => {
                    return None;
                },
            }
        }
        if let Some(d) = takes {
            match d.try_eval() {
                Some(v) => {
                    task.specified_duration = Some(v);
                },
                None => {
                    return None;
                },
            }
        }
        Some(task)
    }

    /// The task's storage name: its name followed by `.json`.
    pub fn file_name(&self) -> (r: String)
        ensures
            r@ == file_name_of(*self),
    {
        let mut r = self.name.clone();
        r.append(".json");
        r
    }

    /// The specified duration, or one hour.
    pub fn estimated_duration(&self) -> (r: TimeDelta)
        ensures
            r@ == estimated_nanos(*self),
    {
        match self.specified_duration {
            Some(d) => d,
            None => TimeDelta::try_hours(1).unwrap(),
        }
    }

    /// When the task ends if it starts as scheduled, if it is scheduled; the
    /// end must be a representable instant.
    pub fn scheduled_end(&self) -> (r: Option<DateTime>)
        requires
            self.scheduled_start matches Some(s) ==> datetime_in_range(
                s@ + estimated_nanos(*self),
            ),
        ensures
            match self.scheduled_start {
                Some(s) => r matches Some(e) && e@ == s@ + estimated_nanos(*self),
                None => r is None,
            },
    {
        match self.scheduled_start {
            Some(s) => Some(s.checked_add_signed(&self.estimated_duration()).unwrap()),
            None => None,
        }
    }
}

// ---------------------------------------------------------------------------
// Selecting and ordering tasks
// ---------------------------------------------------------------------------

/// Which tasks a selection keeps.
#[derive(Clone, Copy, Debug, PartialEq, Eq, Structural)]
pub enum Selection {
    /// Tasks not finished.
    Unfinished,
    /// Tasks that were started.
    Started,
    /// Tasks not started.
    Unstarted,
}

pub open spec fn selected(which: Selection, t: Task) -> bool {
    match which {
        Selection::Unfinished => t.finished_at is None,
        Selection::Started => t.started_at is Some,
        Selection::Unstarted => t.started_at is None,
    }
}

/// The tasks of `s` that the selection keeps, in order.
pub open spec fn select(s: Seq<Task>, which: Selection) -> Seq<Task>
    decreases s.len(),
{
    if s.len() == 0 {
        s
    } else if selected(which, s.last()) {
        select(s.drop_last(), which).push(s.last())
    } else {
        select(s.drop_last(), which)
    }
}

/// Every task a selection keeps is one that it selects.
pub proof fn lemma_select_selected(s: Seq<Task>, which: Selection, i: int)
    requires
        0 <= i < select(s, which).len(),
    ensures
        selected(which, select(s, which)[i]),
    decreases s.len(),
{
    if s.len() > 0 {
        if selected(which, s.last()) && i == select(s.drop_last(), which).len() {
        } else {
            lemma_select_selected(s.drop_last(), which, i);
        }
    }
}

/// Keeps the tasks that the selection keeps, in order.
pub fn select_tasks(tasks: Vec<Task>, which: Selection) -> (r: Vec<Task>)
    ensures
        r@ == select(tasks@, which),
{
    let ghost all = tasks@;
    let total = tasks.len();
    let mut rest = tasks;
    let mut kept: Vec<Task> = Vec::new();
    let mut i: usize = 0;
    while rest.len() > 0
        invariant
            i <= all.len(),
            all.len() == total,
            rest@.len() == all.len() - i,
            rest@ == all.skip(i as int),
            kept@ == select(all.take(i as int), which),
        decreases rest@.len(),
    {
        let t = rest.remove(0);
        proof {
            assert(all.take(i + 1).drop_last() =~= all.take(i as int));
            assert(all.take(i + 1).last() == t);
        }
        let keep = match which {
            Selection::Unfinished => t.finished_at.is_none(),
            Selection::Started => t.started_at.is_some(),
            Selection::Unstarted => t.started_at.is_none(),
        };
        if keep {
            kept.push(t);
        }
        i = i + 1;
        proof {
            assert(rest@ =~= all.skip(i as int));
        }
    }
    proof {
        assert(all.take(i as int) =~= all);
    }
    kept
}

/// By what tasks are ordered.
#[derive(Clone, Copy, Debug, PartialEq, Eq, Structural)]
pub enum SortKey {
    /// The deadline, a task without one counting as due at the latest instant.
    DeadlineOrLatest,
    /// The deadline, a task without one coming before all others.
    Deadline,
}

/// The deadline of a task, or the latest instant when it has none.
pub open spec fn deadline_or_latest(t: Task) -> int {
    match t.deadline {
        Some(d) => d@,
        None => max_datetime(),
    }
}

/// Task `a` comes no later than task `b` in the order `key`.
pub open spec fn key_le(key: SortKey, a: Task, b: Task) -> bool {
    match key {
        SortKey::DeadlineOrLatest => deadline_or_latest(a) <= deadline_or_latest(b),
        SortKey::Deadline => match (a.deadline, b.deadline) {
            (None, _) => true,
            (Some(_), None) => false,
            (Some(x), Some(y)) => x@ <= y@,
        },
    }
}

/// `s` with `x` put after the last task whose key is not above that of `x`.
pub open spec fn insert_by_key(s: Seq<Task>, x: Task, key: SortKey) -> Seq<Task>
    decreases s.len(),
{
    if s.len() == 0 {
        seq![x]
    } else if key_le(key, s.last(), x) {
        s.push(x)
    } else {
        insert_by_key(s.drop_last(), x, key).push(s.last())
    }
}

/// The tasks of `s` in order of their keys, tasks with equal keys staying in
/// the order they had (a stable sort).
pub open spec fn sort_by_key(s: Seq<Task>, key: SortKey) -> Seq<Task>
    decreases s.len(),
{
    if s.len() == 0 {
        s
    } else {
        insert_by_key(sort_by_key(s.drop_last(), key), s.last(), key)
    }
}

proof fn lemma_insert_at(s: Seq<Task>, x: Task, key: SortKey, j: int)
    requires
        0 <= j <= s.len(),
        forall|m: int| j <= m < s.len() ==> !key_le(key, #[trigger] s[m], x),
        j > 0 ==> key_le(key, s[j - 1], x),
    ensures
        insert_by_key(s, x, key) == s.insert(j, x),
    decreases s.len(),
{
    if s.len() == 0 {
        assert(s.insert(j, x) =~= seq![x]);
    } else if j == s.len() {
        assert(s.insert(j, x) =~= s.push(x));
    } else {
        lemma_insert_at(s.drop_last(), x, key, j);
        assert(s.insert(j, x) =~= s.drop_last().insert(j, x).push(s.last()));
    }
}

/// Task `a` comes no later than task `b` in the order `key`.
pub fn task_key_le(a: &Task, b: &Task, key: SortKey) -> (r: bool)
    ensures
        r == key_le(key, *a, *b),
{
    match key {
        SortKey::DeadlineOrLatest => {
            let ka = match a.deadline {
                Some(d) => d,
                None => DateTime::max_utc(),
            };
            let kb = match b.deadline {
                Some(d) => d,
                None => DateTime::max_utc(),
            };
            !kb.is_before(&ka)
        },
        SortKey::Deadline => match (&a.deadline, &b.deadline) {
            (None, _) => true,
            (Some(_), None) => false,
            (Some(x), Some(y)) => !y.is_before(x),
        },
    }
}

/// `s` is in the order `key`.
pub open spec fn sorted_by(s: Seq<Task>, key: SortKey) -> bool {
    forall|i: int, j: int| 0 <= i < j < s.len() ==> key_le(key, #[trigger] s[i], #[trigger] s[j])
}

proof fn lemma_key_le_transitive(key: SortKey, a: Task, b: Task, c: Task)
    requires
        key_le(key, a, b),
        key_le(key, b, c),
    ensures
        key_le(key, a, c),
{
}

proof fn lemma_key_le_total(key: SortKey, a: Task, b: Task)
    ensures
        key_le(key, a, b) || key_le(key, b, a),
{
}

proof fn lemma_insert_bounded(s: Seq<Task>, x: Task, key: SortKey, b: Task)
    requires
        forall|k: int| 0 <= k < s.len() ==> key_le(key, #[trigger] s[k], b),
        key_le(key, x, b),
    ensures
        forall|i: int|
            0 <= i < insert_by_key(s, x, key).len() ==> key_le(
                key,
                #[trigger] insert_by_key(s, x, key)[i],
                b,
            ),
    decreases s.len(),
{
    let r = insert_by_key(s, x, key);
    if s.len() == 0 {
        assert(r =~= seq![x]);
    } else if key_le(key, s.last(), x) {
        assert forall|i: int| 0 <= i < r.len() implies key_le(key, #[trigger] r[i], b) by {
            if i < s.len() {
                assert(r[i] == s[i]);
            }
        }
    } else {
        let d = s.drop_last();
        assert forall|k: int| 0 <= k < d.len() implies key_le(key, #[trigger] d[k], b) by {
            assert(d[k] == s[k]);
        }
        lemma_insert_bounded(d, x, key, b);
        let rd = insert_by_key(d, x, key);
        assert forall|i: int| 0 <= i < r.len() implies key_le(key, #[trigger] r[i], b) by {
            if i < rd.len() {
                assert(r[i] == rd[i]);
            } else {
                assert(r[i] == s[s.len() - 1]);
            }
        }
    }
}

proof fn lemma_insert_sorted(s: Seq<Task>, x: Task, key: SortKey)
    requires
        sorted_by(s, key),
    ensures
        sorted_by(insert_by_key(s, x, key), key),
        insert_by_key(s, x, key).to_multiset() =~= s.to_multiset().insert(x),
    decreases s.len(),
{
    broadcast use vstd::seq_lib::to_multiset_build;
    broadcast use vstd::multiset::group_multiset_axioms;

    if s.len() == 0 {
        assert(seq![x] =~= Seq::<Task>::empty().push(x));
        assert(s =~= Seq::<Task>::empty());
    } else if key_le(key, s.last(), x) {
        let r = s.push(x);
        assert forall|i: int, j: int| 0 <= i < j < r.len() implies key_le(
            key,
            #[trigger] r[i],
            #[trigger] r[j],
        ) by {
            if j == s.len() && i < s.len() - 1 {
                lemma_key_le_transitive(key, s[i], s.last(), x);
            }
        }
    } else {
        let d = s.drop_last();
        assert(sorted_by(d, key));
        lemma_insert_sorted(d, x, key);
        lemma_key_le_total(key, s.last(), x);
        lemma_insert_bounded(d, x, key, s.last());
        let r = insert_by_key(d, x, key).push(s.last());
        assert(s =~= d.push(s.last()));
        assert(s.to_multiset() =~= d.to_multiset().insert(s.last()));
        assert(r.to_multiset() =~= insert_by_key(d, x, key).to_multiset().insert(s.last()));
        assert(r.to_multiset() =~= s.to_multiset().insert(x));
    }
}

/// Sorting by a key puts the tasks in the order of the key and keeps every
/// task, each as many times as it occurs.
pub proof fn sorting_orders_and_keeps_tasks(s: Seq<Task>, key: SortKey)
    ensures
        sorted_by(sort_by_key(s, key), key),
        sort_by_key(s, key).to_multiset() =~= s.to_multiset(),
    decreases s.len(),
{
    broadcast use vstd::seq_lib::to_multiset_build;
    broadcast use vstd::multiset::group_multiset_axioms;

    if s.len() > 0 {
        sorting_orders_and_keeps_tasks(s.drop_last(), key);
        lemma_insert_sorted(sort_by_key(s.drop_last(), key), s.last(), key);
        assert(s =~= s.drop_last().push(s.last()));
    }
}

proof fn lemma_select_bounded(s: Seq<Task>, which: Selection, key: SortKey, b: Task)
    requires
        forall|k: int| 0 <= k < s.len() ==> key_le(key, #[trigger] s[k], b),
    ensures
        forall|i: int|
            0 <= i < select(s, which).len() ==> key_le(key, #[trigger] select(s, which)[i], b),
    decreases s.len(),
{
    if s.len() > 0 {
        let d = s.drop_last();
        assert forall|k: int| 0 <= k < d.len() implies key_le(key, #[trigger] d[k], b) by {
            assert(d[k] == s[k]);
        }
        lemma_select_bounded(d, which, key, b);
        assert(key_le(key, s[s.len() - 1], b));
        let r = select(s, which);
        let rd = select(d, which);
        assert forall|i: int| 0 <= i < r.len() implies key_le(key, #[trigger] r[i], b) by {
            if i < rd.len() {
                assert(r[i] == rd[i]);
            } else {
                assert(r[i] == s[s.len() - 1]);
            }
        }
    }
}

/// Keeping some of the tasks keeps them in order.
pub proof fn selecting_keeps_order(s: Seq<Task>, which: Selection, key: SortKey)
    requires
        sorted_by(s, key),
    ensures
        sorted_by(select(s, which), key),
    decreases s.len(),
{
    if s.len() > 0 {
        let d = s.drop_last();
        assert(sorted_by(d, key));
        selecting_keeps_order(d, which, key);
        lemma_select_bounded(d, which, key, s.last());
    }
}

/// Sorting by deadline puts earlier deadlines first and tasks without a
/// deadline before all others; sorting by deadline, a missing one counted as
/// the last representable instant, puts tasks without a deadline after all
/// but those due at that instant.
pub proof fn sorting_puts_earlier_deadlines_first(s: Seq<Task>)
    ensures
        forall|i: int, j: int|
            #![trigger sort_by_key(s, SortKey::Deadline)[i], sort_by_key(s, SortKey::Deadline)[j]]
            0 <= i < j < s.len() ==> {
                let a = sort_by_key(s, SortKey::Deadline)[i];
                let b = sort_by_key(s, SortKey::Deadline)[j];
                match (a.deadline, b.deadline) {
                    (Some(x), Some(y)) => x@ <= y@,
                    (Some(_), None) => false,
                    (None, _) => true,
                }
            },
        forall|i: int, j: int|
            #![trigger sort_by_key(s, SortKey::DeadlineOrLatest)[i], sort_by_key(s, SortKey::DeadlineOrLatest)[j]]
            0 <= i < j < s.len() ==> {
                let a = sort_by_key(s, SortKey::DeadlineOrLatest)[i];
                let b = sort_by_key(s, SortKey::DeadlineOrLatest)[j];
                match (a.deadline, b.deadline) {
                    (Some(x), Some(y)) => x@ <= y@,
                    (None, Some(y)) => y@ >= 8_210_266_876_799_999_999_999,
                    (_, None) => true,
                }
            },
{
    broadcast use vstd::seq_lib::to_multiset_build;

    sorting_orders_and_keeps_tasks(s, SortKey::Deadline);
    sorting_orders_and_keeps_tasks(s, SortKey::DeadlineOrLatest);
    vstd::seq_lib::to_multiset_len(s);
    vstd::seq_lib::to_multiset_len(sort_by_key(s, SortKey::Deadline));
    vstd::seq_lib::to_multiset_len(sort_by_key(s, SortKey::DeadlineOrLatest));
}

/// Sorts tasks by their keys, keeping tasks with equal keys in order.
pub fn sort_tasks(tasks: Vec<Task>, key: SortKey) -> (r: Vec<Task>)
    ensures
        r@ == sort_by_key(tasks@, key),
{
    let ghost all = tasks@;
    let total = tasks.len();
    let mut rest = tasks;
    let mut sorted: Vec<Task> = Vec::new();
    let mut i: usize = 0;
    while rest.len() > 0
        invariant
            i <= all.len(),
            all.len() == total,
            rest@.len() == all.len() - i,
            rest@ == all.skip(i as int),
            sorted@ == sort_by_key(all.take(i as int), key),
        decreases rest@.len(),
    {
        let t = rest.remove(0);
        proof {
            assert(all.take(i + 1).drop_last() =~= all.take(i as int));
            assert(all.take(i + 1).last() == t);
        }
        let mut j = sorted.len();
        while j > 0 && !task_key_le(&sorted[j - 1], &t, key)
            invariant
                j <= sorted@.len(),
                forall|m: int| j <= m < sorted@.len() ==> !key_le(key, #[trigger] sorted@[m], t),
            decreases j,
        {
            j = j - 1;
        }
        proof {
            lemma_insert_at(sorted@, t, key, j as int);
        }
        sorted.insert(j, t);
        i = i + 1;
        proof {
            assert(rest@ =~= all.skip(i as int));
        }
    }
    proof {
        assert(all.take(i as int) =~= all);
    }
    sorted
}

// ---------------------------------------------------------------------------
// Scheduling
// ---------------------------------------------------------------------------

/// Why tasks could not be scheduled.
#[derive(Clone, Copy, Debug, PartialEq, Eq, Structural)]
pub enum ScheduleError {
    /// More than one unfinished task has been started: at most one task can
    /// be in progress at a time.
    SeveralInProgress,
}

/// 09:00, when the working day begins, in nanoseconds since midnight.
pub open spec fn day_begins() -> int {
    9 * nanos_per_hour()
}

/// 18:00, when the working day ends, in nanoseconds since midnight.
pub open spec fn day_ends() -> int {
    18 * nanos_per_hour()
}

/// When a task lasting `d` can begin, given that the previous one ended at
/// `cursor`: at 09:00 the same day if `cursor` is earlier in the day; at
/// 09:00 the next day if the task would end after 18:00 (or after midnight);
/// otherwise at `cursor`. `None` where the next day cannot be represented.
pub open spec fn working_start(cursor: int, d: int) -> Option<int> {
    if time_of_day(cursor) < day_begins() {
        Some(day_of(cursor) * nanos_per_day() + day_begins())
    } else if time_of_day(cursor) + d > day_ends() {
        if day_of(cursor) < max_days() {
            Some((day_of(cursor) + 1) * nanos_per_day() + day_begins())
        } else {
            None
        }
    } else {
        Some(cursor)
    }
}

/// The starts given to the tasks `ts`, one after another, from `cursor` on;
/// `None` where an instant leaves the representable range.
pub open spec fn plan_starts(ts: Seq<Task>, cursor: int) -> Option<Seq<int>>
    decreases ts.len(),
{
    if ts.len() == 0 {
        Some(Seq::empty())
    } else {
        match working_start(cursor, estimated_nanos(ts[0])) {
            None => None,
            Some(start) => if datetime_in_range(start + estimated_nanos(ts[0])) {
                match plan_starts(ts.drop_first(), start + estimated_nanos(ts[0])) {
                    None => None,
                    Some(rest) => Some(seq![start] + rest),
                }
            } else {
                None
            },
        }
    }
}

/// The unfinished tasks, soonest deadline first (tasks without one last).
pub open spec fn open_tasks(tasks: Seq<Task>) -> Seq<Task> {
    sort_by_key(select(tasks, Selection::Unfinished), SortKey::DeadlineOrLatest)
}

/// The unfinished tasks that have been started.
pub open spec fn in_progress(tasks: Seq<Task>) -> Seq<Task> {
    select(open_tasks(tasks), Selection::Started)
}

/// The tasks to schedule, in the order they are scheduled: the unfinished,
/// unstarted tasks, soonest deadline first.
pub open spec fn schedule_queue(tasks: Seq<Task>) -> Seq<Task> {
    select(open_tasks(tasks), Selection::Unstarted)
}

/// When scheduling begins: at the expected end of the task in progress, if
/// there is one, else at `now`.
pub open spec fn schedule_begin(tasks: Seq<Task>, now: int) -> Option<int> {
    let ip = in_progress(tasks);
    if ip.len() == 1 {
        match ip[0].started_at {
            Some(s) => if datetime_in_range(s@ + estimated_nanos(ip[0])) {
                Some(s@ + estimated_nanos(ip[0]))
            } else {
                None
            },
            None => None,
        }
    } else {
        Some(now)
    }
}

/// The outcome of scheduling `tasks` at `now`: an error when several tasks
/// are in progress, else the starts of the queued tasks; `None` where an
/// instant leaves the representable range (and scheduling stops with a panic).
pub open spec fn schedule_outcome(tasks: Seq<Task>, now: int) -> Option<
    Result<Seq<int>, ScheduleError>,
> {
    if in_progress(tasks).len() > 1 {
        Some(Err(ScheduleError::SeveralInProgress))
    } else {
        match schedule_begin(tasks, now) {
            None => None,
            Some(c) => match plan_starts(schedule_queue(tasks), c) {
                None => None,
                Some(starts) => Some(Ok(starts)),
            },
        }
    }
}

/// `out` is `queue` with each task's scheduled start set to the matching
/// entry of `starts`, and nothing else changed.
pub open spec fn scheduled_as(out: Seq<Task>, queue: Seq<Task>, starts: Seq<int>) -> bool {
    &&& out.len() == queue.len()
    &&& starts.len() == queue.len()
    &&& forall|i: int|
        0 <= i < out.len() ==> {
            &&& #[trigger] out[i].name == queue[i].name
            &&& out[i].deadline == queue[i].deadline
            &&& out[i].specified_duration == queue[i].specified_duration
            &&& out[i].started_at == queue[i].started_at
            &&& out[i].finished_at == queue[i].finished_at
            &&& out[i].scheduled_start matches Some(d) && d@ == starts[i]
        }
}

/// The result `r` of scheduling agrees with the outcome `o`.
pub open spec fn schedule_matches(
    r: Option<Result<Vec<Task>, ScheduleError>>,
    o: Option<Result<Seq<int>, ScheduleError>>,
    queue: Seq<Task>,
) -> bool {
    match o {
        None => r is None,
        Some(Err(e)) => r == Some(Err::<Vec<Task>, ScheduleError>(e)),
        Some(Ok(starts)) => r matches Some(Ok(out)) && scheduled_as(out@, queue, starts),
    }
}

/// `o` with the starts `p` put before its own.
pub open spec fn prepend_starts(p: Seq<int>, o: Option<Seq<int>>) -> Option<Seq<int>> {
    match o {
        None => None,
        Some(ss) => Some(p + ss),
    }
}

proof fn lemma_working_start(c: int, d: int)
    ensures
        working_start(c, d) matches Some(s) ==> {
            &&& s >= c
            &&& time_of_day(s) >= day_begins()
            &&& d <= 9 * nanos_per_hour() ==> time_of_day(s) + d <= day_ends()
        },
{
    let day = day_of(c);
    let tod = time_of_day(c);
    vstd::arithmetic::div_mod::lemma_fundamental_div_mod(c, nanos_per_day());
    match working_start(c, d) {
        Some(s) => {
            if tod < day_begins() {
                vstd::arithmetic::div_mod::lemma_fundamental_div_mod_converse(
                    s,
                    nanos_per_day(),
                    day,
                    day_begins(),
                );
            } else if tod + d > day_ends() {
                vstd::arithmetic::div_mod::lemma_fundamental_div_mod_converse(
                    s,
                    nanos_per_day(),
                    day + 1,
                    day_begins(),
                );
            }
        },
        None => {},
    }
}

proof fn lemma_plan_starts(ts: Seq<Task>, c: int)
    ensures
        plan_starts(ts, c) matches Some(ss) ==> {
            &&& ss.len() == ts.len()
            &&& forall|i: int| 0 <= i < ss.len() ==> time_of_day(#[trigger] ss[i]) >= day_begins()
            &&& forall|i: int|
                0 <= i < ss.len() && estimated_nanos(ts[i]) <= 9 * nanos_per_hour() ==> time_of_day(
                    #[trigger] ss[i],
                ) + estimated_nanos(ts[i]) <= day_ends()
            &&& ss.len() > 0 ==> ss[0] >= c
            &&& forall|i: int|
                0 < i < ss.len() ==> #[trigger] ss[i] >= ss[i - 1] + estimated_nanos(ts[i - 1])
        },
    decreases ts.len(),
{
    if ts.len() > 0 {
        lemma_working_start(c, estimated_nanos(ts[0]));
        match working_start(c, estimated_nanos(ts[0])) {
            Some(start) => {
                let next = start + estimated_nanos(ts[0]);
                lemma_plan_starts(ts.drop_first(), next);
                match plan_starts(ts, c) {
                    Some(ss) => {
                        let rest = plan_starts(ts.drop_first(), next)->0;
                        assert(ss =~= seq![start] + rest);
                        assert forall|i: int| 0 < i < ss.len() implies #[trigger] ss[i] >= ss[i
                            - 1] + estimated_nanos(ts[i - 1]) by {
                            if i > 1 {
                                assert(ss[i] == rest[i - 1]);
                                assert(ss[i - 1] == rest[i - 2]);
                                assert(ts[i - 1] == ts.drop_first()[i - 2]);
                            }
                        }
                        assert forall|i: int| 0 <= i < ss.len() implies time_of_day(
                            #[trigger] ss[i],
                        ) >= day_begins() by {
                            if i > 0 {
                                assert(ss[i] == rest[i - 1]);
                            }
                        }
                        assert forall|i: int|
                            0 <= i < ss.len() && estimated_nanos(ts[i]) <= 9
                                * nanos_per_hour() implies time_of_day(#[trigger] ss[i])
                            + estimated_nanos(ts[i]) <= day_ends() by {
                            if i > 0 {
                                assert(ss[i] == rest[i - 1]);
                                assert(ts[i] == ts.drop_first()[i - 1]);
                            }
                        }
                    },
                    None => {},
                }
            },
            None => {},
        }
    }
}

/// Consecutive starts at least a task's length apart, with no task of
/// negative length, keep every later start at least that far from each
/// earlier one.
proof fn lemma_starts_apart(starts: Seq<int>, q: Seq<Task>, i: int, j: int)
    requires
        starts.len() == q.len(),
        0 <= i < j < starts.len(),
        forall|k: int| 0 <= k < q.len() ==> estimated_nanos(#[trigger] q[k]) >= 0,
        forall|k: int|
            0 < k < starts.len() ==> #[trigger] starts[k] >= starts[k - 1] + estimated_nanos(
                q[k - 1],
            ),
    ensures
        starts[j] >= starts[i] + estimated_nanos(q[i]),
    decreases j - i,
{
    if j > i + 1 {
        lemma_starts_apart(starts, q, i, j - 1);
        assert(estimated_nanos(q[j - 1]) >= 0);
        assert(starts[j] >= starts[j - 1] + estimated_nanos(q[j - 1]));
    } else {
        assert(starts[j] >= starts[j - 1] + estimated_nanos(q[j - 1]));
    }
}

/// Scheduling takes the unfinished, unstarted tasks soonest deadline first;
/// every task starts at 09:00 or later on its day, and one that lasts no more
/// than the nine working hours ends by 18:00 the same day; the first starts no
/// earlier than scheduling begins, and each later one no earlier than the
/// one before it is expected to end. Where no task has a negative length,
/// no two scheduled tasks overlap, and tasks start in deadline order.
pub proof fn schedule_keeps_order_and_hours(tasks: Seq<Task>, now: int)
    ensures
        sorted_by(schedule_queue(tasks), SortKey::DeadlineOrLatest),
        schedule_outcome(tasks, now) matches Some(Ok(starts)) ==> {
            let q = schedule_queue(tasks);
            &&& starts.len() == q.len()
            &&& forall|i: int|
                0 <= i < starts.len() ==> time_of_day(#[trigger] starts[i]) >= day_begins()
            &&& forall|i: int|
                0 <= i < starts.len() && estimated_nanos(q[i]) <= 9 * nanos_per_hour()
                    ==> time_of_day(#[trigger] starts[i]) + estimated_nanos(q[i]) <= day_ends()
            &&& starts.len() > 0 ==> (schedule_begin(tasks, now) matches Some(b) && starts[0] >= b)
            &&& forall|i: int|
                0 < i < starts.len() ==> #[trigger] starts[i] >= starts[i - 1] + estimated_nanos(
                    q[i - 1],
                )
            &&& (forall|k: int| 0 <= k < q.len() ==> estimated_nanos(#[trigger] q[k]) >= 0)
                ==> forall|i: int, j: int|
                #![trigger starts[i], starts[j]]
                0 <= i < j < starts.len() ==> starts[i] + estimated_nanos(q[i]) <= starts[j]
                    && starts[i] <= starts[j]
        },
{
    let open = open_tasks(tasks);
    sorting_orders_and_keeps_tasks(select(tasks, Selection::Unfinished), SortKey::DeadlineOrLatest);
    selecting_keeps_order(open, Selection::Unstarted, SortKey::DeadlineOrLatest);
    match schedule_begin(tasks, now) {
        Some(b) => lemma_plan_starts(schedule_queue(tasks), b),
        None => {},
    }
    match schedule_outcome(tasks, now) {
        Some(Ok(starts)) => {
            let q = schedule_queue(tasks);
            if forall|k: int| 0 <= k < q.len() ==> estimated_nanos(#[trigger] q[k]) >= 0 {
                assert forall|i: int, j: int|
                    #![trigger starts[i], starts[j]]
                    0 <= i < j < starts.len() implies starts[i] + estimated_nanos(q[i])
                        <= starts[j] && starts[i] <= starts[j] by {
                    lemma_starts_apart(starts, q, i, j);
                    assert(estimated_nanos(q[i]) >= 0);
                }
            }
        },
        _ => {},
    }
}

/// With one unfinished task in progress, scheduling begins when that task is
/// expected to end: its start plus its specified duration, or plus one hour
/// when it has none. Every scheduled task starts no earlier than that, the
/// first always and all of them where no task has a negative length.
pub proof fn scheduling_waits_for_the_task_in_progress(tasks: Seq<Task>, now: int)
    requires
        in_progress(tasks).len() == 1,
    ensures
        in_progress(tasks)[0].started_at matches Some(s) && ({
            let p = in_progress(tasks)[0];
            let end = s@ + match p.specified_duration {
                Some(d) => d@,
                None => 3_600_000_000_000,
            };
            &&& schedule_begin(tasks, now) == if datetime_in_range(end) {
                Some(end)
            } else {
                None
            }
            &&& schedule_outcome(tasks, now) matches Some(Ok(starts)) ==> {
                &&& starts.len() > 0 ==> starts[0] >= end
                &&& (forall|k: int|
                    0 <= k < schedule_queue(tasks).len() ==> estimated_nanos(
                        #[trigger] schedule_queue(tasks)[k],
                    ) >= 0) ==> forall|i: int| 0 <= i < starts.len() ==> #[trigger] starts[i] >= end
            }
        }),
{
    lemma_select_selected(open_tasks(tasks), Selection::Started, 0);
    schedule_keeps_order_and_hours(tasks, now);
    match schedule_outcome(tasks, now) {
        Some(Ok(starts)) => {
            let q = schedule_queue(tasks);
            if forall|k: int| 0 <= k < q.len() ==> estimated_nanos(#[trigger] q[k]) >= 0 {
                assert forall|i: int| 0 <= i < starts.len() implies #[trigger] starts[i]
                    >= starts[0] by {
                    if i > 0 {
                        lemma_starts_apart(starts, q, 0, i);
                        assert(estimated_nanos(q[0]) >= 0);
                    }
                }
            }
        },
        _ => {},
    }
}

proof fn lemma_select_count(s: Seq<Task>, which: Selection, x: Task)
    ensures
        select(s, which).to_multiset().count(x) == if selected(which, x) {
            s.to_multiset().count(x)
        } else {
            0
        },
    decreases s.len(),
{
    broadcast use vstd::seq_lib::to_multiset_build;
    broadcast use vstd::multiset::group_multiset_axioms;

    if s.len() == 0 {
        vstd::seq_lib::to_multiset_len(s);
        vstd::seq_lib::to_multiset_len(select(s, which));
    } else {
        lemma_select_count(s.drop_last(), which, x);
        assert(s =~= s.drop_last().push(s.last()));
    }
}

/// Scheduling gives a start to every unfinished, unstarted task, to each as
/// often as it occurs among the tasks, and to no other.
pub proof fn schedule_covers_each_open_task_once(tasks: Seq<Task>)
    ensures
        schedule_queue(tasks).to_multiset() =~= select(
            select(tasks, Selection::Unfinished),
            Selection::Unstarted,
        ).to_multiset(),
{
    let undone = select(tasks, Selection::Unfinished);
    sorting_orders_and_keeps_tasks(undone, SortKey::DeadlineOrLatest);
    assert forall|x: Task| #[trigger] schedule_queue(tasks).to_multiset().count(x) == select(
        undone,
        Selection::Unstarted,
    ).to_multiset().count(x) by {
        lemma_select_count(open_tasks(tasks), Selection::Unstarted, x);
        lemma_select_count(undone, Selection::Unstarted, x);
    }
}

/// Scheduling fails exactly when more than one unfinished task has been
/// started, so at most one task is ever in progress.
pub proof fn schedule_allows_one_task_in_progress(tasks: Seq<Task>, now: int)
    ensures
        schedule_outcome(tasks, now) == Some(
            Err::<Seq<int>, ScheduleError>(ScheduleError::SeveralInProgress),
        ) <==> in_progress(tasks).len() > 1,
{
}

/// Schedules the queued tasks one after another from `begin`, within working
/// hours; `None` where an instant leaves the representable range.
fn plan(queue: Vec<Task>, begin: DateTime) -> (r: Option<Vec<Task>>)
    ensures
        match plan_starts(queue@, begin@) {
            None => r is None,
            Some(starts) => r matches Some(out) && scheduled_as(out@, queue@, starts),
        },
{
    let ghost q = queue@;
    let total = queue.len();
    let nine = NaiveTime::from_hms_opt(9, 0, 0).unwrap();
    let six = NaiveTime::from_hms_opt(18, 0, 0).unwrap();
    let mut rest = queue;
    let mut out: Vec<Task> = Vec::new();
    let mut cursor = begin;
    let ghost mut starts: Seq<int> = Seq::empty();
    let mut i: usize = 0;
    proof {
        assert(q.skip(0) =~= q);
        match plan_starts(q, begin@) {
            Some(ss) => {
                assert(Seq::<int>::empty() + ss =~= ss);
            },
            None => {},
        }
    }
    while rest.len() > 0
        invariant
            i <= q.len(),
            q == queue@,
            q.len() == total,
            rest@.len() == q.len() - i,
            rest@ == q.skip(i as int),
            nine@ == day_begins(),
            six@ == day_ends(),
            out@.len() == i,
            starts.len() == i,
            forall|k: int|
                0 <= k < i ==> {
                    &&& #[trigger] out@[k].name == q[k].name
                    &&& out@[k].deadline == q[k].deadline
                    &&& out@[k].specified_duration == q[k].specified_duration
                    &&& out@[k].started_at == q[k].started_at
                    &&& out@[k].finished_at == q[k].finished_at
                    &&& out@[k].scheduled_start matches Some(d) && d@ == starts[k]
                },
            plan_starts(q, begin@) == prepend_starts(starts, plan_starts(q.skip(i as int), cursor@)),
        decreases rest@.len(),
    {
        let mut task = rest.remove(0);
        let ghost here = q.skip(i as int);
        proof {
            assert(here[0] == task);
            assert(here.drop_first() =~= q.skip(i + 1));
        }
        let d = task.estimated_duration();
        let ghost c0 = cursor@;
        let ghost est = estimated_nanos(task);
        proof {
            assert(plan_starts(here, c0) == match working_start(c0, est) {
                None => None,
                Some(start) => if datetime_in_range(start + est) {
                    match plan_starts(here.drop_first(), start + est) {
                        None => None,
                        Some(rest) => Some(seq![start] + rest),
                    }
                } else {
                    None
                },
            });
        }
        let tod = cursor.time();
        if tod.is_before(&nine) {
            cursor = combine_dt(cursor.date_naive(), nine);
        } else if tod.ends_after(&d, &six) {
            match cursor.date_naive().succ_opt() {
                None => {
                    assert(time_of_day(c0) >= day_begins());
                    assert(time_of_day(c0) + est > day_ends());
                    assert(day_of(c0) >= max_days());
                    assert(working_start(c0, est) is None);
                    assert(plan_starts(here, c0) is None);
                    assert(plan_starts(q, begin@) is None);
                    return None;
                },
                Some(next) => {
                    cursor = combine_dt(next, nine);
                },
            }
        }
        let ghost start = cursor@;
        task.scheduled_start = Some(cursor);
        proof {
            assert(working_start(c0, est) == Some(start));
        }
        match cursor.checked_add_signed(&d) {
            None => {
                assert(plan_starts(here, c0) is None);
                assert(plan_starts(q, begin@) is None);
                return None;
            },
            Some(c) => {
                cursor = c;
            },
        }
        let ghost old_out = out@;
        out.push(task);
        proof {
            assert(out@[i as int] == task);
            assert(q[i as int] == here[0]);
            let next = plan_starts(q.skip(i + 1), cursor@);
            match next {
                Some(ss) => {
                    assert(starts + (seq![start] + ss) =~= starts.push(start) + ss);
                },
                None => {},
            }
            starts = starts.push(start);
        }
        i = i + 1;
        proof {
            assert(rest@ =~= q.skip(i as int));
            assert forall|k: int| 0 <= k < i implies {
                &&& #[trigger] out@[k].name == q[k].name
                &&& out@[k].deadline == q[k].deadline
                &&& out@[k].specified_duration == q[k].specified_duration
                &&& out@[k].started_at == q[k].started_at
                &&& out@[k].finished_at == q[k].finished_at
                &&& out@[k].scheduled_start matches Some(d) && d@ == starts[k]
            } by {
                if k < i - 1 {
                    assert(out@[k] == old_out[k]);
                    assert(old_out[k].name == q[k].name);
                }
            }
        }
    }
    proof {
        assert(q.skip(i as int).len() == 0);
        assert(starts + Seq::<int>::empty() =~= starts);
    }
    Some(out)
}

/// Schedules the unfinished, unstarted tasks into working hours (09:00 to
/// 18:00), soonest deadline first, one after another: from the expected end
/// of the task in progress if there is one, else from `now`. Returns the
/// scheduled tasks in that order, an error when more than one task is in
/// progress, or `None` where an instant would leave the representable range.
pub fn try_schedule_tasks_at(tasks: Vec<Task>, now: DateTime) -> (r: Option<
    Result<Vec<Task>, ScheduleError>,
>)
    ensures
        schedule_matches(r, schedule_outcome(tasks@, now@), schedule_queue(tasks@)),
{
    let ghost all = tasks@;
    let undone = select_tasks(tasks, Selection::Unfinished);
    let sorted = sort_tasks(undone, SortKey::DeadlineOrLatest);
    let ghost open = sorted@;
    let n = sorted.len();
    let mut count: usize = 0;
    let mut first: usize = 0;
    let mut k: usize = 0;
    while k < n
        invariant
            n == open.len(),
            sorted@ == open,
            k <= n,
            count == select(open.take(k as int), Selection::Started).len(),
            count <= k,
            count >= 1 ==> first < k && select(open.take(k as int), Selection::Started)[0]
                == open[first as int],
        decreases n - k,
    {
        proof {
            assert(open.take(k + 1).drop_last() =~= open.take(k as int));
            assert(open.take(k + 1).last() == open[k as int]);
        }
        if sorted[k].started_at.is_some() {
            if count == 0 {
                first = k;
            }
            count = count + 1;
        }
        k = k + 1;
    }
    proof {
        assert(open.take(n as int) =~= open);
    }
    if count > 1 {
        return Some(Err(ScheduleError::SeveralInProgress));
    }
    proof {
        if count == 1 {
            lemma_select_selected(open, Selection::Started, 0);
        }
    }
    let begin = if count == 1 {
        let t = &sorted[first];
        let started = t.started_at.unwrap();
        match started.checked_add_signed(&t.estimated_duration()) {
            Some(b) => b,
            None => {
                return None;
            },
        }
    } else {
        now
    };
    assert(in_progress(all) == select(open, Selection::Started));
    assert(count == in_progress(all).len());
    assert(count <= 1 ==> schedule_begin(all, now@) == Some(begin@));
    let queue = select_tasks(sorted, Selection::Unstarted);
    assert(queue@ == schedule_queue(all));
    match plan(queue, begin) {
        Some(out) => Some(Ok(out)),
        None => None,
    }
}

/// Schedules the tasks as [`try_schedule_tasks_at`] does, taking the current
/// instant as `now`.
pub fn schedule_tasks(tasks: Vec<Task>) -> (r: Option<Result<Vec<Task>, ScheduleError>>)
    ensures
        exists|t: int|
            datetime_in_range(t) && #[trigger] schedule_matches(
                r,
                schedule_outcome(tasks@, t),
                schedule_queue(tasks@),
            ),
{
    let ghost all = tasks@;
    let now = crate::util::now();
    let r = try_schedule_tasks_at(tasks, now);
    assert(schedule_matches(r, schedule_outcome(all, now@), schedule_queue(all)));
    r
}

} // verus!
