//! The task listing: a table with one row per task, columns as wide as their
//! widest cell, rows in order of deadline.

use vstd::prelude::*;
use crate::text::{decimal, push_char, push_spaces, spaces, str_eq};
use crate::fmt::calendar_date_of;
use crate::time::{day_of, nanos_per_sec, time_of_day, DateTime, TimeDelta};
use crate::{select, select_tasks, sort_by_key, sort_tasks, Selection, SortKey, Task};

verus! {

broadcast use vstd::string::group_string_axioms;

/// The numeral of `n`, padded with zeros on the left to at least `width`
/// digits.
pub open spec fn zero_padded(n: nat, width: nat) -> Seq<char> {
    let digits = decimal(n);
    if digits.len() < width {
        Seq::new((width - digits.len()) as nat, |i: int| '0') + digits
    } else {
        digits
    }
}

/// A year as chrono writes it: four digits for years 0 to 9999, otherwise a
/// sign and at least four digits.
pub open spec fn year_text(y: int) -> Seq<char> {
    if 0 <= y <= 9999 {
        zero_padded(y as nat, 4)
    } else if y < 0 {
        seq!['-'] + zero_padded((-y) as nat, 4)
    } else {
        seq!['+'] + zero_padded(y as nat, 4)
    }
}

/// The fraction of a second `nanos` as chrono writes it: nothing for none,
/// else a `.` and three, six or nine digits, the fewest that hold it.
pub open spec fn fraction_text(nanos: int) -> Seq<char> {
    if nanos == 0 {
        Seq::empty()
    } else if nanos % 1_000_000 == 0 {
        seq!['.'] + zero_padded((nanos / 1_000_000) as nat, 3)
    } else if nanos % 1_000 == 0 {
        seq!['.'] + zero_padded((nanos / 1_000) as nat, 6)
    } else {
        seq!['.'] + zero_padded(nanos as nat, 9)
    }
}

/// The instant `v` (nanoseconds since the epoch) as chrono's `Display` writes
/// it in UTC: `YYYY-MM-DD HH:MM:SS`, the fraction of a second if any, and
/// ` UTC`.
pub open spec fn utc_datetime_text(v: int) -> Seq<char> {
    let date = calendar_date_of(day_of(v));
    let secs = time_of_day(v) / nanos_per_sec();
    year_text(date.0) + seq!['-'] + zero_padded(date.1 as nat, 2) + seq!['-'] + zero_padded(
        date.2 as nat,
        2,
    ) + seq![' '] + zero_padded((secs / 3600) as nat, 2) + seq![':'] + zero_padded(
        (secs % 3600 / 60) as nat,
        2,
    ) + seq![':'] + zero_padded((secs % 60) as nat, 2) + fraction_text(v % nanos_per_sec())
        + " UTC"@
}

/// Writes an instant with chrono's `Display` for `DateTime<Utc>` (through
/// `ToString::to_string`), which writes it as [`utc_datetime_text`] says.
#[verifier::external_body]
fn display_datetime(t: &DateTime) -> (r: String)
    ensures
        r@ == utc_datetime_text(t@),
{
    chrono::DateTime::from_timestamp(t.timestamp(), t.timestamp_subsec_nanos()).unwrap().to_string()
}

/// `s` without the zeros at its end.
pub open spec fn trim_trailing_zeros(s: Seq<char>) -> Seq<char>
    decreases s.len(),
{
    if s.len() > 0 && s.last() == '0' {
        trim_trailing_zeros(s.drop_last())
    } else {
        s
    }
}

/// A duration of `v` nanoseconds in the ISO 8601 form that chrono writes:
/// `P0D` for none; otherwise a `-` for a negative one, then `PT`, the whole
/// seconds, the fraction of a second (nine digits without their trailing
/// zeros, after a `.`) where there is one, and `S`.
pub open spec fn iso_duration_text(v: int) -> Seq<char> {
    let a = if v < 0 {
        -v
    } else {
        v
    };
    let sign = if v < 0 {
        "-"@
    } else {
        ""@
    };
    let nanos = a % nanos_per_sec();
    if v == 0 {
        "P0D"@
    } else {
        sign + "PT"@ + decimal((a / nanos_per_sec()) as nat) + (if nanos > 0 {
            seq!['.'] + trim_trailing_zeros(zero_padded(nanos as nat, 9))
        } else {
            Seq::empty()
        }) + "S"@
    }
}

/// Writes a duration with chrono's `Display` for `TimeDelta` (through
/// `ToString::to_string`), which writes it in the ISO 8601 form of
/// [`iso_duration_text`].
#[verifier::external_body]
fn display_time_delta(d: &TimeDelta) -> (r: String)
    ensures
        r@ == iso_duration_text(d@),
{
    let (secs, nanos) = d.parts();
    chrono::TimeDelta::new(secs, nanos as u32).unwrap().to_string()
}

/// The column headers: all six, or the first four.
pub open spec fn headers(all_columns: bool) -> Seq<Seq<char>> {
    let all = seq![
        "Name"@,
        "Deadline"@,
        "Estimated duration"@,
        "Scheduled start"@,
        "Started at"@,
        "Finished at"@,
    ];
    if all_columns {
        all
    } else {
        all.take(4)
    }
}

/// The cell of an optional instant: its text, or `-`.
pub open spec fn instant_cell(t: Option<DateTime>) -> Seq<char> {
    match t {
        Some(x) => utc_datetime_text(x@),
        None => "-"@,
    }
}

/// The cells of a task's row: name, deadline, duration, scheduled start and,
/// with all columns, when it was started and finished.
pub open spec fn task_cells(t: Task, all_columns: bool) -> Seq<Seq<char>> {
    let all = seq![
        t.name@,
        instant_cell(t.deadline),
        match t.specified_duration {
            Some(d) => iso_duration_text(d@),
            None => "-"@,
        },
        instant_cell(t.scheduled_start),
        instant_cell(t.started_at),
        instant_cell(t.finished_at),
    ];
    if all_columns {
        all
    } else {
        all.take(4)
    }
}

/// The tasks listed: all, or only the unfinished ones.
pub open spec fn listed(tasks: Seq<Task>, only_undone_tasks: bool) -> Seq<Task> {
    if only_undone_tasks {
        select(tasks, Selection::Unfinished)
    } else {
        tasks
    }
}

/// The width of column `c`: the most characters in its header or in any of
/// the rows' cells in that column.
pub open spec fn column_width(header: Seq<char>, rows: Seq<Seq<Seq<char>>>, c: int) -> nat
    decreases rows.len(),
{
    if rows.len() == 0 {
        header.len()
    } else {
        let w = column_width(header, rows.drop_last(), c);
        if rows.last()[c].len() > w {
            rows.last()[c].len()
        } else {
            w
        }
    }
}

/// A cell padded to `w` characters: a lone `-` centred (the odd space on the
/// right), any other text on the left.
pub open spec fn padded(cell: Seq<char>, w: nat) -> Seq<char> {
    if cell == "-"@ {
        let pad: nat = if w > 1 {
            (w - 1) as nat
        } else {
            0
        };
        spaces(pad / 2) + cell + spaces((pad - pad / 2) as nat)
    } else {
        cell + spaces(
            if w > cell.len() {
                (w - cell.len()) as nat
            } else {
                0
            },
        )
    }
}

/// The first `k` cells of a row, each as `| ` then the padded cell then ` `.
pub open spec fn row_cells(cells: Seq<Seq<char>>, widths: Seq<nat>, k: int) -> Seq<char>
    decreases k,
{
    if k <= 0 {
        Seq::empty()
    } else {
        row_cells(cells, widths, k - 1) + "| "@ + padded(cells[k - 1], widths[k - 1]) + " "@
    }
}

/// A row of the table: the cells, then a closing `|`.
pub open spec fn row_text(cells: Seq<Seq<char>>, widths: Seq<nat>) -> Seq<char> {
    row_cells(cells, widths, cells.len() as int) + "|"@
}

/// A run of `n` dashes.
pub open spec fn dashes(n: nat) -> Seq<char> {
    Seq::new(n, |i: int| '-')
}

/// The lines of the table of `tasks`: the headers, a line of dashes under
/// each, and a row for each listed task, in order of deadline (tasks without
/// one first, tasks with equal deadlines in their given order).
pub open spec fn table_lines(tasks: Seq<Task>, only_undone_tasks: bool, all_columns: bool) -> Seq<
    Seq<char>,
> {
    let shown = listed(tasks, only_undone_tasks);
    let hs = headers(all_columns);
    let rows = shown.map_values(|t: Task| task_cells(t, all_columns));
    let widths = Seq::new(hs.len(), |c: int| column_width(hs[c], rows, c));
    let order = sort_by_key(shown, SortKey::Deadline);
    seq![row_text(hs, widths), row_text(Seq::new(hs.len(), |c: int| dashes(widths[c])), widths)]
        + order.map_values(|t: Task| row_text(task_cells(t, all_columns), widths))
}

/// The listing has a header line, a line of dashes, and then one row per
/// listed task, earlier deadlines first and tasks without a deadline before
/// all others.
pub proof fn listing_rows_follow_deadlines(tasks: Seq<Task>, only_undone_tasks: bool, all_columns: bool)
    ensures
        ({
            let shown = listed(tasks, only_undone_tasks);
            let order = sort_by_key(shown, SortKey::Deadline);
            let lines = table_lines(tasks, only_undone_tasks, all_columns);
            let hs = headers(all_columns);
            let widths = Seq::new(
                hs.len(),
                |c: int| column_width(hs[c], shown.map_values(|t: Task| task_cells(t, all_columns)), c),
            );
            &&& order.to_multiset() == shown.to_multiset()
            &&& lines.len() == shown.len() + 2
            &&& forall|i: int|
                0 <= i < shown.len() ==> lines[i + 2] == row_text(
                    task_cells(#[trigger] order[i], all_columns),
                    widths,
                )
            &&& forall|i: int, j: int|
                #![trigger order[i], order[j]]
                0 <= i < j < order.len() ==> match (order[i].deadline, order[j].deadline) {
                    (Some(x), Some(y)) => x@ <= y@,
                    (Some(_), None) => false,
                    (None, _) => true,
                }
        }),
{
    let shown = listed(tasks, only_undone_tasks);
    crate::sorting_orders_and_keeps_tasks(shown, SortKey::Deadline);
    crate::sorting_puts_earlier_deadlines_first(shown);
    vstd::seq_lib::to_multiset_len(shown);
    vstd::seq_lib::to_multiset_len(sort_by_key(shown, SortKey::Deadline));
}

fn header_cells(all_columns: bool) -> (r: Vec<String>)
    ensures
        r@.len() == headers(all_columns).len(),
        forall|c: int| 0 <= c < r@.len() ==> #[trigger] r@[c]@ == headers(all_columns)[c],
{
    let mut r: Vec<String> = Vec::new();
    r.push("Name".to_owned());
    r.push("Deadline".to_owned());
    r.push("Estimated duration".to_owned());
    r.push("Scheduled start".to_owned());
    if all_columns {
        r.push("Started at".to_owned());
        r.push("Finished at".to_owned());
    }
    r
}

fn instant_text(t: &Option<DateTime>) -> (r: String)
    ensures
        r@ == instant_cell(*t),
{
    match t {
        Some(x) => display_datetime(x),
        None => "-".to_owned(),
    }
}

fn cells_of(t: &Task, all_columns: bool) -> (r: Vec<String>)
    ensures
        r@.len() == task_cells(*t, all_columns).len(),
        forall|c: int| 0 <= c < r@.len() ==> #[trigger] r@[c]@ == task_cells(*t, all_columns)[c],
{
    let mut r: Vec<String> = Vec::new();
    r.push(t.name.clone());
    r.push(instant_text(&t.deadline));
    r.push(
        match &t.specified_duration {
            Some(d) => display_time_delta(d),
            None => "-".to_owned(),
        },
    );
    r.push(instant_text(&t.scheduled_start));
    if all_columns {
        r.push(instant_text(&t.started_at));
        r.push(instant_text(&t.finished_at));
    }
    r
}

/// Appends a cell padded to `w` characters.
fn push_padded(s: &mut String, cell: &str, w: usize)
    ensures
        final(s)@ == old(s)@ + padded(cell@, w as nat),
{
    if str_eq(cell, "-") {
        let pad: usize = if w > 1 {
            w - 1
        } else {
            0
        };
        push_spaces(s, pad / 2);
        s.append(cell);
        push_spaces(s, pad - pad / 2);
        assert(final(s)@ =~= old(s)@ + padded(cell@, w as nat));
    } else {
        let len = cell.unicode_len();
        s.append(cell);
        push_spaces(
            s,
            if w > len {
                w - len
            } else {
                0
            },
        );
        assert(final(s)@ =~= old(s)@ + padded(cell@, w as nat));
    }
}

/// Writes a row of cells padded to the given widths.
fn row(cells: &Vec<String>, widths: &Vec<usize>) -> (r: String)
    requires
        cells@.len() == widths@.len(),
    ensures
        r@ == row_text(cells@.map_values(|c: String| c@), widths@.map_values(|w: usize| w as nat)),
{
    let ghost cs = cells@.map_values(|c: String| c@);
    let ghost ws = widths@.map_values(|w: usize| w as nat);
    let mut s = String::new();
    let mut k: usize = 0;
    while k < cells.len()
        invariant
            cells@.len() == widths@.len(),
            k <= cells@.len(),
            cs == cells@.map_values(|c: String| c@),
            ws == widths@.map_values(|w: usize| w as nat),
            s@ == row_cells(cs, ws, k as int),
        decreases cells@.len() - k,
    {
        s.append("| ");
        push_padded(&mut s, cells[k].as_str(), widths[k]);
        s.append(" ");
        k = k + 1;
        assert(s@ =~= row_cells(cs, ws, k as int));
    }
    s.append("|");
    s
}

/// The lines of the task table, as `print_info_table` prints them: a row of
/// headers, a row of dashes, and a row per listed task in order of deadline,
/// each column as wide as its widest cell. `only_undone_tasks` leaves out
/// finished tasks; `show_all_columns` adds when each task was started and
/// finished.
pub fn info_table(tasks: Vec<Task>, only_undone_tasks: bool, show_all_columns: bool) -> (r: Vec<
    String,
>)
    ensures
        r@.len() == table_lines(tasks@, only_undone_tasks, show_all_columns).len(),
        forall|i: int|
            0 <= i < r@.len() ==> #[trigger] r@[i]@ == table_lines(
                tasks@,
                only_undone_tasks,
                show_all_columns,
            )[i],
{
    let ghost all = tasks@;
    let hs = header_cells(show_all_columns);
    let shown = if only_undone_tasks {
        select_tasks(tasks, Selection::Unfinished)
    } else {
        tasks
    };
    let ghost rows = shown@.map_values(|t: Task| task_cells(t, show_all_columns));
    let ghost hv = headers(show_all_columns);
    let mut widths: Vec<usize> = Vec::new();
    let mut c: usize = 0;
    while c < hs.len()
        invariant
            hs@.len() == hv.len(),
            forall|j: int| 0 <= j < hs@.len() ==> #[trigger] hs@[j]@ == hv[j],
            c <= hs@.len(),
            widths@.len() == c,
            forall|j: int| 0 <= j < c ==> #[trigger] widths@[j] == hv[j].len(),
        decreases hs@.len() - c,
    {
        widths.push(hs[c].as_str().unicode_len());
        c = c + 1;
    }
    let mut k: usize = 0;
    while k < shown.len()
        invariant
            hs@.len() == hv.len(),
            hv.len() == 4 || hv.len() == 6,
            hv.len() == 6 <==> show_all_columns,
            widths@.len() == hv.len(),
            k <= shown@.len(),
            rows == shown@.map_values(|t: Task| task_cells(t, show_all_columns)),
            forall|j: int|
                0 <= j < hv.len() ==> #[trigger] widths@[j] == column_width(
                    hv[j],
                    rows.take(k as int),
                    j,
                ),
        decreases shown@.len() - k,
    {
        let cells = cells_of(&shown[k], show_all_columns);
        proof {
            assert(rows.take(k + 1).drop_last() =~= rows.take(k as int));
            assert(rows.take(k + 1).last() == task_cells(shown@[k as int], show_all_columns));
        }
        let ghost before = widths@;
        let mut j: usize = 0;
        while j < widths.len()
            invariant
                widths@.len() == hv.len(),
                before.len() == hv.len(),
                cells@.len() == hv.len(),
                k < shown@.len(),
                rows.take(k + 1).len() == k + 1,
                j <= widths@.len(),
                forall|m: int|
                    0 <= m < cells@.len() ==> #[trigger] cells@[m]@ == task_cells(
                        shown@[k as int],
                        show_all_columns,
                    )[m],
                forall|m: int|
                    0 <= m < hv.len() ==> #[trigger] widths@[m] == if m < j {
                        column_width(hv[m], rows.take(k + 1), m) as int
                    } else {
                        before[m] as int
                    },
                forall|m: int|
                    0 <= m < hv.len() ==> #[trigger] before[m] == column_width(
                        hv[m],
                        rows.take(k as int),
                        m,
                    ),
                rows.take(k + 1).drop_last() == rows.take(k as int),
                rows.take(k + 1).last() == task_cells(shown@[k as int], show_all_columns),
            decreases widths@.len() - j,
        {
            let len = cells[j].as_str().unicode_len();
            proof {
                let w0 = column_width(hv[j as int], rows.take(k as int), j as int);
                assert(column_width(hv[j as int], rows.take(k + 1), j as int) == if rows.take(
                    k + 1,
                ).last()[j as int].len() > w0 {
                    rows.take(k + 1).last()[j as int].len()
                } else {
                    w0
                });
            }
            if len > widths[j] {
                widths.set(j, len);
            }
            j = j + 1;
        }
        k = k + 1;
    }
    proof {
        assert(rows.take(shown@.len() as int) =~= rows);
    }
    let ghost ws = widths@.map_values(|w: usize| w as nat);
    let ghost spec_ws = Seq::new(hv.len(), |c: int| column_width(hv[c], rows, c));
    assert(ws =~= spec_ws);
    let mut lines: Vec<String> = Vec::new();
    lines.push(row(&hs, &widths));
    proof {
        assert(hs@.map_values(|c: String| c@) =~= hv);
    }
    let mut seps: Vec<String> = Vec::new();
    let mut c: usize = 0;
    while c < widths.len()
        invariant
            c <= widths@.len(),
            seps@.len() == c,
            forall|j: int| 0 <= j < c ==> #[trigger] seps@[j]@ == dashes(widths@[j] as nat),
        decreases widths@.len() - c,
    {
        let mut d = String::new();
        let mut n: usize = 0;
        while n < widths[c]
            invariant
                c < widths@.len(),
                n <= widths@[c as int],
                d@ == dashes(n as nat),
            decreases widths@[c as int] - n,
        {
            push_char(&mut d, '-');
            n = n + 1;
            assert(d@ =~= dashes(n as nat));
        }
        seps.push(d);
        c = c + 1;
    }
    lines.push(row(&seps, &widths));
    proof {
        assert(seps@.map_values(|c: String| c@) =~= Seq::new(
            hv.len(),
            |c: int| dashes(spec_ws[c]),
        ));
    }
    let ghost shown_all = shown@;
    let sorted = sort_tasks(shown, SortKey::Deadline);
    let mut k: usize = 0;
    while k < sorted.len()
        invariant
            k <= sorted@.len(),
            lines@.len() == 2 + k,
            widths@.len() == hv.len(),
            ws == widths@.map_values(|w: usize| w as nat),
            ws == spec_ws,
            spec_ws == Seq::new(hv.len(), |c: int| column_width(hv[c], rows, c)),
            hv == headers(show_all_columns),
            rows == shown_all.map_values(|t: Task| task_cells(t, show_all_columns)),
            sorted@ == sort_by_key(shown_all, SortKey::Deadline),
            shown_all == listed(all, only_undone_tasks),
            lines@[0]@ == row_text(hv, spec_ws),
            lines@[1]@ == row_text(Seq::new(hv.len(), |c: int| dashes(spec_ws[c])), spec_ws),
            forall|i: int|
                0 <= i < k ==> #[trigger] lines@[2 + i]@ == row_text(
                    task_cells(sorted@[i], show_all_columns),
                    spec_ws,
                ),
        decreases sorted@.len() - k,
    {
        let cells = cells_of(&sorted[k], show_all_columns);
        proof {
            assert(cells@.map_values(|c: String| c@) =~= task_cells(sorted@[k as int], show_all_columns));
        }
        lines.push(row(&cells, &widths));
        k = k + 1;
    }
    proof {
        let t = table_lines(all, only_undone_tasks, show_all_columns);
        assert(t.len() == lines@.len());
        assert forall|i: int| 0 <= i < lines@.len() implies #[trigger] lines@[i]@ == t[i] by {
            if i >= 2 {
                assert(lines@[2 + (i - 2)]@ == row_text(
                    task_cells(sorted@[i - 2], show_all_columns),
                    spec_ws,
                ));
            }
        }
    }
    lines
}

/// The characters in a row whose first `k` cells fit their widths.
pub open spec fn row_width(widths: Seq<nat>, k: int) -> int
    decreases k,
{
    if k <= 0 {
        0
    } else {
        row_width(widths, k - 1) + widths[k - 1] + 3
    }
}

proof fn lemma_padded_len(cell: Seq<char>, w: nat)
    requires
        cell.len() <= w,
    ensures
        padded(cell, w).len() == w,
{
    reveal_strlit("-");
}

proof fn lemma_row_len(cells: Seq<Seq<char>>, widths: Seq<nat>, k: int)
    requires
        0 <= k <= cells.len(),
        k <= widths.len(),
        forall|c: int| 0 <= c < k ==> #[trigger] cells[c].len() <= widths[c],
    ensures
        row_cells(cells, widths, k).len() == row_width(widths, k),
    decreases k,
{
    reveal_strlit("| ");
    reveal_strlit(" ");
    if k > 0 {
        lemma_row_len(cells, widths, k - 1);
        lemma_padded_len(cells[k - 1], widths[k - 1]);
    }
}

proof fn lemma_column_width_bounds(header: Seq<char>, rows: Seq<Seq<Seq<char>>>, c: int)
    ensures
        header.len() <= column_width(header, rows, c),
        forall|i: int| 0 <= i < rows.len() ==> #[trigger] rows[i][c].len() <= column_width(header, rows, c),
    decreases rows.len(),
{
    if rows.len() > 0 {
        lemma_column_width_bounds(header, rows.drop_last(), c);
        assert forall|i: int| 0 <= i < rows.len() implies #[trigger] rows[i][c].len() <= column_width(header, rows, c) by {
            if i < rows.len() - 1 {
                assert(rows[i] == rows.drop_last()[i]);
            }
        }
    }
}

/// Every line of the task table has the same length: each cell is padded to
/// the width of its column, which no cell exceeds.
pub proof fn table_lines_are_aligned(tasks: Seq<Task>, only_undone_tasks: bool, all_columns: bool)
    ensures
        forall|i: int, j: int|
            0 <= i < table_lines(tasks, only_undone_tasks, all_columns).len() && 0 <= j
                < table_lines(tasks, only_undone_tasks, all_columns).len() ==> #[trigger] table_lines(
                tasks,
                only_undone_tasks,
                all_columns,
            )[i].len() == #[trigger] table_lines(tasks, only_undone_tasks, all_columns)[j].len(),
{
    broadcast use vstd::seq_lib::to_multiset_contains;

    reveal_strlit("|");
    let shown = listed(tasks, only_undone_tasks);
    let hs = headers(all_columns);
    let rows = shown.map_values(|t: Task| task_cells(t, all_columns));
    let widths = Seq::new(hs.len(), |c: int| column_width(hs[c], rows, c));
    let order = sort_by_key(shown, SortKey::Deadline);
    let lines = table_lines(tasks, only_undone_tasks, all_columns);
    let full = row_width(widths, hs.len() as int) + 1;
    assert forall|c: int| 0 <= c < hs.len() implies {
        &&& hs[c].len() <= #[trigger] widths[c]
        &&& forall|i: int| 0 <= i < rows.len() ==> #[trigger] rows[i][c].len() <= widths[c]
    } by {
        lemma_column_width_bounds(hs[c], rows, c);
    }
    lemma_row_len(hs, widths, hs.len() as int);
    let seps = Seq::new(hs.len(), |c: int| dashes(widths[c]));
    lemma_row_len(seps, widths, hs.len() as int);
    crate::sorting_orders_and_keeps_tasks(shown, SortKey::Deadline);
    assert forall|k: int| 0 <= k < order.len() implies #[trigger] row_text(
        task_cells(order[k], all_columns),
        widths,
    ).len() == full by {
        let t = order[k];
        assert(order.contains(t));
        assert(order.to_multiset().count(t) > 0);
        assert(shown.contains(t));
        let idx = choose|idx: int| 0 <= idx < shown.len() && shown[idx] == t;
        assert(rows[idx] == task_cells(t, all_columns));
        let cells = task_cells(t, all_columns);
        assert forall|c: int| 0 <= c < hs.len() implies #[trigger] cells[c].len() <= widths[c] by {
            assert(rows[idx][c].len() <= widths[c]);
        }
        lemma_row_len(cells, widths, hs.len() as int);
    }
    assert forall|i: int| 0 <= i < lines.len() implies #[trigger] lines[i].len() == full by {
        if i >= 2 {
            assert(lines[i] == row_text(task_cells(order[i - 2], all_columns), widths));
        }
    }
}

} // verus!
