# tim

A small task planner. Tasks have a name, an optional deadline and an optional
duration. They are scheduled one after another into working hours (09:00 to
18:00 UTC), soonest deadline first, and listed as a table. Deadlines and
durations are written as time expressions such as `now+2h`, `tmr+9:30` or
`24.12.2024`.

The library is written in Verus and its behaviour is proved against its
contracts.

## Layout

- `src/`: the verified library.
  - `time.rs`: instants, dates, times of day and durations, held as integers
    with chrono's ranges.
  - `text.rs`: numerals, padding, splitting and parsing of whole numbers.
  - `fmt.rs`: durations and local clock readings as text, and the Gregorian
    calendar.
  - `interval.rs`: intervals of time and their overlap.
  - `util.rs`: the current instant and the local clock.
  - `expr.rs`: time expressions, how they are read and what they stand for.
  - `table.rs`: the task table.
  - `data.rs`: a task record with an estimated duration.
  - `lib.rs`: tasks, choosing and ordering them, and scheduling.
- `tests/`: tests of the library.
- `app/`: the command-line program: arguments, task files and printing.

Calls into chrono and regex stand behind small trusted functions whose
contracts say what those crates do; everything else is proved.
