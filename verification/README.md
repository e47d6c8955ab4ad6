# calenpomo

The core of CalenPomo, a local-first week calendar and pomodoro timer that
keeps everything in plain files in a directory the user chooses (the vault),
written in Verus: each function states what it does in `requires` /
`ensures`, and Verus proves it.

- `src/` is the library. The timer's state machine and the laws it keeps
  (`timer.rs`, `timer_laws.rs`); the calendar shards, the choice between two
  copies of one event, the blocks a window draws and the edits that move an
  event between month files (`calendar/`); the session records and the day
  files they live in (`sessions.rs`, `days.rs`); the JSONL framing and the
  staged writes (`fs_atomic.rs`); the vault's layout, the settings, the
  app's state, the OS integrations' decisions and the command line's text.
  Calls into `chrono`, `chrono-tz` and `icalendar` go through small trusted
  wrappers whose contracts say what those crates promise. An `icalendar`
  calendar is seen through its components and its own properties, and a
  VEVENT through its properties by name, their parameters, and the
  properties that may repeat (`calendar/ics.rs`), so that what an edit does
  to a shard, and what the week view reads off a VEVENT, is stated over
  plain values.
- `app/` is the `calpo` command line around it: arguments, the file system,
  the clock, the local socket to the running app, and the serde formats on
  disk.
- `tests/` runs the library on concrete scenarios.
