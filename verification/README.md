# flo

A hierarchical task manager with frame navigation, experience sampling and
spaced-repetition review of deferred tasks. Every task is a frame: you enter
it, see its children, and work there.

The library (`src/`) is verified with Verus. It holds the task database and
its rules (a forest of tasks with unique ids and no cycles, at most three
focused tasks, review intervals between 7 and 90 days), every query the
server answers, the decisions of the command line and of the terminal
interface (key map, text fields, list and tree views, repositioning plans,
undo steps), and the laws relating these operations (`src/laws.rs`).

The program (`app/`) is plain Rust around the library: argument parsing,
the HTTP server and client, the SQLite file, and the terminal drawing.

- `src/model.rs` records; `src/store.rs`, `src/db.rs`, `src/query.rs` the database
- `src/sort.rs`, `src/text.rs`, `src/clock.rs` orderings, text and time
- `src/cli.rs` command-line decisions; `src/api.rs` HTTP statuses
- `src/keys.rs`, `src/text_input.rs`, `src/tui.rs`, `src/view.rs`, `src/plan.rs`,
  `src/notes.rs`, `src/undo.rs` the terminal interface's decisions
- `src/laws.rs` properties that span several operations
