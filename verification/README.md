# cond

`cond` runs parallel development tasks in Git worktrees: each task gets a branch
`cond/task-<id>-<slug>` and a worktree `.cond-worktrees/task-<id>`, and moves through
the statuses active, pr_created, merged and cleaned. State lives in `.cond/state.json`.

## Layout

- `src/` — the verified library (Verus):
  - `util.rs` — slugs (`slugify`, with the shape of every slug proved), default-branch
    detection as a step function, confirmation answers.
  - `state.rs` — tasks and state, resolving a query to a task by ID or by name.
  - `task.rs` — spawning, killing, pruning, the status table, and their laws.
  - `review.rs` — review prompt, pull request creation and merging.
  - `init.rs` — initial state and `.gitignore` maintenance.
  - `shell.rs` — the shell function and the choice of rc file.
  - `text.rs`, `paths.rs`, `invocation.rs`, `error.rs` — characters and numbers, path
    joining, commands to run, error messages.
- `app/` — the command line program: argument parsing, running git/gh, files,
  the JSON form of the state.
- `tests/` — tests of the library.

The library decides; the program performs. Commands that must run outside programs
are planned by the library (`plan_*`), run by the program, and recorded by the
library (`record_*`, `mark_cleaned`).
