# workflow_core

A scheduler for task workflows, verified with Verus.

A `Workflow` holds tasks with dependencies. `Workflow::run` gives a `Run`, a state
machine: `Run::action` says what the program has to do next (spawn a process, store the
statuses, sleep, ...), and `Run::handle` takes what came of it. The contract of `handle`
is a transition function on mathematical values, and `src/laws.rs` proves what follows
for every sequence of events:

- a task is started after all that it depends on has completed, and at most once;
- never are more tasks in flight than the workflow allows;
- in a run that ends with a summary, a task that could be run is left out exactly where
  one that it depends on has failed or was left out;
- a run that begins with no task marked as running does not get stuck, and the summary
  of a run names every task exactly once;
- an interrupt puts what was in flight back to pending;
- a run uses up the tasks that it takes up, and what depends on them goes with them; a
  workflow that has been run to its end and is run again from the statuses that it ended
  with starts nothing, changes no status and ends with a summary;
- what has been stored is up to date at the beginning and the end of every round.

## Layout

- `src/`: the library. `model.rs` is the transition function, `run.rs` its
  implementation, `reachable.rs` the invariant of runs, `history.rs` what becomes of the
  statuses that a run began with, `laws.rs` the laws;
  `workflow.rs`, `task.rs`, `dag.rs`, `state.rs`, `skips.rs`, `remains.rs`, `summary.rs`,
  `monitoring.rs` and `path.rs` hold the parts, and `sweep.rs` the tasks of a parameter
  sweep.
- `tests/`: tests on concrete values.
- `app/`: a program that carries out a parameter sweep with processes, files and signals.

The library has one unverified function, a call of `std::path::Path::is_absolute`, and
claims nothing of its result.
