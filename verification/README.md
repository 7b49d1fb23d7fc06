# taskkit

A task execution framework: tasks and their state machine, workflows with
dependency DAGs, schedules and cron expressions, recipes with variable
interpolation, command-line argument forwarding, result caching with a
time to live, debouncing of file-change events, and dependency-graph
rendering (DOT and Mermaid).

The library under `src/` is written in Verus and verified: functions state
what they compute in their contracts, with two kinds of exceptions: the
constructors of unit types, whose one value needs no statement, and what
depends on the methods of traits that users implement (plugin lookups say
which registered plugin comes back, not what its `can_handle` or `name`
answered). The laws that tie functions together
(topological orders, layered DAGs, cache read-back, debouncing, retry
backoff, cron search) are stated and proved as public proof functions.

- `src/domain/` – tasks, workflows, DAGs, schedules, recipes, plugins,
  events and errors.
- `src/application/` – commands and queries, argument forwarding, imports
  (directives, the stack of files being resolved, merging), graph rendering
  and the watcher's debouncing.
- `src/cron_parser.rs`, `src/cron_parser_spike.rs` – cron expressions.
- `src/infrastructure/cache.rs` – the result cache.
- `src/external.rs` – the few calls into outside crates (clock, UUIDs,
  JSON values, calendar fields), each with the contract it is trusted for.
- `app/` – the `taskkit` command: files, processes, the clock, async
  runtimes, serialization, and the command line.
- `tests/` – tests of the library.
