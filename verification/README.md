# bpm_engine

A small process (workflow) engine whose core is verified with Verus.

A process definition is a graph of start, task, gateway and end nodes, built
with `ProcessBuilder`. `ProcessEngine` deploys definitions and runs instances:
tokens move through the graph, parallel gateways fork and join paths, and
command tasks hand a program to run to the caller and take its output back.

Layout:

- `src/` — the verified library.
  - `model.rs`: definitions, instances, and the spec functions `step` and
    `run` that say what executing an instance means; laws about them
    (token accounting, what a step leaves unchanged, joins).
  - `engine.rs`: the engine, proved against `step` and `run`.
  - `builder.rs`: the definition builder.
  - `strmap.rs`: a string-keyed map in insertion order, viewed as a `Map`.
  - `text.rs`: trimming, the line format of command output
    (`VAR:name=value`, `name=value`), decimal exit codes, `${name}` arguments.
  - `tasks/`: nodes, task configuration, context, output and handlers.
  - `ids.rs`: instance ids (`instance_` and a random version-4 UUID).
  - `persistence.rs`: how instance states are named in a store.
- `app/` — the program around it: running command programs, the async store
  interface and its Postgres implementation, serde records, and the examples.
- `tests/` — tests of the library.
