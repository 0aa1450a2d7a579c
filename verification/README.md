# upstroke — the sequential topology, verified

The part of the `upstroke` engine that moves one task at a time through its
generations: dispatching a worktree, starting an attempt, capturing and
judging what the worker left, promoting a judged candidate, closing the run,
appending every step to the topology log, and keeping the fault-injection
registry that says which test crosses which effect site. Every function in
`src/` carries a Verus contract, and the laws the engine promises are proof
functions next to the code they speak of.

## Layout

- `src/` — the verified library.
  - `model`, `fold` — the topology events and the fold that derives state
    from them; `journal`, `emit` — appending an event, and the append-error
    protocol when an entered append fails.
  - `effects` — the effect sites and the hooks that observe or fail them;
    `refs`, `workspace` — the repository and the worktrees the engine owns.
  - `dispatch`, `attempt`, `candidate`, `closure` — the life of a
    generation: dispatch, attempts and their judgement, promotion of the
    judged candidate, and run-end closure.
  - `identity`, `runner`, `review`, `resolution` — process identities and
    their accounting, the runner and review passes users implement, the
    failures a judgement reports, and conflict-resolution declarations.
  - `json` — a JSON document read one level at a time, as serde_json
    parses it; the residue declarations are read through it.
  - `coverage` — the fault registry, the residue evidence, and the replay of
    observation records; `records` — gathering the exported observation
    records, one per test, in the order of the tests' names.
- `tests/` — scenarios run against the compiled library.
- `app/` — the host side: the JSON documents (with `serde`), the files they
  are read from and written to, and the errors with `Display` (with
  `thiserror`).
