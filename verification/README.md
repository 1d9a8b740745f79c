# task_graph

The coordination rules of a multi-agent task graph, verified with Verus:
task updates and their claim/release/complete/assign rules, dependency
checks (type, single parent, cycles) and the dependency graph around a
task, task-tree creation plans (with per-node `then`/`also` join
modes), snapshot export, import previews,
remapping, migration and diffing, templates, file-claim polling,
the activity feed, and the markdown renderings of tasks and workers.

## Layout

- `src/` — the verified library. Each module states its functions'
  behaviour in `requires`/`ensures` over mathematical models (`Seq`, `int`,
  views) and proves it; the laws that span several functions are public
  `proof fn`s named `lemma_*`.
- `tests/` — tests run against the compiled library.
- `app/` — the parts that read and write files (gzip/JSON snapshots,
  template directories), convert to and from `serde_json` and `tracing`,
  compare numbers as floating point, and the SQLite store (`app/store.rs`)
  for task trees, dependencies, imports and their previews, the activity
  feed and state counts.

The library's `plan_*` and `check_*` functions take what the store read and
return what it must write; the store only runs the queries.
