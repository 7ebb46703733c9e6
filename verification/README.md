# fusion-core

The shared core of the Fusion HTTP framework, written in Verus. The logic in
`src/` carries contracts that Verus proves; the small wrappers that call
serde_json, moka, Tera and std have contracts that are assumed, as their doc
comments say, and the clock reading `now_unix_ms` has none.

- `src/` — the library: route naming, header helpers, query and pagination
  parsing, the routing table and dispatch, parameter coercion and binding,
  response envelopes, settings lookup and loading, the moka-backed cache and
  its monitor panel, template engine caching (Tera), background-task
  bookkeeping, and the proved laws about them (`law_*` proof functions).
- `app/` — the host side: the hyper server, files and the process
  environment, the task runtime, process-wide state, and the demo `main`.
- `tests/` — executable tests of the library.

Calls into serde_json, moka and Tera go through small trusted wrappers whose
doc comments say what each one assumes of the outside crate.
