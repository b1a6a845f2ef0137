# comp_state

State for UI components that persists between renders. Each component's
call scope (a `topo::CallId`) gets a handle; the state of each value type is
kept in a `StateMap<T>` under the table key that the shared `Store` gives the
handle when it registers it (with a slot in a `slotmap`). Contexts not
touched between a reset and the next purge lose their registration, and with
it their state; table keys are never given out twice, so a context
registered later never sees what a purged one left in a table.

- `src/` is the verified library: `store` (registry, state tables, purge),
  `state_functions` and `state_access` (the public state API), `id_tree`
  (a tree of contexts), `components` and `changes` (decisions of the example
  components), `laws` (properties spanning several operations), and the
  trusted boundary to `slotmap` (`slots`) and `topo` (`topo_ids`).
- `app/` is the Seed front end: a thread-local store and the example
  components.
- `tests/` runs the library on concrete values.
