# workmux sidebar data layer

The data layer of the workmux sidebar: the rows of the hierarchical sidebar
list (session → worktree → pane), the parsers of Squad's state files, and the
decisions of the sidebar daemon's lifecycle, written in Verus with their
contracts proved.

- `src/text.rs` — whitespace, trimming, splitting, joining and the order of
  character sequences.
- `src/agent.rs` — agent statuses and how they combine into a group aggregate.
- `src/data_source.rs` — sidebar rows, worktree keys, the data source type.
- `src/squad.rs` — Squad's records, the parsers of `window-states`,
  `worktrees` and `<id>.meta`, and the per-pane rows.
- `src/sort.rs` — the stable insertion sort that orders the lists.
- `src/hierarchy.rs` — derived worktree groups and the hierarchy itself.
- `src/hierarchy_laws.rs` — what holds of every hierarchy: the sessions and
  groups listed, each task listed once, labels, orders, and independence of
  the order of the inputs.
- `src/hierarchy_flat.rs` — the hierarchy read as the flat list the sidebar
  draws: counts, aggregates and owners of each session and worktree row.
- `src/daemon_ctrl.rs` — the daemon's arguments, recorded pid and socket wait.
- `app/` — file and process I/O, the `DataSource` trait, serde forms.
