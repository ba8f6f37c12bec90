# canopy

The logic of the Canopy game engine, verified with Verus.

- `src/ecs` — entities (generation-tagged handles over a slot map), sparse-set
  component storage, archetypes, the world, deferred command buffers, access
  conflicts and stage-ordered system scheduling.
- `src/assets` — the `.canasset` container format (header, section table,
  section lookup), asset ids and handles, and the asset server's registry
  (one id per path, load states, memory in use).
- `src/platform` — key codes (and the key a typed character stands for), the
  per-frame key/button snapshot, the window's event decisions (cursor
  capture, sizes, shutdown), and the platform events it queues.
- `src/renderer` — debug-toolkit toggles, asset classification, the
  per-class breakdown of visible entities, and GPU resource bookkeeping with
  LRU eviction under a memory budget.
- `src/world` — chunk coordinates and the chunks to stream: those near the
  camera's chunk or its look-ahead chunk, nearest first.
- `src/pathfinding.rs` — A* search over a directed tile graph: every path it
  returns is a walk from start to goal, it finds one whenever one exists, and
  under a consistent heuristic it is a shortest one.
- `src/script` — key names as scripts write them.
- `src/app_core` — log levels and the stage enum of the application.
- `src/sim` — agent, budget-zone and economy enums.
- `src/text.rs` — comparison of texts by their characters.
- `src/outside` — the declarations and trusted wrappers through which the
  verified code calls `slotmap`, `ahash`, `smallvec` and a few std functions.

`app/` holds what stays outside verification: process-wide registries, file
I/O and threads, `tracing`, `thiserror` error types, and the floating-point
parts (frame timing, chunk positions, terrain noise, frame metrics).
