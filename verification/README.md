# combat_demo

The verified core of a deterministic 2D combat simulation.

- `src/common/` — a dense generational arena (`dense_arena`, the library's
  own in place of a slot map crate, since the lists hold items of any type
  and need the arena's contents specified for each), many doubly
  linked lists sharing one arena (`list_arena`), fixed-point numbers backed by
  the `fixed` crate (`fixed`), and nanosecond time (`time`).
- `src/simulation/` — the simulation's tick loop (`mod.rs`), the lossy queue
  of snapshots for rendering (`view_buffer`), the ECS world and schedule it
  drives (`world`), what actions answer (`action`), and per-entity steps of the ECS systems: velocity sources,
  movement intent, forces and physics modifier lists (`ecs/`).
- `app/` — the program: the simulation thread, channels, the render loop,
  ECS components and the floating-point physics systems.
- `tests/` — tests of the library.
