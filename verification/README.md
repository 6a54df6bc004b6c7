# flax

An entity component system whose queries, filters, change tracking, hierarchy traversals and
system scheduling are proved correct with Verus.

## Layout

- `src/` — the verified library.
  - `world.rs`, `archetype.rs`, `entity.rs`, `changes.rs`, `slice.rs`: the world of entities,
    stored by archetype, with the change ticks of every component. A component is itself an
    entity, created on first use with its name and description, and hidden from queries that
    do not ask for components.
  - `fetch/`: what a query reads from each archetype (components, ids, options, sources,
    relations, comparisons, transforms into change filters).
  - `filter/`: archetype and slot filters, change cursors, set combinators.
  - `query/`: planar queries, single-entity queries, set differences, the forest depth-first
    strategy (`query::Dfs`) and the topological strategy (`query::Topo`).
  - `hierarchy/`: depth-first traversal from a single root.
  - `schedule/`: accesses (fixed ones, and those of a system's queries computed against the
    world's archetypes), dependency batches and sequential execution of systems.
  - `format.rs`, `metadata.rs`, `text.rs`: formatting of worlds and hierarchies.
  - `notify.rs`: the state machine of the notification signal.
- `app/` — what runs outside the proofs: parallel execution of schedule batches on rayon, and
  the wakers of the notification futures.
- `tests/` — tests of the library.
