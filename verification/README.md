# ember_sgm_backend

A subgraph-matching engine whose core is verified with Verus. A matching plan
names pattern vertices and edges and a list of instructions (`Init`, `GetAdj`,
`Intersect`, `Foreach`, `Report`); running them grows partial matches out of a
graph store until the final merge keeps the graphs that match the whole
pattern.

## Layout

- `src/` — the verified library.
  - `vars.rs` — plan variables (`<prefix>@<name>`) and their parts.
  - `keys.rs` — the byte order of ids and three-way comparison.
  - `schemas.rs` — pattern and data vertices and edges, attribute constraints,
    instructions and plans.
  - `maps.rs` — the hash maps, sets and index maps that the engine keeps,
    each behind a small contract over the map's contents.
  - `dyn_graph.rs` — partial matches and their union, with its laws.
  - `expand_graph.rs` — a partial match being expanded: dangling edges
    grouped by the vertex they reach, confirmed target vertices, and the
    meeting of two expansions on a common vertex.
  - `buckets.rs` — the F-, A-, C- and T-buckets and how one is built from
    another.
  - `adjacency.rs` — `GetAdj`: the loads it needs and how their results
    become expansions.
  - `matching_ctx.rs` — the matching context and its four blocks.
  - `operators.rs` — instructions as steps on the context.
  - `report.rs` — which graphs are partial or whole matches, and the final
    merge.
  - `cypher.rs` — the queries sent to the graph store.
  - `dump.rs` — the columns of a result table.
- `tests/` — tests of the library on concrete values.
- `app/` — the program around the library: the Neo4j adapter, the JSON form
  of plans, the asynchronous operators and engine, and result tables.

## Running

Verus verifies `src/` as a library crate. The program in `app/` reads `NEO4J_URI`,
`NEO4J_USERNAME`, `NEO4J_PASSWORD` and `NEO4J_DATABASE` from the environment
(or a `.env` file) and runs a plan from `resources/plan/`.
