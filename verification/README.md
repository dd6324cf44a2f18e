# byoridb_executor

Query-execution logic of a graph database, written in Verus: the executable
code carries `requires`/`ensures` contracts and is proved against them.

## Layout

- `src/` — the verified library.
  - `value`, `expr`, `eval_spec`, `eval`, `eval_laws` — runtime values, the
    expression language, its meaning under three-valued logic, the evaluator
    and the laws it obeys.
  - `text`, `error` — character-level string operations, decimal rendering and
    parsing, and execution errors.
  - `traversal`, `all_paths` — shortest-path searches (one path, all minimum-hop
    paths) as step machines fed one neighbor list at a time.
  - `lookup` — LOOKUP windows, predicate extraction and id deduplication.
  - `keys` — the storage key layout and its parsers, with round-trip laws.
  - `auth` — role checks and the decisions of user-management statements.
  - `inference`, `materialize`, `sameas`, `provenance` — semantic relation
    metadata, forward-chaining materialization, `sameAs` canonical merging, and
    the justification walk behind `WHY`.
  - `go`, `records` — the GO walk (per-source breadth-first expansion with its
    distance laws), WHERE contexts and YIELD values over stored vertices and
    edges.
  - `find`, `fetch`, `dml` — FIND PATH planning, FETCH id selection, and the
    decisions of UPDATE / DELETE (conditions, tag updates, property checks).
  - `shape`, `ddl`, `schema` — shape constraints, ALTER and DDL rendering, and
    the decisions of CREATE/DROP CLASS, CREATE EDGE and disjointness checks.
  - `context`, `config`, `result` — per-query state, execution /
    distributed-query settings, partition bookkeeping, and result tables.
  - `sorting`, `show`, `stats`, `meta_tables` — name ordering and the SHOW /
    DESCRIBE listings, SHOW STATS counts, and space, partition, host and
    index tables.
  - `collapse`, `degree` — moving a merged-away vertex's edges onto its
    representative, and the edge-degree counters kept by edge writes.
  - `writes`, `tables` — the checks and the batch of writes of INSERT and
    UPDATE VERTEX (current record, history version, tag markers), and the
    WHY, SHOW USERS and CHECK CONSISTENCY result tables.
- `tests/` — tests run against the compiled library.
- `app/` — drivers that run the step machines against a graph store (paths,
  GO, FIND, materialization, WHY), statement drivers over a key-value store
  (INSERT, UPDATE, DELETE, DROP, CREATE/DROP CLASS, GRANT, CREATE USER, SHOW
  USERS, FETCH), and the weighted (floating-point) shortest path.

Graph reads and writes are never made by the library: each algorithm is a step
machine that asks for what it needs (a neighbor list, an existence check, a
write) and is fed the answer, so its decisions are verified for every answer.
