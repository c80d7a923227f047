# gizmo_graph_db

A small graph database written in Verus: quads
(subject, predicate, object, label) kept in a store, iterators that list and
check sets of nodes, and a query language ("gizmo") that builds those
iterators from paths such as `g.v(x).out(p).has(q, y)`.

Layout:

- `src/graph/` — values, references, quads and the `QuadStore` interface; a
  list-backed store (`graphmock`) and an indexed in-memory store
  (`memstore`); the iterators (`iterator/`: and, or, not, fixed, limit, skip,
  unique, count, sort, materialize, save, value filters, resolver, recursive
  walks) with their cost estimates and optimizer.
- `src/query/` — query shapes, morphisms, paths, value filters, and the gizmo
  front end with its sessions.
- `tests/` — the test suites of the iterators, of the stores and of gizmo.
- `app/` — a small program that loads an example graph and runs a query.

The steps of the scanners and indexes are described by relations
(`next_step`, `path_step`, `contains_step` in `src/graph/iterator.rs`): for
the empty and fixed iterators exactly, and for the composite ones in terms
of the steps their parts took (an intersection moves its primary scanner
past the results its index declines, a union steps its current sub-scanner
and leaves the others alone, a skip passes over exactly its count of
results, a walk lists what a run of its scanner lists). The stores state
what a batch of changes does to their set of quads; the laws that relate
several operations stand as proof functions beside them.
