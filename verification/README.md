# pg_search heap filtering

Search results of the indexed (tantivy) query are filtered against the
PostgreSQL heap: each document's ctid is looked up, every heap filter
evaluates its stored expression against the heap tuple, and only documents
that pass all filters are returned.

- `src/` — the verified decisions, written as state machines that take what
  PostgreSQL and tantivy report and say what to do next:
  - `filter.rs`: one evaluation of a heap filter (fetch, expression context,
    cached expression state, verdict, and the release of every resource);
  - `scorer.rs`: the scorer that keeps the passing documents in order;
  - `visibility.rs`: running a closure only on visible tuples;
  - `docset.rs`: tantivy's end-of-set sentinel.
- `app/` — the PostgreSQL (pgrx) calls and the tantivy `Query`, `Weight`,
  `Scorer` and `DocSet` impls that perform those actions.
- `tests/` — scripted runs of the machines.
