# datafusion_query_cache

A cache for time-series aggregates, by time interval.

An aggregation over a filter that fixes a time interval is cached under a key that leaves the bounds
of the interval out. A later query of the same shape reads what the cache has for its own interval
and computes only the gaps.

- `src/` is the library, verified with Verus. `src/lib.rs` says what each module does.
- `tests/` runs the library, with the crates that it calls.
- `app/` makes the library an extension of DataFusion: it turns plans and expressions into the form
  that the library reads and back, awaits the cache, and runs the plans.

The library trusts what it says of chrono (RFC 3339 timestamps), regex (replacing all matches),
Arrow (counting, copying and printing batches) and the standard library (sharing an `Arc`, searching
a text); each such claim stands in the doc comment of the function that makes the call.
