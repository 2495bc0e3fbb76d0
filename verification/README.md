# statement_cache

A client-side cache of prepared SQL statements with least-recently-used eviction, written
and proved in Verus.

- `src/statement.rs`: a statement, with its text, its cursor and its metadata.
- `src/statement_cache.rs`: the cache. `get` and `put` read the clock; `get_at` and `put_at`
  take the time as an argument.
- `src/model.rs`: the cache as a mathematical value, and what each operation makes of it.
- `src/laws.rs`: what holds for each operation, such as that `get` gives back what `put`
  stored, that a statement in use is never driven out, and that the cursor of one that is
  driven out is queued for closing.
- `src/history.rs`: what holds after any run of operations, such as that the statement whose
  last use lies furthest back is the one that goes.
- `src/index.rs`: the `indexmap` calls and what is claimed of them without proof.
- `src/clock.rs`: the `std::time` calls, of which nothing is claimed.
