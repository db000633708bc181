# raql

Semantic queries over Rust workspaces: a binding-aware planner for rule programs,
the intermediate representation it plans, and the index of definitions, types,
calls, spans and syntax nodes that the queries run against.

The library under `src/` is written in Verus. Every function states what it
returns or changes, and the proofs are part of the source.

- `plan`: the predicate catalog, mode inference, demand, goal ordering, plans and
  the messages of plan errors
- `ir`: programs, terms, types, plans and diagnostics
- `host`: stable identities and the in-memory host runtime
- `ra`: the index, seeding from syntax, snapshots, lookups, world stamps and the
  synchronisation of a session
- `protocol`: the values that daemon and client exchange
- `text`, `search`, `sorting`, `table`: texts, sorting and keyed tables

`app/` is the session around it: it loads a workspace into rust-analyzer, watches
its files, and hands the library plain facts.
