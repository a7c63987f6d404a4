# beans_core

The symbolic engine of a JVM language server, written and proved in Verus.

- `src/graph` — the generational node arena (hard-link forest, free-list
  slot reuse, recursive destroy) and its payload lifecycle trait.
- `src/registry` — `Registry<K>`: typed-key provider lists with a
  simple-name index, subscriptions, batched notification, and the query
  types built on them (`Query`, `Subscription`, `FallbackSubscription`).
- `src/jvm`, `src/languages/java` — the JVM projection and the Java
  front end: keys, payloads, type references, the declaration walker over
  tree-sitter's syntax tree, name resolution and diagnostics rules.
- `src/symbol_table.rs`, `src/resolve.rs` — the flat symbol-table model
  and the name resolution and hover text built on it.
- `app/` — file access for `.jmod` / `.jar` class containers (zip I/O);
  which entries are classes, and under which names, is decided in
  `src/jvm/container.rs`.

Verus checks all of `src/`: the public operations carry contracts over
spec-level models, and the calls into tree-sitter and into std that Verus
has no specification for go through small trusted wrappers, each
documented with what it claims. Registry changes reach cached queries
through an explicit delivery step (`deliver`, or the `register_*` /
`unregister_*` paths that deliver at once), not through callbacks.
`tests/` runs the library on concrete inputs.
