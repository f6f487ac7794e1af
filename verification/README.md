# cache_manager_lib

The logic of a desktop manager for Redis and Memcached caches, written in
Verus: every function in `src/` carries a contract that Verus proves.

- `src/model.rs`, `src/error.rs`, `src/encoding.rs`, `src/text.rs`: saved
  connections, the binary-safe text form of values, errors, and the text
  operations the parsers are built from.
- `src/redisx/`: client URLs and configurations, key scanning and value
  shaping (`keys`), the console (`console`), INFO / CLIENT LIST / slow log /
  topology readers (`server`), and published or monitored messages
  (`stream`).
- `src/memcachedx.rs`: the Memcached text protocol (requests, replies, key
  listings, console completion) and the local glob filter.
- `src/commands.rs`, `src/store.rs`, `src/tray.rs`,
  `src/single_instance.rs`: importing and exporting connections, settings,
  tray items.
- `src/registry.rs`: the open connections of a session, kept by id.
- `src/laws.rs`: properties of the library as a whole.
- `app/`: the unverified backend around it (network and file input and
  output, the Redis client pools, serde shapes of the user interface).
- `tests/`: tests of the library on concrete values.
