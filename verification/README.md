# redorm

Stores plain Rust structs as Redis hashes. A struct derives `HashSet`; its
records are written with `HSET prefix:key field value ...`, read back with
`HGETALL prefix:key`, and listed with `SCAN 0 MATCH prefix:* TYPE hash`.

Layout:

- `src/` — the verified library (Verus):
  - `derive.rs`: the rules that turn a struct definition into a model
    (prefix, key field, stored fields, how each field is read back);
  - `schema.rs`: the model, the `HSET` arguments and command texts it
    writes, and the reading of a record from the fields of its hash;
  - `command.rs`: the `redis::Cmd` values for writing, reading and scanning;
  - `keys.rs`: hash names, the scan pattern, and recovering a key from a
    scanned name;
  - `field_map.rs`: the fields of a hash as a map;
  - `text.rs`: joining, concatenation, comparison and replacement of text;
  - `laws.rs`: the properties that hold across these operations;
  - `traits.rs`, `errors.rs`: the record interfaces and the errors.
- `app/` — the derive's compiler side (`syn`, `bae`, `quote`) and the Redis
  I/O of record types (`redis`, `async-trait`).
- `tests/` — tests of the library.
