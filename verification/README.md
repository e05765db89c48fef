# ixc_schema

Schema types, value encodings and state bookkeeping for modules, verified with Verus.

- `src/` is the verified library:
  - `kind`, `value`, `field`, `structs`, `enums`, `schema`, `types`, `list`, `any`, `message`:
    schema types and dynamic values with their mathematical models;
  - `binary`, `codec`, `dynamic`: the native binary encoding, its decoder and the law that
    decoding gives back what was encoded, for values whose encoding delimits itself where the
    format relies on it (a nullable at the top level holding a value that encodes as
    nothing, such as an empty string, does not: it reads back as absent) and whose lengths fit in `u32`; default
    values by type and kind;
  - `json`: string escaping, a tokenizer, the JSON encoder, the decoder of JSON text (parsed by
    `serde_json`) and of its tree, account-ID text, and the law that the encoder writes exactly
    the text of a value's JSON tree and the decoder makes the value of that tree, for types
    whose field and variant names come back from JSON (distinct and needing no escape) and with
    no nullable directly inside a nullable;
  - `db`, `snapshot`, `tx_store`, `uint_map`: versioned storage on sled, snapshots that can be
    reverted, nested transactions over persistent maps, and maps of unsigned amounts;
  - `bank`, `community_pool`, `scheduler`: a token ledger with hook accounts, a community pool
    and a scheduler;
  - `derive_plan`, `collect`: the decisions of the `SchemaValue` derive and the collection of
    referenced types.
- `tests/` runs the library on concrete values.
- `app/` holds what Verus does not take: the derive macro's code generation with `syn` and
  `quote`, the panics of the JSON entry points on times and durations, the floating-point value
  of a number token, and error types with `thiserror` derives.
