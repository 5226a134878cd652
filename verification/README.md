# lrclib_core

The logic of a lyrics server, written and proved in Verus.

- `src/` is the library. Its functions are verified against their contracts.
  - `text`: preparation of names for matching, and removal of time tags.
  - `text_laws`: what holds of prepared and stripped text.
  - `challenge`: proof-of-work answers and the validation of publish tokens.
  - `metadata_cache`: cache keys, and the search for a cached response.
  - `state`: the index of cached responses, the queue of missing tracks, and
    the counters that requests share.
  - `routes::manage::set_config`: who may change the configuration.
  - `http`, `caches`, `queue`, `decimal`: smaller rules.
  - `outside`: the calls into other crates, with the contracts that the proofs
    rest on.
- `tests/` runs the library, and with it the other crates, on concrete values.
- `app/` is the server around the library: caches, database, background tasks
  and HTTP. A deployment supplies its database and handlers through the trait
  `Backend`.
