# openstorage

A verified storage engine: files are cut into chunks, encrypted, erasure-coded and spread over
several providers; their metadata is replicated between devices and recovered from a passphrase.

- `src/` is the library. Everything in it is verified with Verus: each function says in its
  contract what it returns or changes, and the laws that hold between functions are public proof
  functions next to them.
- `app/` holds what talks to the outside: the HTTP routes, the sled and keyring stores, the
  provider plugins with their pacing, and the wire forms of the records. It performs what the
  library decides.
- `tests/` runs the library.

| Module | What it holds |
|---|---|
| `types`, `bytes`, `text`, `byte_map`, `ordered` | identifiers, digests, clocks; byte strings, texts and ordered maps |
| `crypto` | hashing, authenticated encryption, key derivation, signatures, key encapsulation |
| `ec`, `chunk` | erasure coding; cutting, sealing and rebuilding chunks |
| `entities` | replicated data types and the records |
| `metadata` | column families, transactions, where each record stands |
| `merkle`, `bloom`, `antientropy` | finding and mending differences between replicas |
| `lease`, `repair`, `events` | the writer's lease, the repair queue, the event bus |
| `identity`, `keystore`, `vault`, `recovery`, `share` | who owns a vault, how it is unlocked, rotated, destroyed and shared |
| `placement` | which provider takes which shard |
| `plugin_host` | health, breakers, rate limits, account rotation, slots and the lifecycle of plugins |
| `api` | the decisions behind the HTTP routes |

Calls into cryptographic, encoding and coding crates go through small wrappers whose contracts are
believed; the comment above each says what it claims.
