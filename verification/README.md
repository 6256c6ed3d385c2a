# poap_badge

A POAP-like badge registry for the Stellar ledger, with its read-only indexer,
written in Verus. Organizers create events; each participant can receive the
event's badge once; badges are permanent.

- `src/contract/`: the registry. `model.rs` states its persistent state as a
  mathematical `Ledger` and the consistency every reachable state keeps;
  `storage.rs` holds the storage tables; `event.rs`, `badge.rs` and the
  entry points in `contract.rs` are proved against the model; `laws.rs`
  states what holds across entry points.
- `src/backend/`: the indexer's logic. Storage keys as ledger values,
  decoding of stored values, hexadecimal ids, strkeys (through
  `stellar_strkey`), the XDR wire format (through `stellar_xdr`), the
  decisions of each ledger read, the gallery, and the configuration;
  `laws.rs` states the codec's round trips and what decoding depends on.
- `app/`: what runs around the library: the Soroban contract binding, the
  axum REST server and the RPC client.
- `tests/`: tests of the library on concrete values.

## Why the storage tables are lists of entries

Each storage family (`contract/table.rs`) is a `Table`: a list of entries
with distinct keys, viewed as a `Map`. A std map would do for lookups, but
the registry also walks every entry in a stable order: to check that stored
records form a consistent ledger (`Env::restore`) and to write the state
back to the ledger. A `HashMap` walks its entries in an order that depends
on its per-process hasher, and its keys here are byte arrays and an address
enum whose hashing and equality vstd does not specify; a `Table` keeps its
entries in insertion order and compares keys through a verified equality.

## Why the registry's ledger storage is modelled

The registry's entry points run inside the Soroban host: they are made
entry points by `soroban_sdk`'s `#[contractimpl]` macro, the values they
store must carry its `#[contracttype]` derive, and its storage calls
(`get`, `set`, `has`) are generic over its own conversion traits. None of
the three can stand in verified code, so the library keeps the registry's
state in its own `Env` (the tables above plus a log of required
authorizations), proves the entry points against it, and `app/contract.rs`
loads that state from the host's persistent storage, runs the entry point,
has the host check the recorded authorizations, and stores the state back.
