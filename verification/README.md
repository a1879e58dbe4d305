# wraith_names

The `.wraith` name registry with optional metadata, with machine-checked proofs of its contracts.

- `src/registry.rs` — the registry state (`WraithNamesContract`) and its
  operations: `register`, `update`, `release`, `resolve`, `name_of`,
  `set_metadata`, `get_metadata`, name validation and name hashing. Each
  operation's contract is stated over `RegistryModel`, three maps keyed by
  SHA-256 digests.
- `src/metadata.rs` — text records (kept in ascending key order), metadata
  entries and the size checks.
- `src/laws.rs` — properties across operations: resolution after
  registration, reverse lookup, release, owner-only changes, metadata
  lifetime, and the registry invariant kept by every operation.
- `src/table.rs`, `src/bytes.rs` — the keyed table and byte-string helpers.
- `src/hashing.rs` — SHA-256 through the Soroban host.
- `app/lib.rs` — the Soroban contract: authorization, ledger storage, events
  and conversion between host values and the registry's plain values.
