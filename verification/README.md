# EdisonDB

An owner-first record store with an encrypted payload envelope, a small
statement language (EQL), a Raft consensus core and an embedded store for
mobile hosts. The library under `src/` is written in Verus: each function
states its behaviour in `requires`/`ensures` and Verus proves it.

## Layout

- `src/store.rs` — records, the tier gate (Critical and Personal records are
  readable by their owner alone, Noise by anyone) and the audit trail.
- `src/crypto.rs` — AES-256-GCM envelopes and Argon2 key derivation.
- `src/eql/` — the statement grammar and its parser.
- `src/executor.rs` — runs statements for one owner against a store; the
  laws of write-then-read, delete-then-read, one write per id and the
  append-only audit trail.
- `src/raft/` — the Raft term, vote and log rules, with their safety laws.
- `src/mobile.rs` — the 78-byte provenance header and stamped records.
- `src/vector_index.rs` — the vector index's id slots and file format.
- `src/sovereign_embed.rs`, `src/embedding.rs` — embedding settings, the
  tokenizer and the integer hash of the token projection.
- `src/requests.rs`, `src/wire.rs` — request checks and tier codes.
- `src/invariants.rs` — executable checks of the store's invariants.
- `app/` — the EQL shell, persistence to redb, the HTTP embedding client,
  the floating-point embedding and HNSW index, and the mobile FFI.
- `tests/` — the test suite.
