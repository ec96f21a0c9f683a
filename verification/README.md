# sovereign_lattice

A PBFT replica with BLS threshold signatures, Feldman distributed key
generation and a write-ahead log, written in Verus.

## Layout

- `src/` — the verified library.
  - `curve.rs`: the BLS12-381 operations of the `bls12_381` crate, reached
    through small trusted wrappers on byte encodings (compressed points,
    canonical little-endian scalars).  Scalar arithmetic is stated exactly
    modulo the group order; group operations, hashing to the curve, the
    pairing and SHA-256 are named results.
  - `threshold_bls.rs`: signing, verification, aggregation and threshold
    verification by Lagrange interpolation at zero.
  - `dkg.rs`: share messages, Feldman verification of shares, finalisation
    and transcript hashes.
  - `pbft/`: messages and their encodings, certificates, the replica state
    machine (`state.rs`) and the laws on quorums, leaders and commits
    (`quorum.rs`).
  - `wal.rs`: the 101-byte record format of the write-ahead log, replay and
    pruning of log bytes, with the laws relating appending, replaying and
    pruning.
  - `pbft_control.rs`: an offline control experiment on a four-node replica.
  - `table.rs`, `codec.rs`, `scalar.rs`: small verified containers and
    encodings.
- `tests/` — tests run against the compiled library and the real `bls12_381`.
- `app/` — the command-line control program, environment configuration and
  the on-disk log.
