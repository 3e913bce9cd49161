# cllx_fs_pro

File encryption with ML-KEM-768 key capsules, per-chunk authenticated encryption
(AES-256-GCM or ChaCha20-Poly1305), a reversible integer transform layer (cllX-Math),
Merkle trees over chunk hashes, time locks, stealth containers, deduplication and a
write journal — with the logic verified by Verus.

Layout:

- `src/` — the verified library. `base` holds keys, key derivation, hashing and AEAD;
  `cllx_math` the encode / diffuse / mask transform; `chunk` the chunk engines;
  `merkle`, `container`, `capsule`, `stealth`, `timelock`, `dedup`, `lazy`,
  `antiransom` and `cli` the rest (`cli::embedded` is the desktop app's sealing, with
  the key optionally embedded in the container). Contracts are stated over sequences and maps; the
  round trips (transform, chunks, capsules, key files, whole files, journal frames,
  stealth headers, time locks) are stated and proved as laws.
- `tests/` — tests on concrete values.
- `app/` — the `cllxfs` command-line program: arguments, files, the terminal, and
  bincode serialization of the library's records; `app/desktop.rs` holds the desktop
  app's file handling.
