# vless_encryption

The record layer of VLESS encryption, verified with Verus.

- `src/` is the verified library. Key derivation with byte contexts (BLAKE3),
  AES-256-GCM and ChaCha20-Poly1305 with a nonce counter, an AES-256-CTR
  keystream, length prefixes and record headers, and padding schedules.
- `app/` wraps it for callers that want `std::io::Error` and
  `std::time::Duration`.
- `tests/` runs the library against known answers and the cipher crates.

Each call into an outside crate stands in a small function whose contract says
what is taken on trust: that the `blake3` crate computes BLAKE3 as `src/` writes
it down, that the `ctr` crate runs AES-256 over a 128-bit counter, and that the
two sealing ciphers give back what was sealed and nothing else. What AES-256 and
the sealing ciphers make of their input is left to their crates.
