# irl_verify

Offline verifier for IRL proof bundles, written in Verus.

- `src/codec.rs`: SHA-256, lower-case hex and standard base64, each behind a
  small wrapper of the crate that computes it (`sha2`, `hex`, `base64`).
- `src/text.rs`: decimal rendering, text equality, byte buffers.
- `src/time.rs`: UTC instants and their `chrono` rendering.
- `src/hashing.rs`: the binding proof and the Merkle root, with their laws.
- `src/bundle.rs`: the bundle as the checks read it.
- `src/verify.rs`: the three checks, the report, and the law that a report
  passes exactly when every check holds.
- `src/cli.rs`: the command line, the printed report and the receipt files,
  as plain values.
- `app/`: `main`, JSON parsing and printing, file I/O.
