# fileporter

The verified core of a trusted local-network file transfer tool: device
identities and pairing transcripts, the wire protocol's frames and session
rules, the sender's and receiver's transfer decisions, source manifests,
discovery and presence, listener lifecycle, settings and history rules.

- `src/` is the library. Every function there is checked by Verus against
  its `requires`/`ensures`; the public proof functions (`lemma_*`) state
  the laws that hold across calls (round trips, what confirmation needs,
  what a resumed transfer reads back, what expiry leaves, and so on). The
  pairing exchange is a state machine per device, `pairing_flow` (the
  responder adopts the initiator's session; two honest peers end in that
  session with one comparison code). The transfer itself is three state
  machines: `receive_flow` (offer,
  manifest, durable records, accept, chunks, acknowledgements,
  BLAKE3 verification over the staged bytes, placement under the planned
  name), `send_flow` (resume, chunks, acknowledged progress, the BLAKE3
  digest of the bytes read, verification, receipt) and `recovery` (what startup recovery
  does with an unfinished batch). Calls into outside crates (BLAKE3,
  Ed25519, Base32, X.509 parsing, TLS key and certificate generation,
  random bytes) go through small trusted wrappers whose contracts say what
  the crate documents.
- `tests/` runs the library on concrete values, with the real outside
  crates linked.
- `app/` is a small command-line front end: the SQLite store, the file
  system walk for manifests, log cleanup, notifications, network address
  conversions, startup recovery, and the loops that run the pairing, send
  and receive steps over an already authenticated stream. It hands the
  library plain values and acts on the decisions it returns.
