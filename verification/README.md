# kero

KERO's policy resolver and enforcement broker as a verified library.

- `src/policy/` loads policy environments, records and requests, validates a
  policy, and resolves a request to ALLOW or DENY against typed scopes,
  role inheritance, source authority and delegation; `snapshot` names and
  checks the immutable snapshots a decision is made against; `session`
  and `hops` state what a decision reads of a request and what a
  delegation chain promises.
- `src/artifact.rs` issues single-use authorization artifacts for allowing
  decisions and verifies them at a boundary without resolving policy again;
  `src/payload.rs` shapes the JSON values that signatures and digests cover.
- `src/enforcement/` holds the broker's state, nonces, audit chain,
  checkpoints, capability evidence, deployment attestations and the shared
  admission checks.
- `src/boundary/` decides the native boundaries (workspace write,
  Bubblewrap, Git push, HTTPS) and builds the exact commands they run.
- `src/layout.rs` and `src/setup.rs` describe the `.kero/` environments and
  the decisions of first-run setup.
- `app/` is the `kero` command: argument handling, files, processes and
  JSON output around the library.

Every public function under `src/` carries its contract, and all of `src/` is checked by Verus;
the outside crates it calls (SHA-256, HMAC, hex, JCS, chrono, time,
getrandom) are reached through small trusted wrappers in `src/crypto.rs`
and `src/clock.rs`, including the canonical JSON of checkpoints,
deployment attestations and audit events.
