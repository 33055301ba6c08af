# citadel-mandate-demo

Runtime enforcement of user-signed Intent Mandates for AI-agent payments, verified with
Verus. A gateway checks the user's Ed25519 signature over the canonical mandate, denies
(fail-closed) any charge outside the mandate's scope or cumulative budget, records every
decision in a hash-chained audit log, and mints an action-bound token on Allow only.

## Layout

- `src/` — the verified library.
  - `engine.rs` — the gateway: verify → scope → budget → token → audit, with the exact
    outcome of every authorization stated over the gateway's state.
  - `laws.rs` — what holds of every authorization: nothing out of scope is allowed, a Deny
    spends nothing, one audit record per decision, spending never decreases, an empty
    registry denies everything, a verified mandate is the one its trusted signer signed.
  - `mandate.rs`, `protocol.rs` — the native, AP2-style and ACP-style wires, their canonical
    signed bytes, and their readers.
  - `scope.rs`, `audit.rs`, `token.rs`, `scenarios.rs`, `wasm.rs` — scope checks, the audit
    chain, tokens, the demo scenarios, the playground decision.
  - `json.rs`, `text.rs`, `time.rs`, `crypto.rs` — JSON framing, text building, timestamps,
    keys and Base64.
- `tests/` — scenario, adversarial and value tests, run against the compiled library.
- `app/` — the CLI (`demo`, `serve`, `mint`) and the HTTP gateway (axum).

## Trust boundary

Calls into sha2, ed25519-dalek, base64, serde_json, chrono and uuid go through small
`#[verifier::external_body]` wrappers whose results are named by uninterpreted spec
functions, together with the few facts the crates' sources give: a signature verifies under
its own key's public key, Base64 decodes its own encoding, serde_json reads back the strings,
numbers, lists and objects written here, and chrono reads back the RFC 3339 text it wrote.
Every contract above them is proved from those names and facts; in particular a native,
AP2 or ACP wire signed with the key trusted for its user verifies as what was signed, and a
minted token verifies to its claims until it expires.
