# rwa_contracts

Verified decision logic for tokenised real-world assets: a compliance
registry (KYC records, a paginated allowlist, blocked jurisdictions) and an
asset token whose every balance movement is gated by such a registry.

- `src/` — the library, verified with Verus. Each state-changing operation is
  specified by a spec function on the abstract state (`RegistryView`,
  `TokenView`); `src/laws.rs` proves properties that hold for every state.
- `tests/` — scenario tests of both ledgers, including property-based tests.
- `app/` — the Soroban contracts around the library: authentication,
  storage with TTL extension, events, and the token's cross-contract query
  of its registry.
