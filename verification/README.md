# wicp

A wrapped-ICP token in the DIP20 style, as a Verus-verified library plus a thin
Internet Computer canister around it.

## Layout

- `src/principal.rs` — principals as raw bytes: equality, copies, the
  anonymous principal, the management canister, canister ids.
- `src/amount_map.rs` — a finite map from keys to amounts (balances, and
  allowances keyed by owner and spender), viewed as a `Map`.
- `src/supply.rs` — the sum of the amounts of a map and how it moves.
- `src/records.rs` — transaction records, operations, errors.
- `src/token_spec.rs` — the state of the token as plain values and one spec
  function per request: what it changes and what it answers.
- `src/token.rs` — the token itself; every request is proved to do what its
  spec function says.
- `src/holders.rs` — ranking holders by balance.
- `src/cap_log.rs` — the queue of records that have not reached the history
  canister yet, and the decisions around sending them.
- `src/laws.rs` — properties over several requests: the balances always add
  up to the supply, refusals change nothing, the history grows by one record
  per accepted request, and what transfers and approvals do to balances and
  allowances.
- `app/` — the canister: endpoints, canister memory, the calls to the ICP
  ledger and to the history canister, upgrades. It checks each library
  precondition before the call and traps where the canister trapped.
- `tests/` — tests of the library on concrete values.
