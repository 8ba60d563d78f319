# remitwise

Verified core of the Remitwise Soroban contracts.

- `src/` — the library, verified with Verus:
  - `killswitch.rs`: the emergency killswitch (admin, global / module /
    function pauses, the unpause timelock and the recovery path), with an
    abstract model (`KillswitchView`) that every operation is stated against.
  - `insurance.rs`: the insurance policy registry (creation limits, the
    per-owner external-reference index, premiums, cursor pages, tags).
  - `orchestrator.rs`: the remittance orchestrator's state (owner,
    dependencies, nonces and used nonces, the bounded audit log, statistics)
    and the checks of signed requests.
  - `flow.rs`: the multi-contract remittance flow as a state machine that
    names the next downstream call and takes its reply.
  - `table.rs`, `bytes.rs`, `symbol.rs`, `wasm_budget.rs`: keyed tables,
    addresses and symbols as bytes, the packed short-symbol encoding (from
    `soroban-sdk`), and the release-size budgets.
- The contracts keep their maps (`soroban_sdk::Map`) in host memory: every
  operation on one goes through the host environment (`Env`), which only
  exists inside a running contract. The library therefore holds the same
  data as plain values: `Table` is a verified map from byte strings to
  values, and `app/` converts between the host maps and the library's
  tables when it loads and saves state.
- `tests/` — scenario tests of the library.
- `app/` — the Soroban contracts: storage, authorisation, events and the
  cross-contract calls that drive the flow state machine.
