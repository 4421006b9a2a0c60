# backpack_grid_bot

A short-only-first grid trading bot for Backpack futures, with its core
verified in Verus.

## Layout

- `src/` — the verified library. Decimal arithmetic goes through
  `rust_decimal` behind small trusted wrappers (`decimal.rs`); everything
  built on it is proved against its contracts:
  - `precision`, `risk`, `planner`: grid levels, order quantities at the
    order size's precision, and the risk gate (hard position cap,
    short-only never flipping net long, reduce-only buys only against a
    short);
  - `keys`, `execution`, `reconcile`: order keys, the place / cancel / keep
    plan, the diff against the exchange and fills inferred from position
    changes;
  - `health`, `events`, `state`, `service`, `observability`, `persistence`:
    the shadow service cycle, its health, events, kept state and report;
  - `settings`, `strategy`, `exchange`, `stream`, `cycle`, `signing`: the
    order-sync bot's configuration parsing, grid, sync plan, request
    signing (Ed25519, base64, MD5 behind trusted wrappers) and cycle
    decisions;
  - `adapter`: the exchange rows the shadow service reads, normalized.
- `tests/` — tests of the library on concrete values.
- `app/` — the program around it: environment, HTTP and websocket I/O,
  JSON, files and the loops. `main` runs the order-sync bot; with `shadow`
  as its first argument it runs the read-only shadow service.

## Running

```bash
GRID_RUN_ONCE=true backpack_grid_bot          # one order-sync cycle
GRID_RUN_ONCE=true backpack_grid_bot shadow   # one shadow cycle
```

Live order placement stays off unless `BACKPACK_ENABLE_LIVE=true`.
