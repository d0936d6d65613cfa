# wealthfolio_core

Portfolio cash economics, the allocation rebalancing worksheet and activity
cash diagnostics, written in Verus.  The functions in `src/` carry
`requires`/`ensures` contracts that Verus proves, except the trusted wrappers
around `rust_decimal`, `sha2`, `hex`, `urlencoding`, `chrono` and a few std
calls, whose contracts are taken as given and say in their doc comments what
they claim.

## Layout

- `src/decimal.rs`: `Dec`, a plain model of `rust_decimal::Decimal`, and the
  trusted wrappers that call `rust_decimal` for arithmetic, comparison,
  rounding, parsing and formatting.
- `src/text.rs`: text helpers (ordering, ASCII case, trimming).
- `src/economic_events.rs`: how an activity moves cash, its event kind, the
  cost basis of a transferred lot and its performance flow.
- `src/cash_migration.rs`: the one-time classification of stored cash
  amounts, with the run and rebuild steps as state machines.
- `src/activity_cash_integrity.rs`: the health check that reports activities
  whose cash amounts need attention.
- `src/allocation/`: targets and their codes (`model.rs`), FX attribution over
  recorded rates (`fx_path.rs`), the worksheet arithmetic
  (`worksheet_service.rs`) and the worksheet calculation on recorded data
  (`worksheet_calc.rs`).
- `app/`: the services, storage and serialization around the library.
- `tests/`: tests on concrete values.
