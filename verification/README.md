# polyester_examples

Shared helpers for the Polyester Rust SDK examples, written in Verus with
their behaviour stated as contracts and proved.

## Layout

- `src/` — the verified library.
  - `text.rs`: character-level string helpers (trimming, ASCII lower case,
    searching, unsigned integer parsing as `str::parse` does it).
  - `decimal.rs`: `Dec`, a plain model of `rust_decimal::Decimal`; rounding
    arithmetic, parsing, comparison and display are done by `rust_decimal`
    behind trusted wrappers, while truncation, ceiling, normalisation and
    conversion to `i64` are written here and proved.
  - `config.rs`: environment variable names, reading the example settings
    from an environment snapshot, the opt-in gates, credential checks, and
    the `.env` format.
  - `indicators.rs`: Wilder RSI over a close series and the crossing signal.
  - `markets.rs`: symbol choice, pair metadata, limit prices, order sizing,
    ledger balances, post-only prices and wire units.
  - `orders.rs`: client order ids, order status classes and the decisions of
    the wait / cancel helpers.
- `tests/` — tests of the library on concrete values.
- `app/` — the parts that talk to the process environment, the file system,
  the SDK client and the clock: loading `.env`, building a client, the async
  wait and cancel loops, and conversions between `Dec` and `Decimal`.
