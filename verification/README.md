# quantum_arbitrage

A cross-exchange arbitrage scanner for BTC, with its core verified by Verus.

Exchange feeds (Binance, Kraken) deliver L2 order books; the scanner keeps the
latest book of each exchange, walks the books to price a fixed trade size,
converts quote currencies (USDT, USDC, BUSD) to USD, charges taker fees and
reports the most profitable buy/sell pair that passes the risk filter.

## Layout

- `src/` — the verified library.
  - `decimal` — fixed-point decimals (mantissa and scale), ordered by value;
    arithmetic through `rust_decimal`.
  - `book` — the L2 order book: level updates, best prices, fill estimates.
  - `normalization` — stablecoin parities, conversion to USD, depeg alerts,
    exchange symbols.
  - `risk` — the notional and minimum-return filter.
  - `scanner` — the book table and the search for the best opportunity.
  - `market`, `json` — decoding of the exchanges' feed messages.
  - `exchanges`, `retry` — ticker selection, response handling and retry
    bookkeeping of the REST fetcher.
  - `supervisor` — feed supervision: backoff and the reconnection loop's
    decisions.
  - `history` — the bounded log of recent opportunities.
  - `text`, `clock`, `error`, `arbitrage` — text helpers (including a `u64`
    parser), the wall clock, and shared types.
- `tests/` — tests of the library on concrete values.
- `app/` — the program: websockets, HTTP, the dashboard, storage, and the
  floating-point reporting and sizing code.
