# arbide

Arbitrage detection and market-making simulator over four exchange feeds.

- `src/` is the verified library (Verus): the fixed-depth order book and
  the cross-exchange detector (`market`), the fee table (`exchange_fees`),
  engine statistics (`engine`), risk counters (`risk`), the fair-mid window,
  latency average and quoting-snapshot choice (`fair_price`), feed
  lifecycle and pacing (`feeds`), and the readers of the exchanges'
  WebSocket frames (`ws`). Prices cross the library as `u64` keys made
  from their bit patterns; a book write also takes the run of keys that
  lie within the price tolerance of the written price, which the program
  computes in floating point.
- `app/` is the program: threads, channels, WebSocket connections, CSV
  logs, and all floating-point arithmetic (fair price, quoting, P&L,
  positions and risk decisions).
- `tests/` exercises the library.
