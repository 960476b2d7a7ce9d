# backtest

Replays recorded market data (underlying asset minutes and prediction-market
quotes) through time-driven streams, as a backtesting harness for hedging
strategies. The library under `src/` is verified with Verus; the program under
`app/` reads the data files, runs a delta-hedging strategy and writes results.

## Library (`src/`)

- `stream_data::timers` — the `Timer` trait and `DeltaTimer`, a clock that
  advances by a fixed step and runs out after its end time.
- `stream_data::tick_stream` — `TickStream`, which hands out the items of a
  slice as the clock reaches their timestamps (each once, in order), and the
  type-erased `DataStream` view of it, which hands out the timestamps of the
  new items (all that a `Tick` exposes).
- `stream_data::tick_multi_stream_dynamic` (re-exported by
  `tick_multi_stream`) — `TickMultiStream`, a set of streams read against one
  clock.
- `stream_data::market_stream` — `PairMarketStream`, which walks an
  underlying series and a contract's quotes forward together.
- `read_data::data_types` — the record types, and the binary search that
  finds the record in force at a given time.
- `read_data::record_chunks`, `read_kalshi`, `read_underlying` — cutting a
  JSON dump into record texts with the `regex` crate.
- `data_models` — order book updates (built from the timestamp, price and
  size-change texts of kalshi-rs messages, with a verified fixed-point decimal
  parser and chrono for RFC 3339 times), minute records, and the `Tick` trait.

Clocks are passed to the streams that read them (`&T` to read, `&mut T` to
advance), so several streams and stream sets can share one clock.
Double-precision quantities that the library only carries (prices, strikes,
times to expiry) are held as their IEEE-754 bit patterns; the program converts
them with `f64::to_bits` / `f64::from_bits`.

## Program (`app/`)

File reading, JSON and bincode (de)serialisation, the pricing models (GBM and
Cauchy) and the delta-hedging strategy, all of which are floating point or I/O.
