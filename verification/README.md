# rustrade

Market data, instrument indexing and engine state for a trading system. The rules of each component
are stated as contracts and proved with Verus.

- `src/` is the library. Every function of it carries its contract; what holds across functions is
  stated by the public proof functions whose names begin with `law_`.
- `src/calendar.rs` and `src/time.rs` hold the calendar, instants and the arithmetic of candle
  boundaries; `src/index/` indexes instruments and venues; `src/engine/` holds connectivity and the
  market data of an instrument; `src/execution/` assembles execution; `src/streams/` merges inputs in
  time order.
- `src/lse/` is the London Strategic Edge connector: candles, exports, their download and decoding,
  live ticks and resumption. `src/massive/` is the connector to the Massive REST API.
- `app/` is the ordinary Rust around the library: HTTP, websockets, files, serde and async streams.
- `tests/` runs the library.

Calls into other crates stand in small functions marked `external_body`. The doc comment of each says
what is taken from that crate without proof.
