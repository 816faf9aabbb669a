# lau_trading

A player-to-player trading marketplace, verified with Verus. Players create
offers, accept or reject them, send gifts, query pending offers, and derive
statistics from the history of completed trades.

Layout:

- `src/item.rs`: tradeable items; levels are binary64 numbers held by their
  bit patterns and compared as `f64 == f64` compares them.
- `src/offer.rs`: statuses, offers, completed trades, gifts, and their values.
- `src/text.rs`: decimal numbers, identifiers (`offer-N`, `gift-N`) and error messages.
- `src/tally.rs`: counting keys in first-seen order (the statistics' counters).
- `src/stats.rs`: `TradeStats::from_history`.
- `src/market.rs`: `TradeMarket` and the mathematical meaning of each operation.
- `src/laws.rs`: properties proved across operations (append-only history,
  records numbered one to n so identifiers never collide, a rejected offer
  cannot be accepted and stays put, a trade completes at most once, accepted
  records live only in history, statistics add up over histories, uniqueness
  of the most active player, ...).
- `app/`: serde forms of every type, with conversions both ways.
