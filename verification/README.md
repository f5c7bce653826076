# hft_demos

Low-latency trading building blocks with machine-checked contracts, written in
Verus.

## Layout

- `src/lob/` — the limit order book. `model.rs` states the book as a mathematical
  object (`BookView`: resting orders, bid and ask levels in priority order, each
  level a FIFO of order ids) and every command as a function on it. `book_v0/`
  implements the `LimitOrderBook` trait of `book_api.rs` against that model;
  `book_v1/` holds the price-indexed level array, the per-level slot chains and
  the slab-backed order storage. `laws.rs` proves properties that span commands
  (event numbering, cancel undoing a resting add).
- `src/matching/` — LOBSTER CSV parsing into order commands, and the consumer
  step of the two-thread matching pipeline.
- `src/queue/` — a bounded SPSC ring (behind a verified lock) and a bounded MPSC
  FIFO.
- `src/feed/` — ITCH-style binary codec (with round-trip proofs), datagram
  ingestion and application of feed messages to a book.
- `src/handler/` — MoldUDP64 framing (round-trip proof), the datagram reorder
  ring, the top-of-book quoter, the outbound order encoder and the decisions of
  the market data hot loop.
- `src/bench/` — benchmark report layout (text and Markdown renderers, report and
  comparison tables), the runner's scenario filter, and the interpretation of
  operating-system tuning readings.
- `tests/` — scenarios and edge cases, run against the compiled library.
- `app/` — what runs around the library: threads and spin waits, UDP sockets,
  clocks and histograms, allocation statistics, JSON (serde) and the command line.
