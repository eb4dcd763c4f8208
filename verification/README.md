# boxspread

A box spread scanner for SPX options, verified with Verus.

The library (`src/`) holds the scanner's logic with contracts proved by Verus:

- `decimal`: decimal text of integers, written and read as Rust's `FromStr` reads it.
- `message`: the gateway's wire format — requests as zero-terminated fields, received
  messages split back into fields, length-prefixed frames, the handshake.
- `requests`: the requests the scanner sends, the numbering of requests and the quote
  requests still awaited.
- `dates`: expiration dates (through `chrono`).
- `market`: option chains, their quotes, the spot price.
- `data`: what a message from the gateway changes in the market data.
- `boxspread`: box spreads — placing the four legs around the spot price, scoring
  liquidity, the decision of each poll while the quotes of a candidate come in (wait,
  time out, or settle it), deltas, and the best, mid and
  worst price of a box with the yearly rate each implies.
- `search`: the search for the most liquid box, as a state machine that says which
  candidate to evaluate next.
- `views`: what the HTTP API answers.
- `laws`: properties that span several functions.

`app/` is the running program around it: the TCP connection to the gateway, the tasks
that send and receive, the evaluation loop that waits for quotes, and the HTTP API.
