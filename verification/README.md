# coinbase_pro

A client library for the Coinbase Pro exchange, written in Verus.

`src/` is the verified library:

- `requests` — building REST requests, signing them with an API key
  (HMAC-SHA256 over timestamp, method, path with query, and body), deciding
  what a response gives, and collecting paginated results.
- `api` — the websocket subscription builder and the request behind each
  REST endpoint.
- `websocket_lite` — a byte-at-a-time websocket frame parser, frame
  encoding with a client mask, the upgrade handshake, and the receiving side
  of a websocket stream.
- `order_book` — a level-2 order book kept sorted on both sides, built from
  snapshots and updated by level-2 changes.
- `errors`, `text`, `crypto`, `datastructs`, `mocked` — error types and
  their messages, decimal rendering, the base64/SHA-1/HMAC calls, the plain
  data of the exchange, and in-memory test doubles.

`app/` is the network side: sending requests with reqwest, the async
websocket over TLS, JSON (de)serialization with serde, rate limiting, and a
shared, lockable order book.
