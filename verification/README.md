# elex-proxy

A JSON-RPC proxy in front of Atomicals ElectrumX servers, with its logic
verified by Verus.

- `src/` is the verified library: URN decoding (`urn`), the answers to URN
  requests (`urn_flow`), Atomicals envelopes in reveal transactions
  (`envelope`), CBOR and JSON values (`cbor`, `json`), replies and pending
  upstream calls (`rpc`), cache keys (`cache`), settings (`config`),
  forwarding headers (`ip`), request identifiers (`ids`) and the proxy's
  self-description (`proxy`). `laws` holds the properties proved across
  operations.
- `app/` is the server around it: axum routes, the WebSocket clients, serde
  forms of the library's values, and the parsing of client addresses.
- `tests/` runs the library on concrete inputs.
