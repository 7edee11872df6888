# nntp-rs

A sans-io NNTP (RFC 3977) client library whose protocol logic is verified
with Verus.

## Layout

- `src/` — the verified library:
  - `command` — commands and their wire encoding (every encoded command is
    one CRLF-terminated line of at most 512 octets);
  - `response` — response types, framing-independent parsing of response
    text, typed wrappers, articles (MIME access through `mail_parser`) and
    legacy text decodings (through `encoding_rs`);
  - `client` — the sans-io client: command encoding with state checks,
    response framing over a `bytes` buffer (a 211 reply to LISTGROUP is
    framed through its final dot line), and the state machine;
  - `net_client` — what a networked client decides from each reply;
  - `threading` — thread trees from References headers, the incremental
    builder, article composition and the backfill decisions;
  - `mock` — a scripted mock server, and the proof that what it sends is
    read back by the client;
  - `text`, `search`, `utils` — character and byte sequence helpers.
- `app/` — the I/O side: async TCP streams for tokio, async-std and smol,
  the async client that drives the library over them, the threading
  operations that fetch over the network, and an error type with the
  standard error traits.
- `tests/` — the test suite.
