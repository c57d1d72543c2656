# commipcrs

A client for the `comm_ipc` protocol: inter-process calls, streams,
publish/subscribe and load-balanced groups over a Unix domain socket, wire
compatible with the Python implementation (4-byte big-endian length prefix,
MessagePack messages, HMAC-SHA256 signatures over canonical JSON).

## Layout

- `src/` — the protocol logic, verified with Verus:
  - `json.rs` — JSON values and their canonical text (keys in byte order);
  - `security.rs` — secret hashing, PBKDF2 channel keys, message signatures;
  - `frame.rs` — the length-prefixed framing;
  - `client.rs` — client ids, the connection handshake, routing of received
    messages, the requests a client sends and the meaning of their replies;
  - `channel.rs` — event names of groups and subscriptions, provider
    registration, replies to calls, listeners;
  - `table.rs` — tables keyed by strings (pending calls, streams, channels,
    handlers);
  - `comm_data.rs`, `message.rs`, `error.rs` — the records, messages and
    errors of the protocol.
- `app/` — the asynchronous client on tokio (`CommIPC`, `CommIPCChannel`,
  `EventHandler`): socket I/O, tasks, MessagePack and `serde_json`
  conversion.
- `tests/` — tests of the library.
