# acceptor

A small instant-messaging stack whose core logic is verified with Verus.

- `src/wire` — the compact binary format: variable-length integers, zigzag
  signed integers, length-prefixed bytes and text, and the `Wire` trait that
  ties each value's bytes to what the decoder reads back.
- `src/im` — packets, their header maps and payloads, their wire form, token
  logins, and the server's and client's rules for each packet.
- `src/connect` — length-prefixed frames and the decisions of the processors
  that handle heartbeats, online state and synchronous requests.
- `src/proxy` — the two-way proxy's read decisions.
- `src/endian.rs` — byte orders, and the calls into the `bytes` crate.
- `app/` — the server binary: sockets, tasks, timers and channels, plus the
  serde front end to the format.
- `tests/` — tests of the library on concrete values.
