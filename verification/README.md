# stream_relay

A worker that relays live video from a server to browsers. The library holds its rules, written
and proved in Verus: the wire format of its packets, the link to the server, the links to the
browsers, and the WebSocket handshake. The program around it opens connections, reads, writes
and prints.

- `src/` is the library. `src/laws.rs` states what holds across its modules.
- `src/buffers.rs`, and the trusted items in `src/addr.rs`, `src/digest.rs`, `src/http.rs` and
  `src/websocket.rs`, say what is relied upon of the crates `bytes`, `sha1_smol`, `base64`,
  `httparse` and `websocket_codec`, of `core::str::from_utf8`, and
  of how `core` parses an address. Everything else is proved.
- `tests/` runs the library.
- `app/` is the program. It tests the condition of each call whose condition can fail there, and
  panics where it does not hold.

Two things about the wire format are worth knowing. A number takes a whole machine word in a
frame, yet the length field counts four bytes for it and only its four leading bytes are read
back; between machines with words of eight bytes, numbers do not survive. The address in a
request to disconnect is always read as sixteen octets, so only version 6 addresses can be sent.
