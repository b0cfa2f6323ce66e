# oxibus

A D-Bus message bus core written in Verus: the wire types and their
marshalling, message headers, bus addresses, SASL authentication (server and
client, with the cookie keyring), the daemon's bus policy, name registry,
match rules, service activation and the bus driver, and the client-side
object server. Each public function carries a contract proved by Verus.

Layout:

- `src/` — the verified library. `types`, `signature`, `wire`, `marshal`,
  `unmarshal`, `header`, `message` and `roundtrip` cover the wire format;
  `addr` the address strings; `auth` the handshake; `daemon` the bus
  itself; `client` what a client connection decides; `transport` the framing
  of bytes read from a socket; `tools` the address choice of the command-line
  tools.
- `app/` — the daemon program around the library: sockets, files, signals,
  the tokio runtime and the calls into the operating system.
- `tests/` — tests run against the compiled library.
