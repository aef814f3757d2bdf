# tunnelion

A private, self-hosted tunnel: a relay on a public host and a client next to local
services share one control TCP connection (PSK handshake, then Yamux); every public
TCP connection on a tunnel's listen port becomes a Yamux stream whose first bytes
name the tunnel, and the client pipes it to that tunnel's local address.

Layout:

- `src/` — the library, verified with Verus: wire formats (`protocol`), the PSK
  handshake state machines (`handshake`), socket addresses, their text form and
  the client's local address syntax (`addr`), reading socket addresses from text
  (`sockparse`), configuration rules and messages (`config`, `relay`,
  `client`), the reconnect schedule (`client`), dashboard state and byte formatting
  (`dashboard`), half-close piping decisions (`bridge`), and the demo server's
  rules (`demo`). `crypto` holds the calls into `hmac`/`sha2`, `subtle` and
  `getrandom`.
- `app/` — the programs (`relay`, `client`, `demo-server`): Tokio networking, Yamux,
  YAML files, the Ratatui dashboard and logging, driving the library.
- `tests/` — tests of the library.
