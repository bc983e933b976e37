# rgate

A small HTTP/HTTPS gateway: virtual hosts, prefix proxying with WebSocket
upgrades, static files, redirection of plain HTTP to HTTPS, and one certificate
per host selected by SNI.

- `src/` is the library. It holds every decision and computation, written in
  Verus: each function states in its contract what it returns, and the laws of
  the gateway are public proof functions (`config_laws`, `gateway_laws`, and at
  the end of the other modules).
- `app/` is the program: listeners, connections, files. It asks the library what
  to do and does it.
- `tests/` run the library.

Run it as `rgate [config.xml]`.
