# sharetty

Share a terminal session over the web, directly or through a relay that
targets behind a firewall connect out to.

- `src/` is the verified library: the framing of messages on QUIC streams,
  the relay handshake, Basic authentication, random identifiers, the pages
  and file-transfer rules, the decisions taken from the configuration, the
  handling of viewer, control and tunnel messages, the filtering of proxied
  requests and the URLs a target uses to reach a relay.
- `tests/` runs the library on concrete values.
- `app/` is the program around it: the command line, the HTTP, WebSocket and
  QUIC servers and clients, the terminal processes and the file system.
