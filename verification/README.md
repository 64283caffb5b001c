# Medium

Medium reaches your own machines from anywhere: a control plane hands out join invites and
session grants, nodes publish services (SSH, HTTPS), and clients reach them over direct, relayed
or peer-to-peer UDP sessions, with generated SSH configuration.

This crate is the verified core of the `medium` tool, written in Verus:

- `src/` is the library. Every function carries a `requires`/`ensures` contract proved by Verus:
  the invite format, the control configuration and systemd units that bootstrap a host, the SSH
  configuration a sync writes, the `doctor` report, the command-line grammar, the session token
  format, the UDP session protocol (packet codec, nonces, reassembly, handshake decisions), and
  the client's virtual network (service addresses and names, DNS answers, TCP listener planning).
  The few calls into outside crates (hashing, HMAC, Base64, ChaCha20-Poly1305, URL parsing) sit
  behind small trusted wrappers in `src/primitives.rs`, `src/client_api.rs` and `src/text.rs`,
  whose doc comments say what is assumed of them.
- `tests/` exercises the library on concrete values.
- `app/` is the program around it: argument handling, files, processes, sockets, HTTP, SQLite,
  WebSockets, smoltcp and certificate generation. It gathers what it needs, asks the library what
  to do, and does it.

## Behaviour where the sources disagree

Where the tool's code and its tests or documentation disagree, the library follows the tests:
the product title is "Medium"; `init-control` with nothing configured sets up a control plane on
`127.0.0.1:8080` and a node `node-home` with service `svc_home_ssh`; the medium `Include` line is
recognised wherever it stands in the main SSH config; a legacy state file is read. Join invites
are written and read in the `control_key=` form that the invite parser and its tests use; the
older `token=` form, still shown in one bootstrap example, is not written.
