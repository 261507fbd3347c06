# RushDB

An in-memory key-value store spoken to over TCP with a small binary protocol,
with periodic snapshots to disk and a command-line client.

- `src/` is the verified library (Verus):
  - `protocol`: request kinds, statuses, the length-prefixed framing, and the
    encoders and incremental decoders of requests and responses;
  - `store`: the key-value store and how the server applies a request to it;
  - `persistence`: snapshots of the store in bincode's format and their
    restoration;
  - `config`: server settings and their defaults;
  - `cli`: what each client command sends and prints, and the shell's
    completions and hints;
  - `bench`: the integer part of the benchmark's latency summary;
  - `text`: UTF-8 checked text and decimal numbers;
  - `wire_laws`, `store_laws`: the proved laws of the protocol and the store.
- `app/` holds the programs around it: `server` (the TCP server),
  `benchmark`, and otherwise the client (`get`, `set`, `del`, `exists`,
  `total`, or an interactive shell with no command).
- `tests/` exercises the library on concrete values.
