# astraval

A Perforce-compatible client library, verified with Verus.

- `src/` is the library. Every function in it is verified against its contract.
  - `frame`: the RPC wire codec. It is stated as `spec_encode`/`spec_decode`,
    and laws relate the two.
  - `connection`: framed messages over any `Read + Write` transport.
  - `handshake`: the `protocol` opener, reply parsing and the handshake's
    send and read steps.
  - `config`: `P4CONFIG` parsing, the per-candidate step of the file search,
    and precedence resolution (flag, config file, environment, default).
  - `output`: tagged records rendered as `-ztag` lines or `-G` marshal bytes.
  - `directive`: which tracing filter directives the filter parser can read
    without failing.
  - `error`, `exit`, `info`, `telemetry`, `cli`, `text`: the error spine, exit
    codes, the `info` record, verbosity and filter choice, flag translation,
    and string primitives.
- `app/` is the `astraval` binary. It handles argument parsing with clap,
  filesystem and environment access, sockets, stdout and stderr, and the
  tracing subscriber. It calls the library for every decision.
- `tests/` runs the library on concrete values.

Outside calls stand behind a few trusted wrappers, each documented where it
is declared. The I/O wrappers around `std::io::Read`/`Write` append each call
and its outcome to a connection's ghost call log. Beyond that they state only
what std documents.
