# udp_transfer

File transfer over UDP: a reliable transport of its own, the search for a path
between two hosts, and the two sides of a transfer that a server brings together.
The library is written in Verus. Its functions state in `requires` and `ensures`
what they do, and Verus proves it.

## Layout

- `src/time_wheel`: a hierarchical timing wheel with a heap of deadlines.
  `firing.rs` says which timers fire in which order as the clock moves; `laws.rs`
  proves what holds of a timer over any run of operations.
- `src/reliable_core`: one connection as a state machine. It takes packets and
  elapsed time and gives packets and events. `transition.rs` and `sending.rs` say
  what each step does to a connection; `laws.rs`, `delivery_laws.rs` and
  `flush_laws.rs` prove what follows of the whole: bytes are read as they were
  written, nothing that was sent is forgotten before it is acknowledged, no window
  is passed.
- `src/reliable_udp`: many connections behind one socket, the cookies that keep
  forged addresses out, and the streams that callers see.
- `src/network_probe`: interfaces, routes, candidates, checks, and the choice of a
  path.
- `src/transfer_client`: tickets and their file format, data frames, and the
  decisions of whoever offers files and whoever accepts them.
- `src/server_app`, `src/tui_app`: settings, arguments and screens of the two
  programs.
- `src/wire.rs`: packets and frames, and the trait by which a layout of packets
  with its key exchange is plugged in.
- `app`: sockets, files, terminals and tasks around the library. It is generic
  over the libraries that lay out packets and messages, run a transfer session and
  relay data.
- `tests`: the behaviour of the library on concrete values.

## What is believed without proof

Each call into another crate stands in one small function marked
`#[verifier::external_body]`, with a doc comment that says what is claimed of the
call: `slotmap` (the table of timers), `getrandom`, `hmac` with `sha2`, `subtle`,
`blake3`, and the clock and the UTF-8 decoder of the standard library. Two functions
of the standard library are called directly, under a contract that is believed:
`usize::is_power_of_two` and `u32::to_le`.
