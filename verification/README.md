# michoi

A PENGUIN0 intercom Agent. It stands for the household's Pad on the wire, in one of two ways:
as the Pad itself on a UDP socket, or next to a physical Pad on a bridge that it taps. It
serves call control, events and media to backends and to a browser over HTTP.

- `src/` is the library, verified with Verus: the packet formats, the call state machine, the
  Agents, discovery, the software door station, the capture reader, firewall rules, HTTP
  parsing and routing, negotiation and configuration rules. It does no I/O. Each function's
  contract says what it returns; proof functions whose names begin with `law_` state what holds
  across functions. What the library takes on trust, of other crates and of the standard
  library, stands in `digest.rs`, `json.rs` and `text.rs`.
- `app/` is the program: arguments, files, sockets, timers and processes around the library.
- `tests/` exercises the library from outside.
