# ip_tcp

A node of a virtual IPv4 network whose links are UDP sockets: it routes with RIP and speaks TCP,
with retransmission, zero window probing and, if asked for, Reno congestion control.

The library in `src/` is verified with Verus. It holds no threads, clocks or sockets: packets,
tables, buffers and streams are plain state, and each function advances that state by one step and
returns what is to be sent. Times are nanoseconds that the caller hands in.

* `ip`: packets and their checksum, RIP messages, the forwarding table and the decisions of the IP
  layer (deliver, forward, drop, next hop).
* `link`: interfaces and which of them is sent on or received from.
* `tcp`: the ring and the interval bookkeeping behind the receive buffer, the send buffer with its
  window, the stream state machine, and the layer that maps packets to sockets.
* `misc`: commands, configuration lines and small text functions.

What the parts promise together is stated by the proof functions whose names begin with `law_`:
that segments may arrive in any order and are read back in the order they were sent, that only what
was written and not yet acked is sent, that packets and messages survive the wire, that routes
through a neighbor are poisoned towards it, and others.

Header parsing, header writing and the TCP checksum come from `etherparse`, the splitting of command
lines from `shellwords`; `src/tcp/tcp_header.rs` and `src/misc/command.rs` say what is taken on
trust of them.

`app/` is the program around the library: the UDP socket, the threads, name resolution, the
smoothing of round trip times and the command loop. `tests/` run the library.
