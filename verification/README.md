# flexicast

Verified logic of Flexicast QUIC: one source sends a flow to many receivers on a
multicast path, and repairs losses on the unicast connection with each receiver.

The library (`src/`) is proved with Verus. It holds no socket and no clock: times
are arguments, packets are bytes, and whatever is computed in floating point, or drawn
by its weight, is handed in. Identifiers and secrets come from `ring`.

* `ranges`, `stream`, `recovery`, `path`, `connection`: the state of a connection, as
  far as flexicast needs it.
* `flexicast`: acknowledgment aggregation (`ack`), reliability (`reliable`), the
  exchange between a flow and its unicast paths (`control`), announcements, and
  congestion control (`congestion`). `laws` and `delivery` state what holds across
  these operations: for example, that all that a receiver lost reaches its unicast
  path.
* `fc_app`: what the applications do with RTP packets, pacing, channels, statistics
  and files.
* `source` and `receiver`: the decisions of the two programs.

`app/` is the ordinary Rust around it: sockets, tasks, options and the event loops. The
QUIC stack itself comes from the program that links it, through the traits in
`app/engine.rs`.

Numbers that are floating point elsewhere are bit patterns here (`rate`). They are
compared as numbers, and arithmetic on them is done by the caller.
