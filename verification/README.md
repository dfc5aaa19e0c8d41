# pinger

Monitors the round-trip time of ICMP echo requests to a set of targets.

- `src/` is the verified library:
  - `target.rs`: a target's settings, its RTT history (the last 120 values)
    and statistics, and how a reply updates them; `target_laws.rs` proves
    what holds over every reply and every sequence of replies.
  - `reply.rs`: the outcome of one echo request and the status it maps to.
  - `engine.rs`: the registry with one monitor per address.
  - `control.rs`: the decisions of a monitoring loop (pause, resume, stop).
  - `display.rs`: the texts and the colour shown for a target.
  - `address.rs`: IP addresses as plain integers.
- `app/` is the program around it: reading the configuration (TOML), the
  monitoring threads that send the pings, and the egui window.

The registry in `engine.rs` keeps its entries in a `Vec` with "no address
twice" as its type invariant, not in a `HashMap`. vstd's contracts for
`HashMap` hold only for key types that obey its key model, which vstd
establishes for the integer types and `bool` alone. An address is either a
32-bit IPv4 or a 128-bit IPv6 value, and no single integer type holds every
address of both kinds without two of them colliding; establishing the key
model for `Address` itself would take an assumption, which this crate does
not make. The registry lists its addresses in the order they were added, one
of the orders that walking a hash map could give.
