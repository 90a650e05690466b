# lumen_dev

The measuring and driving logic of a mesh of lights that share one clock, with
its behaviour stated in contracts and proved by Verus.

- `src/time_sync`: the sync exchange between two boards, and the distribution of
  its error.
- `src/multicast`: a value sent to every device sixty times a second, and the
  loss and jitter of what arrives.
- `src/throughput`, `src/dual_core.rs`: what a renderer's times come to.
- `src/device`: a device: its show clock, its strip, its place in the mesh, the
  messages it acts on, and the loop that ties them together.
- `src/sender`: the desktop that gives devices their programs, and that can be a
  node of the mesh itself.
- `src/le.rs`, `src/modular.rs`, `src/order.rs`, `src/tally.rs`, `src/text.rs`,
  `src/net.rs`: what the rest is built on.

Nothing in `src` opens a socket, reads a clock or touches a pin. `app` does: it
holds the firmware, the desktop programs and the tools, which hand the library
bytes and times and carry out what it says.

Each public function says in its contract what it returns for every input it
accepts. What holds across functions is stated and proved beside them, in public
proof functions: that drift is worked off without the show clock ever going
backwards, that a device which joins a show is on its time at once, that a
program sent in pieces is the program a device parses, that every sequence number
is received or missing, that a strip reads the bytes it was sent, that an alert
always ends.
