# raw_h2

The client side of an HTTP/2 connection as a verified state machine.

`src/` performs no I/O. A `Connection` is told what its user wants and what the peer sends;
it answers, and keeps the frames to write and the tasks to wake until the transport collects
them.

- `client/simple2.rs`: `SimpleClient`, which opens requests and closes the connection,
  `SendStream`, the sending half of one stream, and `HandleService`, which passes messages on.
- `connection.rs`: the state machine. `table.rs`: its streams by identifier. `stream.rs`: the
  state of one stream.
- `model.rs`: a connection as a mathematical value, and what each event makes of it. The
  contracts of the executable functions are stated over it.
- `laws.rs`: what holds over several operations.
- `frame.rs`, `message.rs`, `error.rs`, `task.rs`: what goes in and out.
- `foreign.rs`: the types and functions of other crates, with what is taken for granted of them.

`app/` runs the client over an `ntex` transport. The frame codec, and the dispatcher that turns
incoming frames into events, are handed to it.
