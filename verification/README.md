# horus_dev_relay

A store-and-forward relay for opaque messages, written and proved in Verus.

- Messages wait in named queues, for as long as their time to live allows.
- A poll leases a message instead of deleting it. The reader confirms the lease,
  or the message is delivered again.
- An onion packet is opened by one layer and its content goes to the queue that
  the layer names.
- All of it is reached over a small HTTP surface, together with a username
  registry.

`src/` is the verified library, `tests/` runs it, and `app/` is the server
around it: sockets, the state file, JSON, service discovery, and the registry.

`src/state.rs` says what a relay is, `src/relay.rs` contracts every operation
over that model, and `src/laws.rs` and `src/trace.rs` prove what holds across
operations and over any run of them. `src/framing.rs` proves that a request is
read as the same whatever pieces it arrives in, and that a rendered answer is
read back as it was meant.

What is taken on trust from other crates stands in `src/crypto.rs` and
`src/clock.rs`, and at one place each in `src/http.rs` and `src/text.rs`.
