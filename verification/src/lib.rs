//! A store-and-forward relay: named queues of opaque messages with a time to
//! live, leases that keep a polled message until its reader confirms it, one
//! onion layer of forwarding, and the HTTP surface that exposes all of it.
//!
//! `state` models the relay and `relay` implements it over the tables of
//! `store`. `laws` states what holds across operations, `trace` what holds over
//! any run of them, and `plain` what all of it means on characters, bytes and
//! numbers alone. `http` and `reply` take requests and answers apart and put
//! them together, with `text` and `digits` underneath; `server` leads from one to
//! the other, and `framing` proves what holds of the bytes on the wire.
//! `onion` unwraps forwarded packets; `crypto` and `clock` hold what is taken
//! from outside.
pub mod clock;
pub mod crypto;
pub mod digits;
pub mod framing;
pub mod http;
pub mod laws;
pub mod onion;
pub mod plain;
pub mod relay;
pub mod reply;
pub mod server;
pub mod state;
pub mod store;
pub mod text;
pub mod trace;

pub use clock::{millis, now_ms};
pub use http::{content_length, find_headers_end, Action, Inquiry, RequestReader};
pub use onion::{relay_secret, OnionLayer};
pub use relay::{ClaimError, RegistryError, Relay, RelayError, Snapshot};
pub use reply::Reply;
pub use server::{serve, serve_claim, serve_inquiry, Served};
pub use store::{Lease, Queue, RelayMessage};
