//! A user-space TCP engine over IPv4.
//!
//! The crate holds the protocol logic: the segment codec, the per-connection
//! socket record with its send and receive control blocks, the retransmission
//! timeout estimator, and the engine that drives the state machine over a table
//! of sockets. Every function here is a plain computation on values: the
//! engine consumes received bytes and clock readings and hands back the
//! segments to put on the wire and the events to publish. Raw sockets, threads
//! and blocking are left to the caller.
//!
//! Addresses are IPv4 addresses held as `u32` in host byte order. Points in
//! time and durations are nanoseconds held as `u64`.
//!
//! - [`packet`]: the segment codec and its checksum.
//! - [`tcpflags`]: the flag bits.
//! - [`seqnum`]: arithmetic on sequence numbers that wrap around.
//! - [`socket`]: the socket record and the timeout estimator.
//! - [`model`]: what each step of the engine does, as mathematics.
//! - [`tcp`]: the engine itself, step by step as the model says.
//! - [`invariants`]: what holds of every socket, and that each step keeps it.
//! - [`route`]: reading the local address out of the answer to a route query.

pub mod invariants;
pub mod model;
pub mod packet;
pub mod route;
pub mod seqnum;
pub mod socket;
pub mod tcp;
pub mod tcpflags;
