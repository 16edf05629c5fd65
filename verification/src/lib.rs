//! Core of a multi-user chat server: the binary framing codec, the JSON
//! payload grammar of the message catalog, per-connection decode and send
//! state machines, per-worker routing of chat events, shutdown flags and
//! monitoring counters.
//!
//! All I/O (sockets, pollers, threads, channels) lives outside this crate;
//! the functions here take the bytes and events that the I/O layer hands
//! them and decide, with verified contracts, what the protocol does next.
pub mod codec;
pub mod message_factory;
pub mod json;
pub mod messages;
pub mod message;
pub mod event;
pub mod connection;
pub mod connection_thread;
pub mod server;
pub mod server_stop;
pub mod client;
pub mod monitoring;
pub mod round_trip;
