//! Event-bridge and state-mirror core for a peer-to-peer client front end.
//!
//! Each adapter consumes a broadcast stream of node events, keeps a local
//! queryable mirror of network state (discovered peers, chat history), and
//! serves request/response operations that read that mirror and fold the
//! outcome of network actions back into it.

pub mod events;
pub mod ident;
pub mod kv;
pub mod mdns;
pub mod messaging;
pub mod peer;
