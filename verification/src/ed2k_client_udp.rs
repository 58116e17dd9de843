//! Reasking a queued source over UDP between clients.
//!
//! A client keeps its place in the queue of a source by asking again from time
//! to time over UDP, without a connection. `codec` holds the messages,
//! `outbound` and `dispatch` their datagrams, `registry` the questions still open,
//! `state` and `source_set` the sources of a transfer, `service` all transfers
//! together, `reciprocity` the answers to others, `buddy_relay` the detour over
//! a buddy, `runtime` the events for the rest of the client, and `dump` the
//! trace of datagrams.
pub mod buddy_relay;
pub mod codec;
pub mod dispatch;
pub mod dump;
pub mod outbound;
pub mod reciprocity;
pub mod registry;
pub mod runtime;
pub mod service;
pub mod source_set;
pub mod state;
