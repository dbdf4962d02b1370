//! A Chord distributed-hash-table node core with an epidemic (gossip)
//! dissemination layer.
//!
//! The crate holds the control plane of the overlay: ring arithmetic over the
//! 128-bit identifier space, the text-framed wire codec for Chord and Gossip
//! messages, the request handlers, the bootstrap and stabilization decisions,
//! and the latest-write-wins gossip merge. Socket plumbing, threads and the
//! command line stay outside.

pub mod ring;
pub mod text;
pub mod addr;
pub mod node;
pub mod chord_protocol;
pub mod gossip_protocol;
pub mod gossip_handler;
pub mod routing;
pub mod chord_handler;
pub mod stabilize;
pub mod request;
