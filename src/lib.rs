//! An in-memory, multi-node message broker: its wire codec, cluster view,
//! topic/queue registry, request handlers and connection framing.

pub mod client;
pub mod cluster;
pub mod handler;
pub mod protocol;
pub mod queue;
pub mod server;
