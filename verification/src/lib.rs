//! A small key-value and publish/subscribe service: the wire format of its
//! frames, the store behind it, and the decisions that its client and server
//! take between their I/O steps.

pub mod common;
pub mod text;
pub mod storage;
pub mod mode;
pub mod client;
pub mod sync;
pub mod server;
