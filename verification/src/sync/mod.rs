//! The protocol of the reader-writer lock and the shared part of the
//! reference-counted pointer.

pub mod rwlock;
pub mod arc;
