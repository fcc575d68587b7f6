//! Peer wire message ids and lengths.
pub mod id;
pub mod len;
