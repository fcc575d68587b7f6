//! A BitTorrent client's protocol logic: piece bookkeeping, bitfields, wire
//! messages, handshakes and tracker packets.
pub mod bitfield;
pub mod client;
pub mod common;
pub mod conc;
pub mod constants;
pub mod digest;
pub mod endian;
pub mod error;
pub mod peer_protocol;
pub mod tracker_protocol;
