//! Timeouts, in seconds.
use vstd::prelude::*;

verus! {

/// How long to wait for a peer connection.
pub const PEER_CONNECTION: u64 = 60;

/// How long a connection may stay silent before a keep-alive is sent.
pub const KEEP_ALIVE: u64 = 2 * 60;

} // verus!
