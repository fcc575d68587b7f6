//! Protocol constants.
pub mod msg;
pub mod timeouts;

use vstd::prelude::*;

verus! {

/// How many piece requests a peer may have outstanding.
pub const REQUESTS_CAPACITY: u32 = 5;

/// The client's tag at the start of its peer id.
pub const CLIENT_PREFIX: &'static str = "-pB";

/// The client's version, written into its peer id.
pub const CLIENT_VERSION: &'static str = "0.1.0";

} // verus!
