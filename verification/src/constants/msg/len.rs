//! Message lengths (of id and payload), or of their fixed part.
use vstd::prelude::*;

verus! {

pub const CHOKE: u32 = 1;
pub const UNCHOKE: u32 = 1;
pub const INTERESTED: u32 = 1;
pub const NOT_INTERESTED: u32 = 1;
pub const HAVE: u32 = 5;
pub const BITFIELD_PREAMBLE: u32 = 1;
pub const REQUEST: u32 = 13;
pub const PIECE_PREAMBLE: u32 = 9;
pub const CANCEL: u32 = 13;

} // verus!
