//! The library's errors.
use vstd::prelude::*;
use vstd::std_specs::cmp::PartialEqSpec;

verus! {

/// What went wrong.
#[derive(Debug)]
pub enum ClientError {
    /// A received value differed from the expected one, in the step named by
    /// `context`.
    Mismatch { context: String },
    /// An optional value was absent.
    NoneValue,
    /// A tracker URL that is neither `udp://`, `http://` nor `https://`.
    UnknownTrackerUrl { url: String },
    /// The tracker URL pattern could not be compiled.
    BadPattern,
}

/// `Ok` when `received` equals `expected`; otherwise a mismatch error that
/// names `context`.
pub fn expect_eq<T: PartialEq>(received: T, expected: T, context: &str) -> (r: Result<(), ClientError>)
    requires
        T::obeys_eq_spec(),
    ensures
        r is Ok <==> received.eq_spec(&expected),
        r matches Err(e) ==> e matches ClientError::Mismatch { context: c } && c@ == context@,
{
    if received != expected {
        return Err(ClientError::Mismatch { context: context.to_owned() });
    }
    Ok(())
}

} // verus!
