//! Turning optional and fallible values into the library's `Result`.
use vstd::prelude::*;

use crate::error::ClientError;

verus! {

/// A value that can be turned into a `Result` of the library.
pub trait IntoResult<T> {
    /// The value as a `Result`.
    fn into_res(self) -> (r: Result<T, ClientError>);
}

impl<T> IntoResult<T> for Option<T> {
    /// `Some(v)` becomes `Ok(v)`; `None` becomes the missing-value error.
    fn into_res(self) -> (r: Result<T, ClientError>)
        ensures
            match self {
                Some(v) => r == Ok::<T, ClientError>(v),
                None => r matches Err(ClientError::NoneValue),
            },
    {
        match self {
            Some(v) => Ok(v),
            None => Err(ClientError::NoneValue),
        }
    }
}

impl<T> IntoResult<T> for Result<T, ClientError> {
    /// A `Result` of the library is already one.
    fn into_res(self) -> (r: Result<T, ClientError>)
        ensures
            r == self,
    {
        self
    }
}

} // verus!
