//! The library's error type.

use vstd::prelude::*;

verus! {

/// The failures of the library's operations.
#[derive(Debug)]
pub enum Error {
    /// The call does not fit the request's streaming setting.
    StreamingNotSupported(String),
    /// A time component fell outside its range.
    TimeComponentRangeError(time::error::ComponentRange),
    /// An error that fits no other kind.
    UnknownError(String),
}

} // verus!
