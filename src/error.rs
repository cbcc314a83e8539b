//! The errors that decoding a response can end in.

use vstd::prelude::*;

verus! {

/// How a response failed.
#[derive(Clone, Debug, PartialEq, Eq)]
pub enum Error {
    /// The service reported an error, with its message (or, for a status other than success,
    /// the body's text).
    Message(String),
    /// A body that was to hold one JSON value holds none.
    Json,
    /// A body that was to be read as text is not UTF-8.
    Utf8,
}

} // verus!
