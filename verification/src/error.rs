//! Error categories shared by the library's fallible operations.

use vstd::prelude::*;

verus! {

/// The broad category of a failure, in the terms an I/O error uses.
#[derive(PartialEq, Eq, Structural, Debug, Clone, Copy)]
pub enum ErrorKind {
    /// The data received was not well formed.
    InvalidData,
    /// Any other failure.
    Other,
}

} // verus!
