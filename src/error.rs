use vstd::prelude::*;

verus! {

/// Errors that arise from converting byte buffers into paths.
#[derive(Clone, Copy, Debug, PartialEq, Eq, Structural)]
pub enum Error {
    /// The bytes hold a byte that is not ASCII.
    NotAscii,
    /// The bytes are not a C string: the terminator is missing or not alone.
    NotCStr,
    /// The content is longer than `PATH_MAX`.
    TooLarge,
}

} // verus!
