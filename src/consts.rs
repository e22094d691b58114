use vstd::prelude::*;

verus! {

/// Longest path content accepted, in bytes, not counting the terminating zero byte.
pub const PATH_MAX: usize = 255;

/// Capacity of an owned path buffer: the longest content plus its terminator.
pub const PATH_MAX_PLUS_ONE: usize = 256;

} // verus!
