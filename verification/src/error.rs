use vstd::prelude::*;

verus! {

/// Why an element could not be added.
#[derive(Debug, PartialEq, Eq, Structural, Copy, Clone)]
pub enum Error {
    /// Every place of the deque is taken.
    BufferFull,
}

} // verus!
