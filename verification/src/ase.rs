//! Identity of a sprite file inside one batch.
use vstd::prelude::*;

verus! {

/// Identifier of a sprite file: its position in the batch it was submitted with.
#[derive(Debug, Clone, Copy, PartialEq, Eq, Hash, Structural)]
pub struct AseId(pub u32);

impl AseId {
    /// Creates an id from its inner value.
    pub fn new(inner: u32) -> (id: Self)
        ensures
            id.0 == inner,
    {
        Self(inner)
    }

    /// Returns a reference to the inner value.
    pub fn inner(&self) -> (inner: &u32)
        ensures
            *inner == self.0,
    {
        &self.0
    }
}

} // verus!
