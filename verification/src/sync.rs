use vstd::prelude::*;

verus! {

/// Identifier of a commit: the raw bytes of its object id.
#[derive(Clone, Copy, Debug, PartialEq, Eq, Hash, PartialOrd, Ord)]
pub struct CommitId(pub [u8; 20]);

impl CommitId {
    /// Wrap the raw bytes of an object id.
    pub fn new(bytes: [u8; 20]) -> (id: Self)
        ensures
            id.0 == bytes,
    {
        CommitId(bytes)
    }

    /// The raw bytes of this id.
    pub fn as_bytes(&self) -> (bytes: [u8; 20])
        ensures
            bytes == self.0,
    {
        self.0
    }
}

} // verus!
