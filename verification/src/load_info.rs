use vstd::prelude::*;

verus! {

/// What a single load of a stream loader did: how much data it handed over
/// to the stream, how much it keeps buffered, and the capacity of its buffer.
#[derive(Debug, Clone, Copy, PartialEq, Eq)]
pub struct LoadInfo {
    committed: usize,
    uncommitted: usize,
    buffer_capacity: usize,
}

impl View for LoadInfo {
    type V = (nat, nat, nat);

    closed spec fn view(&self) -> (nat, nat, nat) {
        (self.committed as nat, self.uncommitted as nat, self.buffer_capacity as nat)
    }
}

impl LoadInfo {
    pub fn new(committed: usize, uncommitted: usize, buffer_capacity: usize) -> (r: Self)
        ensures
            r@ == (committed as nat, uncommitted as nat, buffer_capacity as nat),
    {
        Self { committed, uncommitted, buffer_capacity }
    }

    /// The amount of data that was appended to the stream.
    pub fn committed(&self) -> (r: usize)
        ensures
            r == self@.0,
    {
        self.committed
    }

    /// The amount of data read into the buffer but not yet appended to the stream.
    pub fn uncommitted(&self) -> (r: usize)
        ensures
            r == self@.1,
    {
        self.uncommitted
    }

    pub fn buffer_capacity(&self) -> (r: usize)
        ensures
            r == self@.2,
    {
        self.buffer_capacity
    }
}

} // verus!
