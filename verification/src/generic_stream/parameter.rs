use vstd::prelude::*;

verus! {

/// Settings of a generic stream.
#[derive(Debug)]
pub struct GenericStreamParameter {
    /// The least capacity of a newly allocated segment buffer.
    min_capacity: usize,
}

impl Default for GenericStreamParameter {
    fn default() -> (r: Self)
        ensures
            r.min_capacity() == 16,
    {
        Self { min_capacity: 16 }
    }
}

impl GenericStreamParameter {
    pub closed spec fn min_capacity(&self) -> nat {
        self.min_capacity as nat
    }

    pub fn with_min_capacity(self, min_capacity: usize) -> (r: Self)
        ensures
            r.min_capacity() == min_capacity,
    {
        let mut this = self;
        this.min_capacity = min_capacity;
        this
    }

    /// The capacity of a new segment buffer that is to hold `min_size` items.
    pub fn calc_new_segment_capacity(&self, min_size: usize) -> (r: usize)
        ensures
            r == if min_size >= self.min_capacity() {
                min_size as nat
            } else {
                self.min_capacity()
            },
    {
        if min_size >= self.min_capacity {
            min_size
        } else {
            self.min_capacity
        }
    }
}

} // verus!
