use std::collections::VecDeque;
use vstd::prelude::*;

verus! {

/// A stream that keeps all its data in one deque, which its source fills.
pub struct SingleBufferStream<T, S> {
    buf: VecDeque<T>,
    source: S,
}

} // verus!
