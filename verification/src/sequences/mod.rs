pub mod buffer;
pub mod control;
pub mod loader;

use vstd::prelude::*;
use std::rc::Rc;
use std::sync::Arc;

verus! {

/// Decides how large a freshly allocated buffer is, given the least capacity
/// that the writer asked for.
pub trait BufferStrategy {
    spec fn spec_calc_capacity(&self, min_capacity: usize) -> usize;

    fn calc_capacity(&self, min_capacity: usize) -> (r: usize)
        ensures
            r == self.spec_calc_capacity(min_capacity),
    ;
}

impl<B: BufferStrategy> BufferStrategy for Arc<B> {
    open spec fn spec_calc_capacity(&self, min_capacity: usize) -> usize {
        (**self).spec_calc_capacity(min_capacity)
    }

    fn calc_capacity(&self, min_capacity: usize) -> (r: usize) {
        let b: &B = &**self;
        b.calc_capacity(min_capacity)
    }
}

impl<B: BufferStrategy> BufferStrategy for Rc<B> {
    open spec fn spec_calc_capacity(&self, min_capacity: usize) -> usize {
        (**self).spec_calc_capacity(min_capacity)
    }

    fn calc_capacity(&self, min_capacity: usize) -> (r: usize) {
        let b: &B = &**self;
        b.calc_capacity(min_capacity)
    }
}

impl<'a, B: BufferStrategy> BufferStrategy for &'a B {
    open spec fn spec_calc_capacity(&self, min_capacity: usize) -> usize {
        (**self).spec_calc_capacity(min_capacity)
    }

    fn calc_capacity(&self, min_capacity: usize) -> (r: usize) {
        let b: &B = *self;
        b.calc_capacity(min_capacity)
    }
}

} // verus!

verus! {

/// Another pointer to the same value.
///
/// Calls `Arc::clone`, which std documents as making a new pointer to the same
/// allocation; the contract states that the pointee is the same.
#[verifier::external_body]
pub(crate) fn arc_clone<B>(a: &Arc<B>) -> (r: Arc<B>)
    ensures
        *r == **a,
{
    Arc::clone(a)
}

/// Builds the read side and the write side of a sequence that share one
/// buffer strategy.
pub struct GenericSequenceBuilder<B: BufferStrategy> {
    strategy: Arc<B>,
}

impl<B: BufferStrategy> GenericSequenceBuilder<B> {
    pub closed spec fn strategy(&self) -> B {
        *self.strategy
    }

    pub fn new(strategy: Arc<B>) -> (r: Self)
        ensures
            r.strategy() == *strategy,
    {
        Self { strategy }
    }

    /// A head at the start of an empty sequence and a loader that fills it.
    pub fn build<T>(&self) -> (r: (buffer::GenericSequenceBuffer, loader::GenericSequenceLoader<T, B>))
        ensures
            r.0.node() == 0 && r.0.offset() == 0,
            r.1.pending() == Seq::<T>::empty(),
            r.1.chain_view().bufs() == Seq::<Seq<T>>::empty(),
            r.1.strategy() == self.strategy(),
    {
        let buffer = buffer::GenericSequenceBuffer::new();
        let loader = loader::GenericSequenceLoader::new(arc_clone(&self.strategy));
        (buffer, loader)
    }
}

} // verus!
