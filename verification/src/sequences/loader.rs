use super::buffer::SequenceChain;
use super::control::{Control, Response};
use super::BufferStrategy;
use crate::load_info::LoadInfo;
use vstd::prelude::*;
use std::sync::Arc;

verus! {

broadcast use vstd::seq_lib::group_seq_properties;

/// Appends `buf` to the chain as its new last node.
pub fn commit_to<T>(tail: &mut SequenceChain<T>, buf: Vec<T>)
    ensures
        final(tail).bufs() == old(tail).bufs().push(buf@),
        final(tail).data() == old(tail).data() + buf@,
{
    tail.commit(buf);
    proof {
        old(tail).bufs().lemma_flatten_push(buf@);
    }
}

/// The write side of a sequence: reads from a source into a buffer and
/// commits buffers to the chain.
pub struct GenericSequenceLoader<T, B: BufferStrategy> {
    buf: Vec<T>,
    strategy: Arc<B>,
    chain: SequenceChain<T>,
}

impl<T, B: BufferStrategy> GenericSequenceLoader<T, B> {
    /// Items read but not yet committed.
    pub closed spec fn pending(&self) -> Seq<T> {
        self.buf@
    }

    pub closed spec fn chain_view(&self) -> SequenceChain<T> {
        self.chain
    }

    pub closed spec fn strategy(&self) -> B {
        *self.strategy
    }

    pub fn new(strategy: Arc<B>) -> (r: Self)
        ensures
            r.pending() == Seq::<T>::empty(),
            r.chain_view().bufs() == Seq::<Seq<T>>::empty(),
            r.strategy() == *strategy,
    {
        Self { buf: Vec::new(), strategy, chain: SequenceChain::new() }
    }

    /// The committed data.
    pub fn chain(&self) -> (r: &SequenceChain<T>)
        ensures
            *r == self.chain_view(),
    {
        &self.chain
    }

    /// Commits the pending items as a node of their own.
    pub fn force_commit(&mut self)
        ensures
            final(self).chain_view().bufs() == old(self).chain_view().bufs().push(old(self).pending()),
            final(self).chain_view().data() == old(self).chain_view().data() + old(self).pending(),
            final(self).pending() == Seq::<T>::empty(),
            final(self).strategy() == old(self).strategy(),
    {
        let mut buf = Vec::new();
        std::mem::swap(&mut self.buf, &mut buf);
        commit_to(&mut self.chain, buf);
    }

    /// The control for one load; the loader's buffer moves into it until the
    /// load completes.
    pub fn load(&mut self) -> (c: Control<'_, T, Arc<B>>)
        ensures
            c.wf(),
            c.buffer() == old(self).pending(),
            **c.strategy() == old(self).strategy(),
            final(self).pending() == Seq::<T>::empty(),
            final(self).chain_view() == old(self).chain_view(),
            final(self).strategy() == old(self).strategy(),
    {
        let mut buf = Vec::new();
        std::mem::swap(&mut self.buf, &mut buf);
        Control::new(buf, &self.strategy)
    }

    /// Completes a load with the response of the source: the buffer comes
    /// back, and a buffer that the source left behind is committed.
    pub fn complete_load<E>(&mut self, response: Response<T, E>) -> (r: Result<LoadInfo, E>)
        ensures
            final(self).strategy() == old(self).strategy(),
            match response {
                Response::Appended { buf, len, cap } => {
                    &&& final(self).chain_view() == old(self).chain_view()
                    &&& final(self).pending() == buf@
                    &&& r matches Ok(info) && info@ == (0nat, len as nat, cap as nat)
                },
                Response::Advance { committed, buf, len, cap } => {
                    &&& final(self).chain_view().bufs() == old(self).chain_view().bufs().push(
                        committed@,
                    )
                    &&& final(self).chain_view().data() == old(self).chain_view().data()
                        + committed@
                    &&& final(self).pending() == buf@
                    &&& r matches Ok(info) && info@ == (
                        committed@.len(),
                        len as nat,
                        cap as nat,
                    )
                },
                Response::Finish(buf) => {
                    &&& final(self).chain_view().bufs() == old(self).chain_view().bufs().push(buf@)
                    &&& final(self).chain_view().data() == old(self).chain_view().data() + buf@
                    &&& final(self).pending() == Seq::<T>::empty()
                    &&& r matches Ok(info) && info@ == (buf@.len(), 0nat, 0nat)
                },
                Response::Cancel(buf, e) => {
                    &&& final(self).chain_view() == old(self).chain_view()
                    &&& final(self).pending() == buf@
                    &&& r == Err::<LoadInfo, E>(e)
                },
            },
    {
        match response {
            Response::Appended { buf, len, cap } => {
                self.buf = buf;
                Ok(LoadInfo::new(0, len, cap))
            },
            Response::Advance { committed, buf, len, cap } => {
                let n = committed.len();
                commit_to(&mut self.chain, committed);
                self.buf = buf;
                Ok(LoadInfo::new(n, len, cap))
            },
            Response::Finish(buf) => {
                let n = buf.len();
                commit_to(&mut self.chain, buf);
                self.buf = Vec::new();
                Ok(LoadInfo::new(n, 0, 0))
            },
            Response::Cancel(buf, e) => {
                self.buf = buf;
                Err(e)
            },
        }
    }
}

} // verus!
