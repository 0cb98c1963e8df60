use super::chain::{IntermediateNode, NodeChain};
use crate::load_info::LoadInfo;
use vstd::prelude::*;

verus! {

/// How many items `v` can hold without reallocating.
///
/// Calls `Vec::capacity`. The value is chosen by the allocator; the contract
/// states only what std documents of every outcome: it is at least the length.
#[verifier::external_body]
pub(crate) fn vec_capacity<T>(v: &Vec<T>) -> (c: usize)
    ensures
        c >= v@.len(),
{
    v.capacity()
}

/// Appends the items of `other` to `v`, leaving `other` empty.
pub(crate) fn append_all<T>(v: &mut Vec<T>, other: Vec<T>)
    ensures
        final(v)@ == old(v)@ + other@,
{
    let mut other = other;
    v.append(&mut other);
}

/// What a source did with the writer it was handed.
pub enum WriterResult<T, E> {
    /// Items written into the spare capacity of the loader's own buffer.
    PreAllocated(Vec<T>),
    /// Items written into a freshly allocated buffer, with the capacity that
    /// the writer had.
    Allocated(Vec<T>, usize),
    /// The source has no more data.
    Finish,
    /// The source failed.
    Error(E),
}

/// The items a source wrote in one load.
pub open spec fn written_items<T, E>(result: WriterResult<T, E>) -> Seq<T> {
    match result {
        WriterResult::PreAllocated(items) => items@,
        WriterResult::Allocated(items, _) => items@,
        _ => Seq::empty(),
    }
}

/// The handle a source receives to hand over data.
pub struct Control {
    min_capacity: usize,
    pre_allocated_spare: usize,
}

/// A buffer a source writes its items into.
pub enum Writer<T> {
    PreAllocated { items: Vec<T>, cap: usize },
    Allocated { items: Vec<T>, cap: usize },
}

impl Control {
    pub closed spec fn min_capacity(&self) -> nat {
        self.min_capacity as nat
    }

    pub closed spec fn spare(&self) -> nat {
        self.pre_allocated_spare as nat
    }

    /// A writer with room for at least `min_capacity` items: the spare capacity
    /// of the loader's buffer if that suffices, a new buffer of at least
    /// `min_capacity` and the loader's minimum otherwise, whose capacity as the
    /// allocator reports it is the writer's.
    pub fn request_writer<T>(self, min_capacity: usize) -> (w: Writer<T>)
        ensures
            w.wf(),
            w.written() == Seq::<T>::empty(),
            min_capacity <= self.spare() ==> (w is PreAllocated && w.capacity_spec() == self.spare()),
            min_capacity > self.spare() ==> (w is Allocated && w.capacity_spec() >= min_capacity
                && w.capacity_spec() >= self.min_capacity()),
    {
        if min_capacity <= self.pre_allocated_spare {
            Writer::PreAllocated { items: Vec::new(), cap: self.pre_allocated_spare }
        } else {
            let wanted = if min_capacity >= self.min_capacity {
                min_capacity
            } else {
                self.min_capacity
            };
            let items = Vec::with_capacity(wanted);
            let allocated = vec_capacity(&items);
            let cap = if allocated >= wanted {
                allocated
            } else {
                wanted
            };
            Writer::Allocated { items, cap }
        }
    }

    pub fn cancel<T, E>(self, err: E) -> (r: WriterResult<T, E>)
        ensures
            r == WriterResult::<T, E>::Error(err),
    {
        WriterResult::Error(err)
    }

    pub fn finish<T, E>(self) -> (r: WriterResult<T, E>)
        ensures
            r is Finish,
    {
        WriterResult::Finish
    }
}

impl<T> Writer<T> {
    pub open spec fn written(&self) -> Seq<T> {
        match self {
            Writer::PreAllocated { items, .. } => items@,
            Writer::Allocated { items, .. } => items@,
        }
    }

    pub open spec fn capacity_spec(&self) -> nat {
        match self {
            Writer::PreAllocated { cap, .. } => *cap as nat,
            Writer::Allocated { cap, .. } => *cap as nat,
        }
    }

    pub open spec fn wf(&self) -> bool {
        self.written().len() <= self.capacity_spec()
    }

    pub fn capacity(&self) -> (r: usize)
        ensures
            r == self.capacity_spec(),
    {
        match self {
            Writer::PreAllocated { cap, .. } => *cap,
            Writer::Allocated { cap, .. } => *cap,
        }
    }

    pub fn len(&self) -> (r: usize)
        ensures
            r == self.written().len(),
    {
        match self {
            Writer::PreAllocated { items, .. } => items.len(),
            Writer::Allocated { items, .. } => items.len(),
        }
    }

    /// Writes one more item.
    pub fn push(&mut self, item: T)
        requires
            old(self).wf(),
            old(self).written().len() < old(self).capacity_spec(),
        ensures
            final(self).wf(),
            final(self).written() == old(self).written().push(item),
            final(self).capacity_spec() == old(self).capacity_spec(),
            (*final(self) is PreAllocated) <==> (*old(self) is PreAllocated),
    {
        match self {
            Writer::PreAllocated { items, .. } => items.push(item),
            Writer::Allocated { items, .. } => items.push(item),
        }
    }

    /// Hands the written items over to the loader.
    pub fn advance<E>(self) -> (r: WriterResult<T, E>)
        ensures
            self is PreAllocated ==> (r matches WriterResult::PreAllocated(v) && v@ == self.written()),
            self is Allocated ==> (r matches WriterResult::Allocated(v, c) && v@ == self.written()
                && c == self.capacity_spec()),
    {
        match self {
            Writer::PreAllocated { items, .. } => WriterResult::PreAllocated(items),
            Writer::Allocated { items, cap } => WriterResult::Allocated(items, cap),
        }
    }

    pub fn cancel<E>(self, err: E) -> (r: WriterResult<T, E>)
        ensures
            r == WriterResult::<T, E>::Error(err),
    {
        WriterResult::Error(err)
    }
}

/// Reads data from a source into a buffer and appends full buffers to the
/// chain of a stream.
pub struct GenericStreamLoader<T> {
    min_capacity: usize,
    buf: Vec<T>,
}

impl<T> GenericStreamLoader<T> {
    /// Items read but not yet appended to the stream.
    pub closed spec fn pending(&self) -> Seq<T> {
        self.buf@
    }

    pub closed spec fn min_capacity(&self) -> nat {
        self.min_capacity as nat
    }

    pub fn new() -> (r: Self)
        ensures
            r.pending() == Seq::<T>::empty(),
            r.min_capacity() == 0,
    {
        Self { min_capacity: 0, buf: Vec::new() }
    }

    /// How many items are read but not yet appended.
    pub fn pending_len(&self) -> (r: usize)
        ensures
            r == self.pending().len(),
    {
        self.buf.len()
    }

    pub fn set_min_buffer_size(&mut self, size: usize)
        ensures
            final(self).min_capacity() == size,
            final(self).pending() == old(self).pending(),
    {
        self.min_capacity = size;
    }

    /// Appends the pending items to the chain as a node of their own, unless
    /// there are none or the stream has ended.
    pub fn force_commit(&mut self, chain: &mut NodeChain<T>)
        requires
            old(chain).wf(),
        ensures
            final(chain).wf(),
            final(self).min_capacity() == old(self).min_capacity(),
            final(chain).terminated() == old(chain).terminated(),
            final(chain).data() + final(self).pending() == old(chain).data() + old(self).pending(),
            if old(self).pending().len() == 0 || old(chain).terminated() {
                &&& final(chain).bufs() == old(chain).bufs()
                &&& final(chain).examined() == old(chain).examined()
                &&& final(self).pending() == old(self).pending()
            } else {
                &&& final(chain).bufs() == old(chain).bufs().push(old(self).pending())
                &&& final(chain).examined() == old(chain).examined().push(0)
                &&& final(self).pending() == Seq::<T>::empty()
            },
    {
        if self.buf.len() == 0 {
            return ;
        }
        if chain.is_terminated() {
            return ;
        }
        let mut buf = Vec::new();
        std::mem::swap(&mut self.buf, &mut buf);
        let ghost before = *chain;
        chain.append(IntermediateNode::new(buf));
        proof {
            before.bufs().lemma_flatten_push(buf@);
        }
    }

    /// The control handed to the source for one load.
    pub fn control(&self) -> (c: Control)
        ensures
            c.min_capacity() == self.min_capacity(),
            c.spare() + self.pending().len() <= usize::MAX,
    {
        let cap = vec_capacity(&self.buf);
        Control { min_capacity: self.min_capacity, pre_allocated_spare: cap - self.buf.len() }
    }

    /// Completes one load with what the source did: items written into the
    /// loader's buffer stay pending; when the source moved to a new buffer the
    /// old one is appended to the chain; when the source finished, the pending
    /// items are appended as the last node. Nothing is done once the stream
    /// has ended.
    pub fn complete_load<E>(&mut self, chain: &mut NodeChain<T>, result: WriterResult<T, E>) -> (r:
        Result<Option<LoadInfo>, E>)
        requires
            old(chain).wf(),
        ensures
            final(chain).wf(),
            final(self).min_capacity() == old(self).min_capacity(),
            old(chain).terminated() ==> {
                &&& r == Ok::<Option<LoadInfo>, E>(None)
                &&& *final(chain) == *old(chain)
                &&& final(self).pending() == old(self).pending()
            },
            // nothing the source writes is lost or reordered
            !old(chain).terminated() ==> final(chain).data() + final(self).pending() == old(
                chain,
            ).data() + old(self).pending() + written_items(result),
            !old(chain).terminated() ==> match result {
                WriterResult::PreAllocated(items) => {
                    &&& *final(chain) == *old(chain)
                    &&& final(self).pending() == old(self).pending() + items@
                    &&& r matches Ok(Some(info)) && info@.0 == 0
                        && info@.1 == final(self).pending().len() && info@.2 >= info@.1
                },
                WriterResult::Allocated(items, cap) => {
                    &&& final(chain).bufs() == old(chain).bufs().push(old(self).pending())
                    &&& final(chain).examined() == old(chain).examined().push(0)
                    &&& !final(chain).terminated()
                    &&& final(self).pending() == items@
                    // the new buffer holds at least what the writer had room for
                    &&& r matches Ok(Some(info)) && info@.0 == old(self).pending().len() && info@.1
                        == items@.len() && info@.2 >= info@.1 && info@.2 >= cap
                },
                WriterResult::Finish => {
                    &&& final(chain).bufs() == old(chain).bufs().push(old(self).pending())
                    &&& final(chain).examined() == old(chain).examined().push(0)
                    &&& final(chain).terminated()
                    &&& final(self).pending() == Seq::<T>::empty()
                    // at the end of data with nothing pending the answer is `Ok(None)`
                    &&& old(self).pending().len() == 0 ==> r == Ok::<Option<LoadInfo>, E>(None)
                    &&& old(self).pending().len() > 0 ==> (r matches Ok(Some(info)) && info@ == (
                        old(self).pending().len(),
                        0nat,
                        0nat,
                    ))
                },
                WriterResult::Error(e) => {
                    &&& *final(chain) == *old(chain)
                    &&& final(self).pending() == old(self).pending()
                    &&& r == Err::<Option<LoadInfo>, E>(e)
                },
            },
    {
        if chain.is_terminated() {
            return Ok(None);
        }
        match result {
            WriterResult::PreAllocated(items) => {
                append_all(&mut self.buf, items);
                let capacity = vec_capacity(&self.buf);
                let uncommitted = self.buf.len();
                Ok(Some(LoadInfo::new(0, uncommitted, capacity)))
            },
            WriterResult::Allocated(next_buf, cap) => {
                let uncommitted = next_buf.len();
                let allocated = vec_capacity(&next_buf);
                let capacity = if allocated >= cap {
                    allocated
                } else {
                    cap
                };
                let mut buf = next_buf;
                std::mem::swap(&mut self.buf, &mut buf);
                let committed = buf.len();
                let ghost before = *chain;
                chain.append(IntermediateNode::new(buf));
                proof {
                    before.bufs().lemma_flatten_push(buf@);
                }
                Ok(Some(LoadInfo::new(committed, uncommitted, capacity)))
            },
            WriterResult::Finish => {
                let mut buf = Vec::new();
                std::mem::swap(&mut self.buf, &mut buf);
                let committed = buf.len();
                let ghost before = *chain;
                chain.append(IntermediateNode::new_with(buf));
                proof {
                    before.bufs().lemma_flatten_push(buf@);
                }
                if committed == 0 {
                    Ok(None)
                } else {
                    Ok(Some(LoadInfo::new(committed, 0, 0)))
                }
            },
            WriterResult::Error(e) => Err(e),
        }
    }
}

} // verus!
