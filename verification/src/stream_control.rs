use crate::buffer_writer::{self, is_default, VecBufferWriter};
use crate::vecdeque_buffer_writer::{self, VecDequeBufferWriter};
use std::collections::VecDeque;
use std::marker::PhantomData;
use vstd::prelude::*;

verus! {

/// What a source did with a control: the buffer comes back with it.
pub enum Response<T, E> {
    Advance(T),
    Cancel(T, E),
    Finish(T),
}

/// A control that lends a `Vec` to a source.
pub struct VecControl<T: Default, E> {
    buf: Vec<T>,
    _phantom: PhantomData<E>,
}

/// A region at the end of a `Vec` that a source writes into.
pub struct Request<T: Default, E> {
    inner: buffer_writer::Request<T>,
    _phantom: PhantomData<E>,
}

impl<T: Default, E> VecControl<T, E> {
    pub closed spec fn contents(&self) -> Seq<T> {
        self.buf@
    }

    pub fn new(buf: Vec<T>) -> (r: Self)
        ensures
            r.contents() == buf@,
    {
        Self { buf, _phantom: PhantomData }
    }

    /// A region of `min_size` default values after the contents.
    pub fn request_buffer(self, min_size: usize) -> (r: Request<T, E>)
        ensures
            r.wf(),
            r.earlier() == self.contents(),
            r.written().len() == min_size,
            forall|i: int| 0 <= i < min_size ==> is_default(#[trigger] r.written()[i]),
    {
        let inner = VecBufferWriter::new(self.buf).request_buffer(min_size);
        Request { inner, _phantom: PhantomData }
    }

    pub fn cancel(self, err: E) -> (r: Response<Vec<T>, E>)
        ensures
            r matches Response::Cancel(b, e) && b@ == self.contents() && e == err,
    {
        Response::Cancel(self.buf, err)
    }

    pub fn finish(self) -> (r: Response<Vec<T>, E>)
        ensures
            r matches Response::Finish(b) && b@ == self.contents(),
    {
        Response::Finish(self.buf)
    }
}

impl<T: Default, E> Request<T, E> {
    pub closed spec fn earlier(&self) -> Seq<T> {
        self.inner.earlier()
    }

    pub closed spec fn written(&self) -> Seq<T> {
        self.inner.written()
    }

    pub closed spec fn wf(&self) -> bool {
        self.inner.wf()
    }

    /// The region, for writing.
    pub fn buffer(&mut self) -> (r: &mut [T])
        requires
            old(self).wf(),
        ensures
            final(self).wf(),
            (*r)@ == old(self).written(),
            final(self).written() == (*final(r))@,
            final(self).earlier() == old(self).earlier(),
    {
        self.inner.buffer()
    }

    pub proof fn lemma_bounds(&self)
        requires
            self.wf(),
        ensures
            self.earlier().len() + self.written().len() <= usize::MAX,
    {
        self.inner.lemma_bounds();
    }

    /// The region, for reading.
    pub fn region(&self) -> (r: &[T])
        requires
            self.wf(),
        ensures
            r@ == self.written(),
    {
        self.inner.region()
    }

    /// Writes `item` at index `i` of the region.
    pub fn set(&mut self, i: usize, item: T)
        requires
            old(self).wf(),
            i < old(self).written().len(),
        ensures
            final(self).wf(),
            final(self).written() == old(self).written().update(i as int, item),
            final(self).earlier() == old(self).earlier(),
    {
        self.inner.set(i, item)
    }

    /// Keeps the first `written` items of the region.
    pub fn advance(self, written: usize) -> (r: Response<Vec<T>, E>)
        requires
            self.wf(),
            written <= self.written().len(),
        ensures
            r matches Response::Advance(b) && b@ == self.earlier() + self.written().take(
                written as int,
            ),
    {
        Response::Advance(self.inner.advance(written))
    }

    /// Drops the region.
    pub fn cancel(self, err: E) -> (r: Response<Vec<T>, E>)
        requires
            self.wf(),
        ensures
            r matches Response::Cancel(b, e) && b@ == self.earlier() && e == err,
    {
        Response::Cancel(self.inner.cancel(), err)
    }
}

/// A control that lends a `VecDeque` to a source.
pub struct VecDequeControl<T: Default, E> {
    buf: VecDeque<T>,
    _phantom: PhantomData<E>,
}

/// A region at the end of a `VecDeque` that a source writes into.
pub struct DequeRequest<T: Default, E> {
    inner: vecdeque_buffer_writer::Request<T>,
    _phantom: PhantomData<E>,
}

impl<T: Default, E> VecDequeControl<T, E> {
    pub closed spec fn contents(&self) -> Seq<T> {
        self.buf@
    }

    pub fn new(buf: VecDeque<T>) -> (r: Self)
        ensures
            r.contents() == buf@,
    {
        Self { buf, _phantom: PhantomData }
    }

    /// A region of `min_size` default values after the contents.
    pub fn request_buffer(self, min_size: usize) -> (r: DequeRequest<T, E>)
        ensures
            r.wf(),
            r.earlier() == self.contents(),
            r.written().len() == min_size,
            forall|i: int| 0 <= i < min_size ==> is_default(#[trigger] r.written()[i]),
    {
        let inner = VecDequeBufferWriter::new(self.buf).request_buffer(min_size);
        DequeRequest { inner, _phantom: PhantomData }
    }

    pub fn cancel(self, err: E) -> (r: Response<VecDeque<T>, E>)
        ensures
            r matches Response::Cancel(b, e) && b@ == self.contents() && e == err,
    {
        Response::Cancel(self.buf, err)
    }

    pub fn finish(self) -> (r: Response<VecDeque<T>, E>)
        ensures
            r matches Response::Finish(b) && b@ == self.contents(),
    {
        Response::Finish(self.buf)
    }
}

impl<T: Default, E> DequeRequest<T, E> {
    pub closed spec fn earlier(&self) -> Seq<T> {
        self.inner.earlier()
    }

    pub closed spec fn written(&self) -> Seq<T> {
        self.inner.written()
    }

    pub closed spec fn wf(&self) -> bool {
        self.inner.wf()
    }

    /// The region, for writing.
    pub fn buffer(&mut self) -> (r: &mut [T])
        requires
            old(self).wf(),
        ensures
            final(self).wf(),
            (*r)@ == old(self).written(),
            final(self).written() == (*final(r))@,
            final(self).earlier() == old(self).earlier(),
    {
        self.inner.buffer()
    }

    /// Keeps the first `written` items of the region.
    pub fn advance(self, written: usize) -> (r: Response<VecDeque<T>, E>)
        requires
            self.wf(),
            written <= self.written().len(),
        ensures
            r matches Response::Advance(b) && b@ == self.earlier() + self.written().take(
                written as int,
            ),
    {
        Response::Advance(self.inner.advance(written))
    }

    /// Drops the region.
    pub fn cancel(self, err: E) -> (r: Response<VecDeque<T>, E>)
        requires
            self.wf(),
        ensures
            r matches Response::Cancel(b, e) && b@ == self.earlier() && e == err,
    {
        Response::Cancel(self.inner.cancel(), err)
    }
}

} // verus!
