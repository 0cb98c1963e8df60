use super::BufferStrategy;
use crate::generic_stream::loader::vec_capacity;
use vstd::prelude::*;

verus! {

broadcast use vstd::seq_lib::group_seq_properties;

/// The handle a sequence source receives for one load: the loader's buffer,
/// the capacity observed for it, and the strategy for new buffers.
pub struct Control<'a, T, S: BufferStrategy> {
    buf: Vec<T>,
    cap: usize,
    strategy: &'a S,
}

/// What a load did to the loader's buffer.
pub enum Response<T, E> {
    /// Items were appended to the loader's buffer `buf` in place.
    Appended { buf: Vec<T>, len: usize, cap: usize },
    /// The source moved to the new buffer `buf`; the previous one, `committed`,
    /// is to be appended to the sequence.
    Advance { committed: Vec<T>, buf: Vec<T>, len: usize, cap: usize },
    /// The source has no more data; the buffer is to be appended.
    Finish(Vec<T>),
    /// The source failed; the buffer is back as it was before the load.
    Cancel(Vec<T>, E),
}

/// A writer over the spare capacity of a buffer.
pub struct Request<T> {
    to_append: Vec<T>,
    buf: Vec<T>,
    cap: usize,
    offset: usize,
}

impl<'a, T, S: BufferStrategy> Control<'a, T, S> {
    pub closed spec fn buffer(&self) -> Seq<T> {
        self.buf@
    }

    pub closed spec fn cap(&self) -> nat {
        self.cap as nat
    }

    pub closed spec fn strategy(&self) -> &'a S {
        self.strategy
    }

    pub open spec fn wf(&self) -> bool {
        self.buffer().len() <= self.cap()
    }

    pub fn new(buf: Vec<T>, strategy: &'a S) -> (r: Self)
        ensures
            r.wf(),
            r.buffer() == buf@,
            r.strategy() == strategy,
    {
        let cap = vec_capacity(&buf);
        Self { buf, cap, strategy }
    }

    /// A writer with room for at least `min_size` items: the buffer itself if
    /// its spare capacity suffices, otherwise a new buffer whose capacity the
    /// strategy decides, the current one being committed once the writer
    /// advances.
    pub fn request_writer(self, min_size: usize) -> (r: Request<T>)
        requires
            self.wf(),
        ensures
            r.wf(),
            r.earlier() == self.buffer(),
            r.written() == Seq::<T>::empty(),
            self.cap() - self.buffer().len() >= min_size ==> {
                &&& r.pending_commit() == Seq::<T>::empty()
                &&& r.cap() == self.cap()
            },
            self.cap() - self.buffer().len() < min_size ==> {
                &&& r.pending_commit() == self.buffer()
                &&& r.cap() >= self.strategy().spec_calc_capacity(min_size)
                &&& r.room() == r.cap()
            },
            // the writer has room for `min_size` items wherever the strategy
            // allocates at least that much
            self.cap() - self.buffer().len() >= min_size
                || self.strategy().spec_calc_capacity(min_size) >= min_size ==> r.room() >= min_size,
    {
        let buf = self.buf;
        let offset = buf.len();
        let spare_capacity = self.cap - offset;
        if spare_capacity >= min_size {
            Request { to_append: Vec::new(), buf, cap: self.cap, offset }
        } else {
            let cap = self.strategy.calc_capacity(min_size);
            let fresh: Vec<T> = Vec::with_capacity(cap);
            let fresh_cap = vec_capacity(&fresh);
            let fresh_cap = if fresh_cap >= cap {
                fresh_cap
            } else {
                cap
            };
            Request { to_append: buf, buf: fresh, cap: fresh_cap, offset: 0 }
        }
    }

    pub fn cancel<E>(self, err: E) -> (r: Response<T, E>)
        ensures
            r matches Response::Cancel(b, e) && b@ == self.buffer() && e == err,
    {
        Response::Cancel(self.buf, err)
    }

    pub fn finish<E>(self) -> (r: Response<T, E>)
        ensures
            r matches Response::Finish(b) && b@ == self.buffer(),
    {
        Response::Finish(self.buf)
    }
}

impl<T> Request<T> {
    /// Items of the current buffer that precede this load.
    pub closed spec fn earlier(&self) -> Seq<T> {
        self.to_append@ + self.buf@.take(self.offset as int)
    }

    /// The buffer to commit when the writer advances (empty if none).
    pub closed spec fn pending_commit(&self) -> Seq<T> {
        self.to_append@
    }

    /// Items written through this writer.
    pub closed spec fn written(&self) -> Seq<T> {
        self.buf@.skip(self.offset as int)
    }

    pub closed spec fn cap(&self) -> nat {
        self.cap as nat
    }

    pub closed spec fn room(&self) -> nat {
        (self.cap - self.buf@.len()) as nat
    }

    pub closed spec fn wf(&self) -> bool {
        &&& self.offset <= self.buf@.len() <= self.cap
        &&& self.to_append@.len() > 0 ==> self.offset == 0
    }

    /// Room left in the buffer.
    pub fn capacity(&self) -> (r: usize)
        requires
            self.wf(),
        ensures
            r == self.room(),
    {
        self.cap - self.buf.len()
    }

    /// Number of items written.
    pub fn len(&self) -> (r: usize)
        requires
            self.wf(),
        ensures
            r == self.written().len(),
    {
        self.buf.len() - self.offset
    }

    /// Writes one more item.
    pub fn push(&mut self, item: T)
        requires
            old(self).wf(),
            old(self).room() > 0,
        ensures
            final(self).wf(),
            final(self).room() == old(self).room() - 1,
            final(self).written() == old(self).written().push(item),
            final(self).earlier() == old(self).earlier(),
            final(self).pending_commit() == old(self).pending_commit(),
            final(self).cap() == old(self).cap(),
    {
        self.buf.push(item);
        assert(self.buf@.take(self.offset as int) == old(self).buf@.take(self.offset as int));
    }

    /// Hands the written items over: appended in place, or with the previous
    /// buffer to be committed.
    pub fn advance<E>(self) -> (r: Response<T, E>)
        requires
            self.wf(),
        ensures
            self.pending_commit().len() == 0 ==> (r matches Response::Appended { buf, len, cap }
                && buf@ == self.earlier() + self.written() && len == buf@.len() && cap == self.cap()),
            self.pending_commit().len() > 0 ==> (r matches Response::Advance { committed, buf, len, cap }
                && committed@ == self.earlier() && buf@ == self.written() && len == buf@.len()
                && cap == self.cap()),
    {
        proof {
            assert(self.buf@ == self.buf@.take(self.offset as int) + self.buf@.skip(
                self.offset as int,
            ));
        }
        if self.to_append.len() == 0 {
            let len = self.buf.len();
            Response::Appended { buf: self.buf, len, cap: self.cap }
        } else {
            let len = self.buf.len();
            Response::Advance { committed: self.to_append, buf: self.buf, len, cap: self.cap }
        }
    }

    /// Drops the written items: the current buffer is cut back to what
    /// preceded this load. A buffer that was waiting to be committed is
    /// dropped with the writer.
    pub fn cancel<E>(self, err: E) -> (r: Response<T, E>)
        requires
            self.wf(),
        ensures
            r matches Response::Cancel(b, e) && b@ == (if self.pending_commit().len() > 0 {
                Seq::<T>::empty()
            } else {
                self.earlier()
            }) && e == err,
    {
        let mut buf = self.buf;
        buf.truncate(self.offset);
        Response::Cancel(buf, err)
    }
}

} // verus!
