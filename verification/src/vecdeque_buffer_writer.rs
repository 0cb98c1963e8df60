use crate::buffer_writer::is_default;
use std::collections::VecDeque;
use vstd::prelude::*;

verus! {

broadcast use vstd::seq_lib::group_seq_properties;

/// The two contiguous parts of a deque.
///
/// Calls `VecDeque::as_slices`; std documents that the two slices hold the
/// contents of the deque in order. Where the split falls is not stated.
#[verifier::external_body]
pub(crate) fn deque_as_slices<T>(d: &VecDeque<T>) -> (r: (&[T], &[T]))
    ensures
        r.0@ + r.1@ == d@,
{
    d.as_slices()
}

/// Moves the contents of a deque into one contiguous part and lends it out.
///
/// Calls `VecDeque::make_contiguous`; std documents that the order of the
/// elements is kept and that the returned slice is the whole contents, writes
/// through it being writes to the deque.
#[verifier::external_body]
pub(crate) fn deque_make_contiguous<T>(d: &mut VecDeque<T>) -> (r: &mut [T])
    ensures
        (*r)@ == old(d)@,
        (*final(r))@.len() == (*r)@.len(),
        final(d)@ == (*final(r))@,
    no_unwind
{
    d.make_contiguous()
}

/// The items of slice `s` from `start` on, for writing.
///
/// Calls `IndexMut::index_mut` of slices with a `start..` range.
#[verifier::external_body]
pub(crate) fn slice_tail_mut<T>(s: &mut [T], start: usize) -> (r: &mut [T])
    requires
        start <= (*old(s))@.len(),
    ensures
        (*r)@ == (*old(s))@.skip(start as int),
        (*final(r))@.len() == (*r)@.len(),
        (*final(s))@ == (*old(s))@.take(start as int) + (*final(r))@,
    no_unwind
{
    &mut s[start..]
}

/// Lends its deque to a writer, which appends at its end.
pub struct VecDequeBufferWriter<T: Default> {
    buf: VecDeque<T>,
}

/// A region at the end of a deque that a source writes into.
pub struct Request<T: Default> {
    offset: usize,
    buf: VecDeque<T>,
}

impl<T: Default> VecDequeBufferWriter<T> {
    pub closed spec fn contents(&self) -> Seq<T> {
        self.buf@
    }

    pub fn new(buf: VecDeque<T>) -> (r: Self)
        ensures
            r.contents() == buf@,
    {
        Self { buf }
    }

    /// A writer over `min_size` default values appended after the contents;
    /// the deque is made contiguous when the region would otherwise start in
    /// a part too short to hold `min_size` items.
    pub fn request_buffer(self, min_size: usize) -> (r: Request<T>)
        ensures
            r.wf(),
            r.earlier() == self.contents(),
            r.written().len() == min_size,
            forall|i: int| 0 <= i < min_size ==> is_default(#[trigger] r.written()[i]),
    {
        let offset = self.buf.len();
        let mut buf = self.buf;
        let mut i: usize = 0;
        while i < min_size
            invariant
                i <= min_size,
                buf@.len() == offset + i,
                buf@.take(offset as int) == self.contents(),
                offset == self.contents().len(),
                forall|j: int| offset <= j < buf@.len() ==> is_default(#[trigger] buf@[j]),
            decreases min_size - i,
        {
            buf.push_back(T::default());
            i = i + 1;
        }
        let (left, _) = deque_as_slices(&buf);
        if offset < left.len() && (left.len() - offset) < min_size {
            deque_make_contiguous(&mut buf);
        }
        let r = Request { offset, buf };
        assert forall|i: int| 0 <= i < min_size implies is_default(#[trigger] r.written()[i]) by {
            assert(r.written()[i] == r.buf@[offset + i]);
        }
        r
    }

    pub fn finish(self) -> (r: VecDeque<T>)
        ensures
            r@ == self.contents(),
    {
        self.buf
    }
}

impl<T: Default> Request<T> {
    /// The contents before the region.
    pub closed spec fn earlier(&self) -> Seq<T> {
        self.buf@.take(self.offset as int)
    }

    /// The region.
    pub closed spec fn written(&self) -> Seq<T> {
        self.buf@.skip(self.offset as int)
    }

    /// The region starts within the buffer.
    pub closed spec fn wf(&self) -> bool {
        self.offset <= self.buf@.len()
    }

    /// The region, for writing. The deque is first made one contiguous part,
    /// which leaves a deque that already is one as it is.
    pub fn buffer(&mut self) -> (r: &mut [T])
        requires
            old(self).wf(),
        ensures
            final(self).wf(),
            (*r)@ == old(self).written(),
            final(self).written() == (*final(r))@,
            final(self).earlier() == old(self).earlier(),
    {
        let offset = self.offset;
        let all = deque_make_contiguous(&mut self.buf);
        slice_tail_mut(all, offset)
    }

    /// Keeps the first `written` items of the region and gives back the deque.
    pub fn advance(self, written: usize) -> (r: VecDeque<T>)
        requires
            self.wf(),
            written <= self.written().len(),
        ensures
            r@ == self.earlier() + self.written().take(written as int),
    {
        let offset = self.offset;
        let mut buf = self.buf;
        proof {
            broadcast use vstd::std_specs::vecdeque::axiom_spec_len;

            assert(buf.len() == buf@.len());
        }
        buf.truncate(offset + written);
        buf
    }

    /// Drops the region and gives back the deque as it was.
    pub fn cancel(self) -> (r: VecDeque<T>)
        requires
            self.wf(),
        ensures
            r@ == self.earlier(),
    {
        let offset = self.offset;
        let mut buf = self.buf;
        buf.truncate(offset);
        buf
    }
}

} // verus!
