use vstd::prelude::*;

verus! {

broadcast use vstd::seq_lib::group_seq_properties;

/// The items of `v` from `start` on, for writing.
///
/// Calls `IndexMut::index_mut` of `Vec` with a `start..` range; std documents
/// that the slice is the tail of the vector and that writes through it are
/// writes to the vector.
#[verifier::external_body]
pub(crate) fn vec_tail_mut<T>(v: &mut Vec<T>, start: usize) -> (r: &mut [T])
    requires
        start <= old(v)@.len(),
    ensures
        (*r)@ == old(v)@.skip(start as int),
        (*final(r))@.len() == (*r)@.len(),
        final(v)@ == old(v)@.take(start as int) + (*final(r))@,
    no_unwind
{
    &mut v[start..]
}

/// `x` is a value that `T::default()` returns.
pub open spec fn is_default<T: Default>(x: T) -> bool {
    call_ensures(T::default, (), x)
}

/// Appends `n` default values to `v`.
pub(crate) fn extend_with_default<T: Default>(v: &mut Vec<T>, n: usize)
    ensures
        final(v)@.len() == old(v)@.len() + n,
        final(v)@.take(old(v)@.len() as int) == old(v)@,
        forall|i: int|
            old(v)@.len() <= i < final(v)@.len() ==> is_default(#[trigger] final(v)@[i]),
{
    let mut i: usize = 0;
    while i < n
        invariant
            i <= n,
            v@.len() == old(v)@.len() + i,
            v@.take(old(v)@.len() as int) == old(v)@,
            forall|j: int|
                old(v)@.len() <= j < v@.len() ==> is_default(#[trigger] v@[j]),
        decreases n - i,
    {
        v.push(T::default());
        i = i + 1;
    }
}

/// Lends its buffer to a writer, which appends at its end.
pub struct VecBufferWriter<T: Default> {
    buf: Vec<T>,
}

impl<T: Default> VecBufferWriter<T> {
    pub closed spec fn contents(&self) -> Seq<T> {
        self.buf@
    }

    pub fn new(buf: Vec<T>) -> (r: Self)
        ensures
            r.contents() == buf@,
    {
        Self { buf }
    }

    /// A writer over `min_size` default values appended after the contents.
    pub fn request_buffer(self, min_size: usize) -> (r: Request<T>)
        ensures
            r.wf(),
            r.earlier() == self.contents(),
            r.written().len() == min_size,
            forall|i: int| 0 <= i < min_size ==> is_default(#[trigger] r.written()[i]),
    {
        let offset = self.buf.len();
        let mut buf = self.buf;
        extend_with_default(&mut buf, min_size);
        let r = Request { offset, buf };
        assert forall|i: int| 0 <= i < min_size implies is_default(#[trigger] r.written()[i]) by {
            assert(r.written()[i] == r.buf@[offset + i]);
        }
        r
    }

    pub fn finish(self) -> (r: Vec<T>)
        ensures
            r@ == self.contents(),
    {
        self.buf
    }
}

/// A region at the end of a buffer that a source writes into.
pub struct Request<T: Default> {
    offset: usize,
    buf: Vec<T>,
}

impl<T: Default> Request<T> {
    /// The contents before the region.
    pub closed spec fn earlier(&self) -> Seq<T> {
        self.buf@.take(self.offset as int)
    }

    /// The region.
    pub closed spec fn written(&self) -> Seq<T> {
        self.buf@.skip(self.offset as int)
    }

    /// The region starts within the buffer.
    pub closed spec fn wf(&self) -> bool {
        self.offset <= self.buf@.len()
    }

    /// The region, for writing.
    pub fn buffer(&mut self) -> (r: &mut [T])
        requires
            old(self).wf(),
        ensures
            final(self).wf(),
            (*r)@ == old(self).written(),
            final(self).written() == (*final(r))@,
            final(self).earlier() == old(self).earlier(),
    {
        vec_tail_mut(&mut self.buf, self.offset)
    }

    pub proof fn lemma_bounds(&self)
        requires
            self.wf(),
        ensures
            self.earlier().len() + self.written().len() <= usize::MAX,
            self.earlier().len() == self.offset(),
    {
        broadcast use vstd::std_specs::vec::axiom_spec_len;

        assert(self.buf.len() == self.buf@.len());
    }

    pub closed spec fn offset(&self) -> nat {
        self.offset as nat
    }

    /// The region, for reading.
    pub fn region(&self) -> (r: &[T])
        requires
            self.wf(),
        ensures
            r@ == self.written(),
    {
        let s = self.buf.as_slice();
        vstd::slice::slice_subrange(s, self.offset, s.len())
    }

    /// Writes `item` at index `i` of the region.
    pub fn set(&mut self, i: usize, item: T)
        requires
            old(self).wf(),
            i < old(self).written().len(),
        ensures
            final(self).wf(),
            final(self).written() == old(self).written().update(i as int, item),
            final(self).earlier() == old(self).earlier(),
    {
        proof {
            broadcast use vstd::std_specs::vec::axiom_spec_len;

            assert(self.buf.len() == self.buf@.len());
        }
        self.buf.set(self.offset + i, item);
    }

    /// Keeps the first `written` items of the region and gives back the buffer.
    pub fn advance(self, written: usize) -> (r: Vec<T>)
        requires
            self.wf(),
            written <= self.written().len(),
        ensures
            r@ == self.earlier() + self.written().take(written as int),
    {
        let offset = self.offset;
        let mut buf = self.buf;
        proof {
            broadcast use vstd::std_specs::vec::axiom_spec_len;

            assert(buf.len() == buf@.len());
        }
        buf.truncate(offset + written);
        buf
    }

    /// Drops the region and gives back the buffer as it was.
    pub fn cancel(self) -> (r: Vec<T>)
        requires
            self.wf(),
        ensures
            r@ == self.earlier(),
    {
        let offset = self.offset;
        let mut buf = self.buf;
        buf.truncate(offset);
        buf
    }
}

} // verus!
