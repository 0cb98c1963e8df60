use vstd::prelude::*;

verus! {

/// Hands out one segment, once.
pub struct Nodes<'me, T: ?Sized> {
    me: Option<&'me T>,
}

impl<'me, T: ?Sized> Nodes<'me, T> {
    pub closed spec fn remaining(&self) -> Option<&'me T> {
        self.me
    }

    pub fn new(segment: &'me T) -> (r: Self)
        ensures
            r.remaining() == Some(segment),
    {
        Self { me: Some(segment) }
    }

    /// The segment on the first call, `None` afterwards.
    pub fn next(&mut self) -> (r: Option<&'me T>)
        ensures
            r == old(self).remaining(),
            final(self).remaining() is None,
    {
        let r = self.me;
        self.me = None;
        r
    }
}

/// A stream over a slice.
#[derive(Debug)]
pub struct SliceStream<'me, T> {
    slice: &'me [T],
}

/// A saved position of a slice stream.
pub struct Anchor<'me, T> {
    stream: SliceStream<'me, T>,
}

impl<'me, T> Clone for SliceStream<'me, T> {
    fn clone(&self) -> (r: Self)
        ensures
            r@ == self@,
    {
        Self { slice: self.slice }
    }
}

impl<'me, T> View for SliceStream<'me, T> {
    type V = Seq<T>;

    closed spec fn view(&self) -> Seq<T> {
        self.slice@
    }
}

impl<'me, T> SliceStream<'me, T> {
    pub fn new(slice: &'me [T]) -> (r: Self)
        ensures
            r@ == slice@,
    {
        Self { slice }
    }

    /// The rest of the stream as its only segment.
    pub fn segments(&self) -> (r: Nodes<'me, [T]>)
        ensures
            r.remaining() matches Some(s) && s@ == self@,
    {
        Nodes::new(self.slice)
    }

    /// The stream without its first `count` items.
    pub fn advance(self, count: usize) -> (r: Self)
        requires
            count <= self@.len(),
        ensures
            r@ == self@.skip(count as int),
    {
        let s = self.slice;
        Self { slice: vstd::slice::slice_subrange(s, count, s.len()) }
    }

    /// Saves the current position.
    pub fn anchor(&self) -> (r: Anchor<'me, T>)
        ensures
            r.saved() == self@,
    {
        Anchor { stream: self.clone() }
    }

    /// Goes back to a saved position.
    pub fn rewind(self, anchor: Anchor<'me, T>) -> (r: Self)
        ensures
            r@ == anchor.saved(),
    {
        anchor.stream
    }
}

impl<'me, T> Anchor<'me, T> {
    pub closed spec fn saved(&self) -> Seq<T> {
        self.stream@
    }
}

/// Advancing twice skips as much as advancing once by the sum.
pub proof fn law_slice_advance_adds<T>(s: Seq<T>, a: nat, b: nat)
    requires
        a + b <= s.len(),
    ensures
        s.skip(a as int).skip(b as int) == s.skip((a + b) as int),
{
    assert(s.skip(a as int).skip(b as int) =~= s.skip((a + b) as int));
}

} // verus!
