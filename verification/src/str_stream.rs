use crate::slice::Nodes;
use vstd::prelude::*;
use vstd::string::StringSliceAdditionalSpecFns;
use vstd::utf8::is_char_boundary;

verus! {

/// A stream over a string slice; positions are byte offsets.
#[derive(Debug)]
pub struct StrStream<'me> {
    str: &'me str,
}

/// A saved position of a string stream.
pub struct Anchor<'me> {
    stream: StrStream<'me>,
}

impl<'me> Clone for StrStream<'me> {
    fn clone(&self) -> (r: Self)
        ensures
            r.bytes() == self.bytes(),
    {
        Self { str: self.str }
    }
}

impl<'me> StrStream<'me> {
    /// The UTF-8 bytes of the stream.
    pub closed spec fn bytes(&self) -> Seq<u8> {
        self.str.spec_bytes()
    }

    pub fn new(str: &'me str) -> (r: Self)
        ensures
            r.bytes() == str.spec_bytes(),
    {
        Self { str }
    }

    /// The stream as its only segment.
    pub fn segments(&self) -> (r: Nodes<'me, str>)
        ensures
            r.remaining() matches Some(s) && s.spec_bytes() == self.bytes(),
    {
        Nodes::new(self.str)
    }

    /// Skips the first `delta` bytes of the stream (all of it if it is
    /// shorter); the cut must fall on a character boundary.
    pub fn advance(self, delta: usize) -> (r: Self)
        requires
            is_char_boundary(
                self.bytes(),
                if delta <= self.bytes().len() {
                    delta as int
                } else {
                    self.bytes().len() as int
                },
            ),
        ensures
            r.bytes() == self.bytes().skip(
                if delta <= self.bytes().len() {
                    delta as int
                } else {
                    self.bytes().len() as int
                },
            ),
    {
        let len = self.str.as_bytes().len();
        let end = if len <= delta {
            len
        } else {
            delta
        };
        let (_, rest) = self.str.split_at(end);
        Self { str: rest }
    }

    /// Saves the current position.
    pub fn anchor(&self) -> (r: Anchor<'me>)
        ensures
            r.saved() == self.bytes(),
    {
        Anchor { stream: self.clone() }
    }

    /// Goes back to a saved position.
    pub fn rewind(self, anchor: Anchor<'me>) -> (r: Self)
        ensures
            r.bytes() == anchor.saved(),
    {
        anchor.stream
    }
}

impl<'me> Anchor<'me> {
    pub closed spec fn saved(&self) -> Seq<u8> {
        self.stream.bytes()
    }
}

} // verus!
