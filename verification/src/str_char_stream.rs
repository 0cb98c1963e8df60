use vstd::prelude::*;
use vstd::string::StringSliceAdditionalSpecFns;
use vstd::utf8::{encode_utf8, is_char_boundary};

verus! {

/// The texts that the source of a character stream has handed over so far,
/// one per node, and whether the source has no more.
pub struct StrNodes {
    texts: Vec<String>,
    ended: bool,
}

/// The UTF-8 bytes of a text.
pub open spec fn text_bytes(s: String) -> Seq<u8> {
    encode_utf8(s@)
}

impl StrNodes {
    /// The bytes of each text handed over.
    pub closed spec fn texts(&self) -> Seq<Seq<u8>> {
        self.texts@.map_values(|s: String| text_bytes(s))
    }

    pub closed spec fn ended(&self) -> bool {
        self.ended
    }

    pub fn new() -> (r: Self)
        ensures
            r.texts() == Seq::<Seq<u8>>::empty(),
            !r.ended(),
    {
        Self { texts: Vec::new(), ended: false }
    }

    /// Records what the source's `recv` produced: one more text, or the end.
    pub fn push(&mut self, text: Option<String>)
        requires
            !old(self).ended(),
        ensures
            match text {
                Some(s) => final(self).texts() == old(self).texts().push(text_bytes(s))
                    && !final(self).ended(),
                None => final(self).texts() == old(self).texts() && final(self).ended(),
            },
    {
        match text {
            Some(s) => {
                self.texts.push(s);
                assert(self.texts() == old(self).texts().push(text_bytes(s)));
            },
            None => {
                self.ended = true;
            },
        }
    }

    /// How many texts were handed over.
    pub fn len(&self) -> (r: usize)
        ensures
            r == self.texts().len(),
    {
        self.texts.len()
    }

    pub fn is_ended(&self) -> (r: bool)
        ensures
            r == self.ended(),
    {
        self.ended
    }

    /// The byte length of text `i`.
    fn byte_len(&self, i: usize) -> (r: usize)
        requires
            i < self.texts().len(),
        ensures
            r == self.texts()[i as int].len(),
    {
        self.texts[i].as_str().as_bytes().len()
    }
}

/// A character stream over the texts of its source: it starts at byte
/// `offset` of node `head` and goes on with every later node whole.
#[derive(Debug, Clone, Copy, PartialEq, Eq)]
pub struct StrCharStream {
    head: usize,
    offset: usize,
}

/// Outcome of moving a character stream forward over the texts handed over
/// so far.
#[derive(Debug, Clone, Copy, PartialEq, Eq)]
pub enum StrAdvance {
    /// The stream after the move.
    Done(StrCharStream),
    /// The texts handed over so far do not reach far enough: let the source
    /// hand over one more, then move again.
    NeedMore,
}

/// The bytes of a stream that starts at byte `offset` of text `head`: the
/// rest of that text, then every later text, in order.
pub open spec fn stream_bytes(texts: Seq<Seq<u8>>, head: nat, offset: nat) -> Seq<u8> {
    if head < texts.len() {
        texts[head as int].skip(offset as int) + texts.skip(head + 1 as int).flatten()
    } else {
        Seq::empty()
    }
}

/// How many bytes such a stream holds in the texts `head ..= k`.
pub open spec fn upto(texts: Seq<Seq<u8>>, head: int, offset: nat, k: int) -> int
    decreases k - head,
{
    if k <= head {
        texts[head].len() - offset
    } else {
        upto(texts, head, offset, k - 1) + texts[k].len()
    }
}

/// The flattening of the texts from `k` on starts with text `k`.
proof fn lemma_flatten_skip<T>(texts: Seq<Seq<T>>, k: int)
    requires
        0 <= k < texts.len(),
    ensures
        texts.skip(k).flatten() == texts[k] + texts.skip(k + 1).flatten(),
{
    assert(texts.skip(k).drop_first() == texts.skip(k + 1));
}

/// The stream is the bytes it holds in the texts `head ..= k`, then the texts
/// after `k`.
proof fn lemma_stream_split(texts: Seq<Seq<u8>>, head: int, offset: nat, k: int)
    requires
        0 <= head <= k < texts.len(),
        offset <= texts[head].len(),
    ensures
        upto(texts, head, offset, k) >= 0,
        stream_bytes(texts, head as nat, offset).len() == upto(texts, head, offset, k) + texts.skip(
            k + 1,
        ).flatten().len(),
        stream_bytes(texts, head as nat, offset) == stream_bytes(texts, head as nat, offset).take(
            upto(texts, head, offset, k),
        ) + texts.skip(k + 1).flatten(),
    decreases k - head,
{
    let whole = stream_bytes(texts, head as nat, offset);
    if k == head {
        assert(whole.take(upto(texts, head, offset, k)) == texts[head].skip(offset as int));
    } else {
        lemma_stream_split(texts, head, offset, k - 1);
        lemma_flatten_skip(texts, k);
        let a = whole.take(upto(texts, head, offset, k - 1));
        assert(whole == (a + texts[k]) + texts.skip(k + 1).flatten());
        assert(whole.take(upto(texts, head, offset, k)) == a + texts[k]);
    }
}

impl StrCharStream {
    pub closed spec fn head(&self) -> nat {
        self.head as nat
    }

    pub closed spec fn offset(&self) -> nat {
        self.offset as nat
    }

    /// The bytes of the stream over the texts handed over so far.
    pub open spec fn bytes(&self, nodes: &StrNodes) -> Seq<u8> {
        stream_bytes(nodes.texts(), self.head(), self.offset())
    }

    /// The offset lies within the head text, where there is one.
    pub open spec fn offset_within(&self, nodes: &StrNodes) -> bool {
        self.head() < nodes.texts().len() ==> self.offset() <= nodes.texts()[self.head() as int].len()
    }

    /// A stream at the start of the first node.
    pub fn new() -> (r: Self)
        ensures
            r.head() == 0,
            r.offset() == 0,
    {
        Self { head: 0, offset: 0 }
    }

    /// The `k`-th segment of the stream, once its node was handed over: the
    /// head text from the offset on, then the later texts whole.
    pub fn segment<'a>(&self, nodes: &'a StrNodes, k: usize) -> (r: Option<&'a str>)
        requires
            self.offset_within(nodes),
            self.head() < nodes.texts().len() ==> is_char_boundary(
                nodes.texts()[self.head() as int],
                self.offset() as int,
            ),
        ensures
            self.head() + k < nodes.texts().len() ==> (r matches Some(s) && s.spec_bytes() == if k
                == 0 {
                nodes.texts()[self.head() as int].skip(self.offset() as int)
            } else {
                nodes.texts()[self.head() + k]
            }),
            self.head() + k >= nodes.texts().len() ==> r is None,
    {
        let n = nodes.texts.len();
        if self.head >= n || k >= n - self.head {
            return None;
        }
        let i = self.head + k;
        let text = nodes.texts[i].as_str();
        assert(text.spec_bytes() == nodes.texts()[i as int]);
        if k == 0 {
            let (_, rest) = text.split_at(self.offset);
            Some(rest)
        } else {
            Some(text)
        }
    }

    /// Whether the stream can be read: the offset lies within the head text
    /// and falls on a character boundary of it.
    pub fn readable(&self, nodes: &StrNodes) -> (r: bool)
        ensures
            r == (self.head() < nodes.texts().len() ==> self.offset() <= nodes.texts()[self.head() as int].len()
                && is_char_boundary(nodes.texts()[self.head() as int], self.offset() as int)),
    {
        let n = nodes.len();
        if self.head >= n {
            return true;
        }
        let text = nodes.texts[self.head].as_str();
        assert(text.spec_bytes() == nodes.texts()[self.head as int]);
        let len = text.as_bytes().len();
        self.offset <= len && text.is_char_boundary(self.offset)
    }

    /// Moves the stream `count` bytes forward: it then starts at the node in
    /// which the `count`-th byte ends, just after that byte; past the last
    /// node once the source has ended and fewer bytes are left.
    pub fn advance(self, nodes: &StrNodes, count: usize) -> (r: StrAdvance)
        requires
            self.offset_within(nodes),
        ensures
            match r {
                StrAdvance::Done(s) => {
                    ||| {
                        &&& self.head() < nodes.texts().len()
                        &&& self.head() <= s.head() < nodes.texts().len()
                        &&& upto(nodes.texts(), self.head() as int, self.offset(), s.head() as int)
                            >= count
                        &&& forall|k: int|
                            self.head() <= k < s.head() ==> upto(
                                nodes.texts(),
                                self.head() as int,
                                self.offset(),
                                k,
                            ) < count
                        &&& s.offset() == nodes.texts()[s.head() as int].len() - (upto(
                            nodes.texts(),
                            self.head() as int,
                            self.offset(),
                            s.head() as int,
                        ) - count)
                    }
                    ||| {
                        &&& nodes.ended()
                        &&& self.head() < nodes.texts().len() ==> self.bytes(nodes).len() < count
                        &&& s.head() == (if self.head() <= nodes.texts().len() {
                            nodes.texts().len()
                        } else {
                            self.head()
                        })
                        &&& s.offset() == 0
                    }
                },
                StrAdvance::NeedMore => !nodes.ended() && (self.head() < nodes.texts().len()
                    ==> self.bytes(nodes).len() < count),
            },
            // exactly `count` bytes are skipped, or all of them at the end
            r matches StrAdvance::Done(s) ==> s.offset_within(nodes) && s.bytes(nodes) == self.bytes(
                nodes,
            ).skip(
                if count <= self.bytes(nodes).len() {
                    count as int
                } else {
                    self.bytes(nodes).len() as int
                },
            ),
    {
        let ghost texts = nodes.texts();
        let ghost h = self.head as int;
        let ghost off = self.offset as nat;
        let n = nodes.len();
        let mut k = self.head;
        let mut rest = count;
        while k < n
            invariant
                n == texts.len(),
                texts == nodes.texts(),
                h == self.head,
                off == self.offset,
                h < n ==> off <= texts[h].len(),
                self.head <= k,
                k == self.head ==> rest == count,
                k > self.head ==> rest == count - upto(texts, h, off, k - 1),
                forall|j: int| h <= j < k ==> upto(texts, h, off, j) < count,
            decreases n - k,
        {
            let len = if k == self.head {
                nodes.byte_len(k) - self.offset
            } else {
                nodes.byte_len(k)
            };
            assert(len == upto(texts, h, off, k as int) - (if k == self.head {
                0
            } else {
                upto(texts, h, off, k - 1)
            }));
            if len >= rest {
                let start = if k == self.head {
                    self.offset + rest
                } else {
                    rest
                };
                let s = StrCharStream { head: k, offset: start };
                proof {
                    let whole = stream_bytes(texts, h as nat, off);
                    lemma_stream_split(texts, h, off, n - 1);
                    assert(texts.skip(n as int).flatten() =~= Seq::<u8>::empty());
                    if k as int > h {
                        lemma_stream_split(texts, h, off, k - 1);
                        lemma_flatten_skip(texts, k as int);
                        let u = upto(texts, h, off, k - 1);
                        assert(whole.skip(u) == texts.skip(k as int).flatten());
                        assert(whole.skip(count as int) == whole.skip(u).skip(rest as int));
                        assert((texts[k as int] + texts.skip(k + 1).flatten()).skip(rest as int)
                            == texts[k as int].skip(rest as int) + texts.skip(k + 1).flatten());
                    } else {
                        assert(whole.skip(count as int) == texts[h].skip(off + count) + texts.skip(
                            h + 1,
                        ).flatten());
                    }
                }
                return StrAdvance::Done(s);
            }
            rest = rest - len;
            k = k + 1;
        }
        proof {
            if h < n {
                lemma_stream_split(texts, h, off, n - 1);
                assert(texts.skip(n as int).flatten() =~= Seq::<u8>::empty());
            }
        }
        if nodes.is_ended() {
            let head = if self.head <= n {
                n
            } else {
                self.head
            };
            StrAdvance::Done(StrCharStream { head, offset: 0 })
        } else {
            StrAdvance::NeedMore
        }
    }
}

} // verus!
