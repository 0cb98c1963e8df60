use crate::generic_stream::chain::{lemma_buffer_in_data, lemma_prefix_bounds, lemma_prefix_full, lemma_prefix_step, prefix_len};
use vstd::prelude::*;

verus! {

broadcast use vstd::seq_lib::group_seq_properties;

/// The buffers that a sequence loader has committed, in order.
pub struct SequenceChain<T> {
    bufs: Vec<Vec<T>>,
}

impl<T> SequenceChain<T> {
    pub closed spec fn bufs(&self) -> Seq<Seq<T>> {
        self.bufs@.map_values(|b: Vec<T>| b@)
    }

    pub open spec fn data(&self) -> Seq<T> {
        self.bufs().flatten()
    }

    pub proof fn lemma_len(&self)
        ensures
            self.bufs().len() <= usize::MAX,
    {
        broadcast use vstd::std_specs::vec::axiom_spec_len;

        assert(self.bufs.len() == self.bufs@.len());
    }

    pub fn new() -> (r: Self)
        ensures
            r.bufs() == Seq::<Seq<T>>::empty(),
    {
        Self { bufs: Vec::new() }
    }

    pub fn num_nodes(&self) -> (r: usize)
        ensures
            r == self.bufs().len(),
    {
        self.bufs.len()
    }

    pub fn node_len(&self, i: usize) -> (r: usize)
        requires
            i < self.bufs().len(),
        ensures
            r == self.bufs()[i as int].len(),
    {
        self.bufs[i].len()
    }

    pub fn segment(&self, i: usize, start: usize) -> (r: &[T])
        requires
            i < self.bufs().len(),
            start <= self.bufs()[i as int].len(),
        ensures
            r@ == self.bufs()[i as int].skip(start as int),
    {
        let s = self.bufs[i].as_slice();
        vstd::slice::slice_subrange(s, start, s.len())
    }

    /// Appends a buffer as the new last node.
    pub fn commit(&mut self, buf: Vec<T>)
        ensures
            final(self).bufs() == old(self).bufs().push(buf@),
    {
        self.bufs.push(buf);
        assert(self.bufs() == old(self).bufs().push(buf@));
    }
}

/// The buffers of a chain handed out from a node and offset on.
pub open spec fn segments_from<T>(bufs: Seq<Seq<T>>, node: int, offset: int) -> Seq<Seq<T>> {
    if node < bufs.len() {
        seq![bufs[node].skip(offset)] + bufs.skip(node + 1)
    } else {
        Seq::empty()
    }
}

/// The read side of a sequence: a position in the committed data.
pub struct GenericSequenceBuffer {
    head_offset: usize,
    head_node: usize,
}

/// Hands out the committed data from a position on, one node at a time.
pub struct Iter {
    offset: usize,
    node: usize,
}

impl GenericSequenceBuffer {
    pub closed spec fn node(&self) -> nat {
        self.head_node as nat
    }

    pub closed spec fn offset(&self) -> nat {
        self.head_offset as nat
    }

    /// The head points into the chain.
    pub open spec fn valid<T>(&self, chain: &SequenceChain<T>) -> bool {
        &&& self.node() <= chain.bufs().len()
        &&& self.node() < chain.bufs().len() ==> self.offset() <= chain.bufs()[self.node()
            as int].len()
        &&& self.node() == chain.bufs().len() ==> self.offset() == 0
    }

    /// The position in the committed data that the head stands for.
    pub open spec fn pos<T>(&self, chain: &SequenceChain<T>) -> nat {
        prefix_len(chain.bufs(), self.node() as int) + self.offset()
    }

    pub fn new() -> (r: Self)
        ensures
            r.node() == 0,
            r.offset() == 0,
    {
        Self { head_offset: 0, head_node: 0 }
    }

    /// Moves the head `length` items forward, as far as the committed data
    /// goes, and returns how much of `length` was left over.
    pub fn advance<T>(&mut self, chain: &SequenceChain<T>, length: usize) -> (remain: usize)
        requires
            old(self).valid(chain),
        ensures
            final(self).valid(chain),
            final(self).pos(chain) == if old(self).pos(chain) + length <= chain.data().len() {
                old(self).pos(chain) + length
            } else {
                chain.data().len() as int
            },
            remain == old(self).pos(chain) + length - final(self).pos(chain),
    {
        let ghost bufs = chain.bufs();
        let ghost p0 = self.pos(chain);
        let mut remain = length;
        let mut offset = self.head_offset;
        let mut node = self.head_node;
        proof {
            lemma_prefix_full(bufs);
            chain.lemma_len();
        }
        while node < chain.num_nodes()
            invariant
                bufs == chain.bufs(),
                bufs.len() <= usize::MAX,
                prefix_len(bufs, bufs.len() as int) == bufs.flatten().len(),
                node <= bufs.len(),
                node < bufs.len() ==> offset <= bufs[node as int].len(),
                node == bufs.len() ==> offset == 0,
                prefix_len(bufs, node as int) + offset + remain == p0 + length,
                p0 == old(self).pos(chain),
                remain <= length,
            ensures
                node <= bufs.len(),
                node < bufs.len() ==> offset < bufs[node as int].len() && remain == 0,
                node == bufs.len() ==> offset == 0,
                prefix_len(bufs, node as int) + offset + remain == p0 + length,
            decreases bufs.len() - node,
        {
            let len = chain.node_len(node) - offset;
            if remain < len {
                offset = offset + remain;
                remain = 0;
                break ;
            }
            proof {
                lemma_prefix_step(bufs, node as int);
            }
            remain = remain - len;
            offset = 0;
            node = node + 1;
        }
        proof {
            if node < bufs.len() {
                lemma_prefix_step(bufs, node as int);
                lemma_prefix_bounds(bufs, node + 1, bufs.len() as int);
            }
        }
        self.head_offset = offset;
        self.head_node = node;
        remain
    }

    /// An iterator over the committed data from the head on.
    pub fn segments(&self) -> (r: Iter)
        ensures
            r.node() == self.node(),
            r.offset() == self.offset(),
    {
        Iter { offset: self.head_offset, node: self.head_node }
    }
}

impl Iter {
    pub closed spec fn node(&self) -> nat {
        self.node as nat
    }

    pub closed spec fn offset(&self) -> nat {
        self.offset as nat
    }

    /// The next committed node, from the current offset on; `None` once the
    /// iterator has passed the last committed node.
    pub fn next<'a, T>(&mut self, chain: &'a SequenceChain<T>) -> (r: Option<&'a [T]>)
        requires
            old(self).node() < chain.bufs().len() ==> old(self).offset() <= chain.bufs()[old(
                self,
            ).node() as int].len(),
        ensures
            old(self).node() < chain.bufs().len() ==> {
                &&& r matches Some(s) && s@ == chain.bufs()[old(self).node() as int].skip(
                    old(self).offset() as int,
                )
                &&& final(self).node() == old(self).node() + 1
                &&& final(self).offset() == 0
            },
            old(self).node() >= chain.bufs().len() ==> r is None && *final(self) == *old(self),
            segments_from(chain.bufs(), old(self).node() as int, old(self).offset() as int)
                == match r {
                Some(s) => seq![s@] + segments_from(
                    chain.bufs(),
                    final(self).node() as int,
                    final(self).offset() as int,
                ),
                None => Seq::<Seq<T>>::empty(),
            },
    {
        if self.node >= chain.num_nodes() {
            return None;
        }
        let seg = chain.segment(self.node, self.offset);
        let ghost bufs = chain.bufs();
        let ghost n = self.node as int;
        self.offset = 0;
        self.node = self.node + 1;
        proof {
            if n + 1 < bufs.len() {
                assert(bufs.skip(n + 1) == seq![bufs[n + 1].skip(0)] + bufs.skip(n + 2));
            } else {
                assert(bufs.skip(n + 1) == Seq::<Seq<T>>::empty());
            }
        }
        Some(seg)
    }
}

/// Iterating the segments from a head yields exactly the committed data from
/// that head's position on.
pub proof fn law_segments_cover_rest<T>(chain: &SequenceChain<T>, head: &GenericSequenceBuffer)
    requires
        head.valid(chain),
    ensures
        segments_from(chain.bufs(), head.node() as int, head.offset() as int).flatten()
            == chain.data().skip(head.pos(chain) as int),
{
    let bufs = chain.bufs();
    let n = head.node() as int;
    let o = head.offset() as int;
    lemma_prefix_full(bufs);
    if n < bufs.len() {
        lemma_prefix_step(bufs, n);
        let rest = bufs.skip(n + 1);
        assert(bufs == bufs.take(n + 1) + rest);
        vstd::seq_lib::lemma_flatten_concat(bufs.take(n + 1), rest);
        vstd::seq_lib::lemma_flatten_concat(seq![bufs[n].skip(o)], rest);
        seq![bufs[n].skip(o)].lemma_flatten_one_element();
        let a = bufs.take(n).flatten();
        assert(bufs.flatten() == a + bufs[n] + rest.flatten());
        assert(bufs.flatten().skip(a.len() + o) == bufs[n].skip(o) + rest.flatten());
    } else {
        assert(bufs.take(n) == bufs);
        assert(segments_from(bufs, n, o) == Seq::<Seq<T>>::empty());
    }
}

} // verus!
