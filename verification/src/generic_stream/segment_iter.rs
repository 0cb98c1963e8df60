use super::chain::{lemma_buffer_in_data, lemma_prefix_full, lemma_prefix_step, prefix_len, Cursor, NodeChain, NodeRef};
use vstd::prelude::*;

verus! {

broadcast use vstd::seq_lib::group_seq_properties;

/// What a segment iterator yields when asked for its next segment.
#[derive(Debug, Clone, Copy, PartialEq, Eq)]
pub enum SegmentIterNext {
    /// The items `start .. end` of node `node`.
    Segment { node: usize, start: usize, end: usize },
    /// The stream ended.
    End,
    /// The iterator stands at the last appended node: let the loader append
    /// more, then ask with `next_after_load`.
    Load,
}

/// An iterator over the segments of a stream, from a position on; unlike the
/// stream's own segments it marks nothing as examined.
pub struct SegmentIter {
    current: Cursor,
}

/// The iterator's step from `old` to `new` handed out `r`, and kept to the
/// data of `chain`.
pub open spec fn iter_step<T>(chain: &NodeChain<T>, old: Cursor, new: Cursor, r: SegmentIterNext) -> bool {
    &&& chain.valid_cursor(new)
    &&& old.node is Sentinel ==> r is End && new == old
    &&& match r {
        SegmentIterNext::Segment { node, start, end } => {
            &&& node < chain.bufs().len()
            &&& start <= end == chain.bufs()[node as int].len()
            &&& chain.pos(old) == chain.pos(Cursor { node: NodeRef::Node(node), start })
            &&& chain.pos(new) == chain.pos(Cursor { node: NodeRef::Node(node), start: end })
            &&& chain.data().subrange(chain.pos(old) as int, chain.pos(new) as int)
                == chain.bufs()[node as int].subrange(start as int, end as int)
        },
        SegmentIterNext::End => {
            &&& chain.terminated()
            &&& new.node == NodeRef::Sentinel
            &&& chain.pos(old) == chain.data().len()
        },
        SegmentIterNext::Load => {
            &&& chain.pos(new) == chain.pos(old)
            &&& chain.spec_next(new.node) is None
            &&& !(new.node is Sentinel)
        },
    }
}

proof fn lemma_node_data<T>(chain: &NodeChain<T>, i: int, start: int)
    requires
        chain.wf(),
        0 <= i < chain.bufs().len(),
        0 <= start <= chain.bufs()[i].len(),
    ensures
        prefix_len(chain.bufs(), i + 1) == prefix_len(chain.bufs(), i) + chain.bufs()[i].len(),
        chain.data().subrange(
            prefix_len(chain.bufs(), i) + start,
            (prefix_len(chain.bufs(), i) + chain.bufs()[i].len()) as int,
        ) == chain.bufs()[i].subrange(start, chain.bufs()[i].len() as int),
        i + 1 == chain.bufs().len() ==> prefix_len(chain.bufs(), i + 1) == chain.data().len(),
{
    let bufs = chain.bufs();
    lemma_prefix_step(bufs, i);
    lemma_buffer_in_data(bufs, i);
    lemma_prefix_full(bufs);
    let p = prefix_len(bufs, i) as int;
    assert(bufs.flatten().subrange(p + start, p + bufs[i].len()) == bufs.flatten().subrange(
        p,
        p + bufs[i].len(),
    ).subrange(start, bufs[i].len() as int));
}

impl SegmentIter {
    pub closed spec fn cursor(&self) -> Cursor {
        self.current
    }

    /// An iterator that starts at `head`.
    pub fn new(head: Cursor) -> (r: Self)
        ensures
            r.cursor() == head,
    {
        Self { current: head }
    }

    /// The next segment among the nodes appended so far; the data of the last
    /// appended node is only handed out after a load.
    pub fn next<T>(&mut self, chain: &NodeChain<T>) -> (r: SegmentIterNext)
        requires
            chain.wf(),
            chain.valid_cursor(old(self).cursor()),
        ensures
            iter_step(chain, old(self).cursor(), final(self).cursor(), r),
            old(self).cursor().node is Sentinel ==> r is End && final(self).cursor() == old(
                self,
            ).cursor(),
    {
        proof {
            chain.lemma_wf();
        }
        let cur = self.current;
        let next = chain.next_of(cur.node);
        match cur.node {
            NodeRef::Sentinel => {
                return SegmentIterNext::End;
            },
            _ => {},
        }
        let (len, i) = match cur.node {
            NodeRef::Node(i) => (chain.node_len(i), i),
            _ => (0, 0),
        };
        let next = match next {
            None => {
                return SegmentIterNext::Load;
            },
            Some(n) => n,
        };
        if let NodeRef::Node(i) = cur.node {
            proof {
                lemma_node_data(chain, i as int, cur.start as int);
            }
            if cur.start < len {
                self.current = Cursor { node: next, start: 0 };
                return SegmentIterNext::Segment { node: i, start: cur.start, end: len };
            }
        }
        match next {
            NodeRef::Node(j) => {
                let after = chain.next_of(next);
                match after {
                    Some(a) => {
                        let jlen = chain.node_len(j);
                        proof {
                            lemma_node_data(chain, j as int, 0);
                            if let NodeRef::Node(i) = cur.node {
                                lemma_prefix_step(chain.bufs(), i as int);
                            }
                        }
                        self.current = Cursor { node: a, start: 0 };
                        SegmentIterNext::Segment { node: j, start: 0, end: jlen }
                    },
                    None => {
                        proof {
                            if let NodeRef::Node(i) = cur.node {
                                lemma_prefix_step(chain.bufs(), i as int);
                            }
                        }
                        self.current = Cursor { node: next, start: 0 };
                        SegmentIterNext::Load
                    },
                }
            },
            _ => {
                self.current = Cursor { node: next, start: 0 };
                SegmentIterNext::End
            },
        }
    }

    /// The next segment once the loader has appended more data: the rest of
    /// the node the iterator stands at, which may be empty, or the whole of
    /// the node after it.
    pub fn next_after_load<T>(&mut self, chain: &NodeChain<T>) -> (r: SegmentIterNext)
        requires
            chain.wf(),
            chain.valid_cursor(old(self).cursor()),
        ensures
            iter_step(chain, old(self).cursor(), final(self).cursor(), r),
            old(self).cursor().node is Sentinel ==> r is End && final(self).cursor() == old(
                self,
            ).cursor(),
    {
        proof {
            chain.lemma_wf();
        }
        let mut cur = self.current;
        if let NodeRef::Head = cur.node {
            match chain.next_of(NodeRef::Head) {
                None => {
                    return SegmentIterNext::Load;
                },
                Some(first) => {
                    cur = Cursor { node: first, start: 0 };
                    assert(chain.pos(cur) == 0) by {
                        assert(chain.bufs().take(0).flatten() == Seq::<T>::empty());
                    }
                },
            }
        }
        match cur.node {
            NodeRef::Sentinel => SegmentIterNext::End,
            NodeRef::Head => SegmentIterNext::Load,
            NodeRef::Node(i) => {
                let len = chain.node_len(i);
                proof {
                    lemma_node_data(chain, i as int, cur.start as int);
                }
                match chain.next_of(cur.node) {
                    None => {
                        self.current = Cursor { node: cur.node, start: len };
                        SegmentIterNext::Segment { node: i, start: cur.start, end: len }
                    },
                    Some(next) => {
                        if cur.start < len {
                            self.current = Cursor { node: next, start: 0 };
                            SegmentIterNext::Segment { node: i, start: cur.start, end: len }
                        } else {
                            match next {
                                NodeRef::Node(j) => {
                                    let jlen = chain.node_len(j);
                                    proof {
                                        lemma_node_data(chain, j as int, 0);
                                    }
                                    self.current = Cursor { node: next, start: jlen };
                                    SegmentIterNext::Segment { node: j, start: 0, end: jlen }
                                },
                                _ => {
                                    self.current = Cursor { node: next, start: 0 };
                                    SegmentIterNext::End
                                },
                            }
                        }
                    },
                }
            },
        }
    }
}

/// The items that a step handed out.
pub open spec fn handed_out<T>(chain: &NodeChain<T>, r: SegmentIterNext) -> Seq<T> {
    match r {
        SegmentIterNext::Segment { node, start, end } => chain.bufs()[node as int].subrange(
            start as int,
            end as int,
        ),
        _ => Seq::empty(),
    }
}

/// The items handed out by consecutive steps.
pub open spec fn handed_out_all<T>(chain: &NodeChain<T>, steps: Seq<SegmentIterNext>) -> Seq<T>
    decreases steps.len(),
{
    if steps.len() == 0 {
        Seq::empty()
    } else {
        handed_out_all(chain, steps.drop_last()) + handed_out(chain, steps.last())
    }
}

/// One step moves the iterator forward over exactly the items it hands out.
proof fn lemma_step_data<T>(chain: &NodeChain<T>, old: Cursor, new: Cursor, r: SegmentIterNext)
    requires
        chain.wf(),
        chain.valid_cursor(old),
        iter_step(chain, old, new, r),
    ensures
        chain.pos(old) <= chain.pos(new) <= chain.data().len(),
        chain.data().subrange(chain.pos(old) as int, chain.pos(new) as int) == handed_out(chain, r),
{
    proof_pos_bound(chain, old);
    proof_pos_bound(chain, new);
}

/// Consecutive steps of a segment iterator over the same nodes hand out the
/// stream's data from the first position to the last, in order and without
/// gaps.
pub proof fn law_iter_in_order<T>(chain: &NodeChain<T>, cursors: Seq<Cursor>, steps: Seq<SegmentIterNext>)
    requires
        chain.wf(),
        cursors.len() == steps.len() + 1,
        chain.valid_cursor(cursors[0]),
        forall|k: int|
            0 <= k < steps.len() ==> iter_step(chain, #[trigger] cursors[k], cursors[k + 1], steps[k]),
    ensures
        chain.pos(cursors[0]) <= chain.pos(cursors.last()) <= chain.data().len(),
        chain.data().subrange(chain.pos(cursors[0]) as int, chain.pos(cursors.last()) as int)
            == handed_out_all(chain, steps),
    decreases steps.len(),
{
    proof_pos_bound(chain, cursors[0]);
    if steps.len() > 0 {
        let n = steps.len() - 1;
        let cs = cursors.drop_last();
        let ss = steps.drop_last();
        assert forall|k: int| 0 <= k < ss.len() implies iter_step(chain, #[trigger] cs[k], cs[k + 1], ss[k]) by {
            assert(iter_step(chain, cursors[k], cursors[k + 1], steps[k]));
        }
        law_iter_in_order(chain, cs, ss);
        assert(iter_step(chain, cursors[n], cursors[n + 1], steps[n]));
        assert(chain.valid_cursor(cursors[n])) by {
            if n > 0 {
                assert(iter_step(chain, cursors[n - 1], cursors[n], steps[n - 1]));
            }
        }
        lemma_step_data(chain, cursors[n], cursors[n + 1], steps[n]);
        let d = chain.data();
        let a = chain.pos(cursors[0]) as int;
        let b = chain.pos(cursors[n]) as int;
        let c = chain.pos(cursors[n + 1]) as int;
        assert(d.subrange(a, c) == d.subrange(a, b) + d.subrange(b, c));
    }
}

/// Once a segment iterator reached the end of the stream it stays there:
/// every later step hands out the end and leaves the iterator as it is.
pub proof fn law_iter_stays_at_end<T>(
    chain: &NodeChain<T>,
    cursors: Seq<Cursor>,
    steps: Seq<SegmentIterNext>,
    k: int,
)
    requires
        cursors.len() == steps.len() + 1,
        0 <= k < cursors.len(),
        cursors[k].node is Sentinel,
        forall|j: int|
            0 <= j < steps.len() ==> iter_step(chain, #[trigger] cursors[j], cursors[j + 1], steps[j]),
    ensures
        forall|j: int| k <= j < steps.len() ==> #[trigger] steps[j] is End,
        forall|j: int| k <= j < cursors.len() ==> #[trigger] cursors[j] == cursors[k],
    decreases cursors.len() - k,
{
    if k < steps.len() {
        assert(iter_step(chain, cursors[k], cursors[k + 1], steps[k]));
        law_iter_stays_at_end(chain, cursors, steps, k + 1);
    }
}

/// A valid cursor stands at a position inside the data.
proof fn proof_pos_bound<T>(chain: &NodeChain<T>, c: Cursor)
    requires
        chain.wf(),
        chain.valid_cursor(c),
    ensures
        chain.pos(c) <= chain.data().len(),
{
    if let NodeRef::Node(i) = c.node {
        lemma_node_data(chain, i as int, c.start as int);
        super::chain::lemma_prefix_bounds(chain.bufs(), i + 1, chain.bufs().len() as int);
        lemma_prefix_full(chain.bufs());
    }
}

} // verus!
