use super::chain::{lemma_buffer_in_data, lemma_prefix_full, lemma_prefix_step, prefix_len, Cursor, NodeChain, NodeRef};
use vstd::prelude::*;

verus! {

broadcast use vstd::seq_lib::group_seq_properties;

/// Outcome of asking a segment iterator for its next segment.
#[derive(Debug, Clone, Copy, PartialEq, Eq)]
pub enum SegmentStep {
    /// The items of node `node` from `start` on are the next segment; `examined`
    /// is the amount that became newly examined by handing them out.
    Segment { node: usize, start: usize, examined: usize },
    /// The stream ended.
    End,
    /// All appended data was handed out; wait for the loader, then ask again.
    Waiting,
}

/// Finds the next non-empty segment after `cursor`, skipping empty nodes, and
/// moves the cursor behind it.
pub fn next_segment<T>(chain: &mut NodeChain<T>, cursor: &mut Cursor) -> (r: SegmentStep)
    requires
        old(chain).wf(),
        old(chain).valid_cursor(*old(cursor)),
    ensures
        final(chain).wf(),
        final(chain).bufs() == old(chain).bufs(),
        final(chain).terminated() == old(chain).terminated(),
        final(chain).valid_cursor(*final(cursor)),
        match r {
            SegmentStep::Segment { node, start, examined } => {
                &&& node < old(chain).bufs().len()
                &&& start < old(chain).bufs()[node as int].len()
                &&& old(chain).pos(*old(cursor)) == old(chain).pos(
                    Cursor { node: NodeRef::Node(node), start },
                )
                &&& *final(cursor) == Cursor {
                    node: NodeRef::Node(node),
                    start: old(chain).bufs()[node as int].len() as usize,
                }
                &&& old(chain).bufs()[node as int].skip(start as int) == old(
                    chain,
                ).data().subrange(
                    old(chain).pos(*old(cursor)) as int,
                    old(chain).pos(*final(cursor)) as int,
                )
                &&& final(chain).examined() == old(chain).examined().update(
                    node as int,
                    old(chain).bufs()[node as int].len(),
                )
                &&& final(chain).total_examined() == old(chain).total_examined() + examined
            },
            SegmentStep::End => {
                &&& old(chain).terminated()
                &&& final(cursor).node == NodeRef::Sentinel
                &&& old(chain).pos(*old(cursor)) == old(chain).data().len()
                &&& final(chain).examined() == old(chain).examined()
            },
            SegmentStep::Waiting => {
                &&& !old(chain).terminated()
                &&& old(chain).pos(*old(cursor)) == old(chain).data().len()
                &&& final(chain).pos(*final(cursor)) == old(chain).data().len()
                &&& final(chain).spec_next(final(cursor).node) is None
                &&& final(chain).examined() == old(chain).examined()
            },
        },
{
    let ghost bufs = chain.bufs();
    let ghost c0 = *chain;
    let ghost p0 = chain.pos(*cursor);
    proof {
        lemma_prefix_full(bufs);
        c0.lemma_wf();
        assert(bufs.take(0) == Seq::<Seq<T>>::empty());
    }
    loop
        invariant
            chain.wf(),
            *chain == c0,
            c0 == *old(chain),
            c0.bufs() == bufs,
            bufs.len() <= usize::MAX,
            c0.terminated() ==> bufs.len() > 0,
            prefix_len(bufs, bufs.len() as int) == bufs.flatten().len(),
            prefix_len(bufs, 0) == 0,
            p0 == c0.pos(*old(cursor)),
            chain.valid_cursor(*cursor),
            chain.pos(*cursor) == p0,
        decreases bufs.len() + 2 - (match cursor.node {
            NodeRef::Head => 0,
            NodeRef::Node(i) => i + 1,
            NodeRef::Sentinel => bufs.len() + 1int,
        }),
    {
        let current = cursor.node;
        let next = match current {
            NodeRef::Head => chain.next_of(NodeRef::Head),
            NodeRef::Node(i) => {
                let start = cursor.start;
                let len = chain.node_len(i);
                if start < len {
                    cursor.start = len;
                    let examined = chain.set_examined(i, len);
                    proof {
                        c0.lemma_wf();
                        lemma_prefix_step(bufs, i as int);
                        lemma_buffer_in_data(bufs, i as int);
                        let p = prefix_len(bufs, i as int) as int;
                        assert(bufs[i as int].skip(start as int) == bufs.flatten().subrange(
                            p,
                            p + bufs[i as int].len(),
                        ).skip(start as int));
                    }
                    return SegmentStep::Segment { node: i, start, examined };
                }
                proof {
                    lemma_prefix_step(bufs, i as int);
                }
                chain.next_of(current)
            },
            NodeRef::Sentinel => {
                return SegmentStep::End;
            },
        };
        assert(next == chain.spec_next(current));
        match next {
            None => {
                return SegmentStep::Waiting;
            },
            Some(n) => {
                proof {
                    if let NodeRef::Node(i) = current {
                        if n is Sentinel {
                            assert(i + 1 == bufs.len());
                        }
                    }
                }
                *cursor = Cursor { node: n, start: 0 };
            },
        }
    }
}

/// What a step of `next_segment` from `old` to `new` handed out, over the
/// stream's data.
pub open spec fn segment_step<T>(chain: &NodeChain<T>, old: Cursor, new: Cursor, r: SegmentStep) -> bool {
    &&& chain.valid_cursor(new)
    &&& match r {
        SegmentStep::Segment { node, start, .. } => {
            &&& node < chain.bufs().len()
            &&& start < chain.bufs()[node as int].len()
            &&& new == (Cursor { node: NodeRef::Node(node), start: chain.bufs()[node as int].len() as usize })
            &&& chain.pos(old) == chain.pos(Cursor { node: NodeRef::Node(node), start })
            &&& chain.bufs()[node as int].skip(start as int) == chain.data().subrange(
                chain.pos(old) as int,
                chain.pos(new) as int,
            )
        },
        _ => {
            &&& chain.pos(old) == chain.data().len()
            &&& chain.pos(new) == chain.data().len()
        },
    }
}

/// The items a step of `next_segment` handed out.
pub open spec fn step_items<T>(chain: &NodeChain<T>, r: SegmentStep) -> Seq<T> {
    match r {
        SegmentStep::Segment { node, start, .. } => chain.bufs()[node as int].skip(start as int),
        _ => Seq::empty(),
    }
}

/// The items handed out by consecutive steps.
pub open spec fn steps_items<T>(chain: &NodeChain<T>, steps: Seq<SegmentStep>) -> Seq<T>
    decreases steps.len(),
{
    if steps.len() == 0 {
        Seq::empty()
    } else {
        steps_items(chain, steps.drop_last()) + step_items(chain, steps.last())
    }
}

/// Consecutive calls of `next_segment` hand out the stream's data from the
/// first cursor's position on, in order and without gaps; examining nodes
/// changes nothing of the data, so one chain stands for all the calls.
pub proof fn law_segments_in_order<T>(chain: &NodeChain<T>, cursors: Seq<Cursor>, steps: Seq<SegmentStep>)
    requires
        chain.wf(),
        cursors.len() == steps.len() + 1,
        chain.valid_cursor(cursors[0]),
        forall|k: int|
            0 <= k < steps.len() ==> segment_step(chain, #[trigger] cursors[k], cursors[k + 1], steps[k]),
    ensures
        chain.pos(cursors[0]) <= chain.pos(cursors.last()) <= chain.data().len(),
        chain.data().subrange(chain.pos(cursors[0]) as int, chain.pos(cursors.last()) as int)
            == steps_items(chain, steps),
    decreases steps.len(),
{
    lemma_pos_bound(chain, cursors[0]);
    if steps.len() > 0 {
        let n = steps.len() - 1;
        let cs = cursors.drop_last();
        let ss = steps.drop_last();
        assert forall|k: int| 0 <= k < ss.len() implies segment_step(chain, #[trigger] cs[k], cs[k + 1], ss[k]) by {
            assert(segment_step(chain, cursors[k], cursors[k + 1], steps[k]));
        }
        law_segments_in_order(chain, cs, ss);
        assert(segment_step(chain, cursors[n], cursors[n + 1], steps[n]));
        lemma_pos_bound(chain, cursors[n + 1]);
        let d = chain.data();
        let a = chain.pos(cursors[0]) as int;
        let b = chain.pos(cursors[n]) as int;
        let c = chain.pos(cursors[n + 1]) as int;
        match steps[n] {
            SegmentStep::Segment { node, start, .. } => {
                chain.lemma_wf();
                assert(chain.bufs()[node as int].len() <= usize::MAX);
            },
            _ => {
                assert(b == c);
                assert(d.subrange(b, c) == Seq::<T>::empty());
            },
        }
        assert(d.subrange(a, c) == d.subrange(a, b) + d.subrange(b, c));
    }
}

/// A valid cursor stands at a position inside the data.
proof fn lemma_pos_bound<T>(chain: &NodeChain<T>, c: Cursor)
    requires
        chain.wf(),
        chain.valid_cursor(c),
    ensures
        chain.pos(c) <= chain.data().len(),
{
    if let NodeRef::Node(i) = c.node {
        lemma_prefix_step(chain.bufs(), i as int);
        super::chain::lemma_prefix_bounds(chain.bufs(), i + 1, chain.bufs().len() as int);
        lemma_prefix_full(chain.bufs());
    }
}

} // verus!
