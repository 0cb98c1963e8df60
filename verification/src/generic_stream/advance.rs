use super::chain::{
    lemma_prefix_bounds, lemma_prefix_full, lemma_prefix_step, lemma_sum_push, prefix_len, sum, Cursor,
    NodeChain, NodeRef,
};
use vstd::prelude::*;

verus! {

broadcast use vstd::seq_lib::group_seq_properties;

/// Sum of amounts given as machine integers.
pub open spec fn sum_usize(s: Seq<usize>) -> nat {
    sum(s.map_values(|x: usize| x as nat))
}

pub proof fn lemma_sum_usize_push(s: Seq<usize>, x: usize)
    ensures
        sum_usize(s.push(x)) == sum_usize(s) + x,
{
    assert(s.push(x).map_values(|x: usize| x as nat) == s.map_values(|x: usize| x as nat).push(
        x as nat,
    ));
    lemma_sum_push(s.map_values(|x: usize| x as nat), x as nat);
}

/// The index of the first node at or after a node reference.
pub open spec fn rank<T>(chain: &NodeChain<T>, r: NodeRef) -> int {
    match r {
        NodeRef::Head => 0,
        NodeRef::Node(i) => i as int,
        NodeRef::Sentinel => chain.bufs().len() as int,
    }
}

/// The examined amounts once the nodes `from .. upto` were examined to their end.
pub open spec fn examined_through<T>(ex: Seq<nat>, bufs: Seq<Seq<T>>, from: int, upto: int) -> Seq<
    nat,
> {
    Seq::new(ex.len(), |j: int| if from <= j < upto { bufs[j].len() } else { ex[j] })
}

pub open spec fn max_nat(a: nat, b: nat) -> nat {
    if a >= b { a } else { b }
}

/// A head as a completed advance leaves it: on a node with items left to
/// read, or on the end of the stream.
pub open spec fn settled<T>(chain: &NodeChain<T>, h: Cursor) -> bool {
    &&& chain.valid_cursor(h)
    &&& !(h.node is Head)
    &&& (h.node matches NodeRef::Node(k) ==> h.start < chain.bufs()[k as int].len())
}

/// Two settled heads at one position stand on the same node, and on the same
/// item of it unless they are at the end of the stream.
pub proof fn lemma_settled_unique<T>(chain: &NodeChain<T>, x: Cursor, y: Cursor)
    requires
        settled(chain, x),
        settled(chain, y),
        chain.pos(x) == chain.pos(y),
    ensures
        x.node == y.node,
        !(x.node is Sentinel) ==> x.start == y.start,
{
    let bufs = chain.bufs();
    lemma_prefix_full(bufs);
    match (x.node, y.node) {
        (NodeRef::Node(i), NodeRef::Node(j)) => {
            if i < j {
                lemma_prefix_step(bufs, i as int);
                lemma_prefix_bounds(bufs, i + 1, j as int);
            } else if j < i {
                lemma_prefix_step(bufs, j as int);
                lemma_prefix_bounds(bufs, j + 1, i as int);
            }
        },
        (NodeRef::Node(i), NodeRef::Sentinel) => {
            lemma_prefix_step(bufs, i as int);
            lemma_prefix_bounds(bufs, i + 1, bufs.len() as int);
        },
        (NodeRef::Sentinel, NodeRef::Node(j)) => {
            lemma_prefix_step(bufs, j as int);
            lemma_prefix_bounds(bufs, j + 1, bufs.len() as int);
        },
        _ => {},
    }
}

/// Advancing a head by `a` and then by `b` leaves it where advancing it by
/// `a + b` at once does: on the same node, and on the same item of it unless
/// at the end of the stream.
pub proof fn law_advance_composes<T>(
    chain: &NodeChain<T>,
    head: Cursor,
    a: nat,
    b: nat,
    after_a: Cursor,
    after_a_then_b: Cursor,
    after_sum: Cursor,
)
    requires
        chain.valid_cursor(head),
        settled(chain, after_a),
        chain.pos(after_a) == chain.pos(head) + a,
        settled(chain, after_a_then_b),
        chain.pos(after_a_then_b) == chain.pos(after_a) + b,
        settled(chain, after_sum),
        chain.pos(after_sum) == chain.pos(head) + (a + b),
    ensures
        after_a_then_b.node == after_sum.node,
        !(after_sum.node is Sentinel) ==> after_a_then_b.start == after_sum.start,
{
    lemma_settled_unique(chain, after_a_then_b, after_sum);
}

/// Appending nodes to a chain that has not ended keeps the position of every
/// cursor that pointed into it.
proof fn lemma_pos_kept_by_append<T>(before: &NodeChain<T>, after: &NodeChain<T>, c: Cursor)
    requires
        !before.terminated(),
        before.valid_cursor(c),
        before.bufs().len() <= after.bufs().len(),
        after.bufs().take(before.bufs().len() as int) == before.bufs(),
    ensures
        after.valid_cursor(c),
        after.pos(c) == before.pos(c),
{
    if let NodeRef::Node(i) = c.node {
        assert(after.bufs().take(i as int) == before.bufs().take(i as int));
        assert(after.bufs()[i as int] == before.bufs()[i as int]);
    }
}

/// An advance that had to wait for more data and then moved on by what was
/// left, once more nodes were appended, leaves the head where advancing by the
/// whole amount over the longer chain does: on the same node, and on the
/// same item of it unless at the end of the stream.
pub proof fn law_waiting_advance_resumes<T>(
    before: &NodeChain<T>,
    after: &NodeChain<T>,
    head: Cursor,
    delta: nat,
    waiting: Cursor,
    remaining: nat,
    resumed: Cursor,
    direct: Cursor,
)
    requires
        !before.terminated(),
        before.bufs().len() <= after.bufs().len(),
        after.bufs().take(before.bufs().len() as int) == before.bufs(),
        before.valid_cursor(head),
        before.valid_cursor(waiting),
        before.pos(waiting) == before.data().len(),
        before.pos(head) + delta == before.data().len() + remaining,
        settled(after, resumed),
        after.pos(resumed) == after.pos(waiting) + remaining,
        settled(after, direct),
        after.pos(direct) == after.pos(head) + delta,
    ensures
        resumed.node == direct.node,
        !(direct.node is Sentinel) ==> resumed.start == direct.start,
{
    lemma_pos_kept_by_append(before, after, head);
    lemma_pos_kept_by_append(before, after, waiting);
    lemma_settled_unique(after, resumed, direct);
}

/// Outcome of moving a stream head forward.
pub enum AdvanceStep {
    /// The head moved by the whole amount.
    Ready { head: Cursor, examined: Vec<usize> },
    /// The appended data ran out first: the head stands at the end of it and
    /// `remaining` is still to be skipped once more data was appended.
    Waiting { head: Cursor, remaining: usize, examined: Vec<usize> },
}

/// Moves the head of a stream `delta` items forward over the nodes that are
/// already appended, marking the skipped data as examined. The amounts that
/// became newly examined, one per node, are returned for the driver session.
#[verifier::rlimit(60)]
pub fn advance_head<T>(chain: &mut NodeChain<T>, head: Cursor, delta: usize) -> (r: AdvanceStep)
    requires
        old(chain).wf(),
        old(chain).valid_cursor(head),
        old(chain).terminated() ==> old(chain).pos(head) + delta <= old(chain).data().len(),
    ensures
        final(chain).wf(),
        final(chain).bufs() == old(chain).bufs(),
        final(chain).terminated() == old(chain).terminated(),
        match r {
            AdvanceStep::Ready { head: h, examined } => {
                &&& settled(final(chain), h)
                &&& final(chain).pos(h) == old(chain).pos(head) + delta
                &&& final(chain).total_examined() == old(chain).total_examined() + sum_usize(
                    examined@,
                )
                &&& forall|j: int| 0 <= j < examined@.len() ==> examined@[j] > 0
                &&& final(chain).examined() == match h.node {
                    NodeRef::Node(k) => examined_through(
                        old(chain).examined(),
                        old(chain).bufs(),
                        rank(old(chain), head.node),
                        k as int,
                    ).update(k as int, max_nat(old(chain).examined()[k as int], h.start as nat)),
                    _ => examined_through(
                        old(chain).examined(),
                        old(chain).bufs(),
                        rank(old(chain), head.node),
                        old(chain).bufs().len() as int,
                    ),
                }
            },
            AdvanceStep::Waiting { head: h, remaining, examined } => {
                &&& !old(chain).terminated()
                &&& final(chain).valid_cursor(h)
                &&& final(chain).pos(h) == old(chain).data().len()
                &&& final(chain).spec_next(h.node) is None
                &&& old(chain).pos(head) + delta == old(chain).data().len() + remaining
                &&& final(chain).total_examined() == old(chain).total_examined() + sum_usize(
                    examined@,
                )
                &&& forall|j: int| 0 <= j < examined@.len() ==> examined@[j] > 0
                &&& final(chain).examined() == examined_through(
                    old(chain).examined(),
                    old(chain).bufs(),
                    rank(old(chain), head.node),
                    old(chain).bufs().len() as int,
                )
            },
        },
{
    let ghost bufs = chain.bufs();
    let ghost ex0 = chain.examined();
    let ghost c0 = *chain;
    let ghost from = rank(&*chain, head.node);
    let mut current = head.node;
    let mut start = head.start;
    let mut remaining = delta;
    let mut examined: Vec<usize> = Vec::new();
    proof {
        lemma_prefix_full(bufs);
        c0.lemma_wf();
        assert(chain.examined() == examined_through(ex0, bufs, from, from));
    }
    loop
        invariant
            chain.wf(),
            chain.bufs() == bufs,
            chain.terminated() == c0.terminated(),
            c0.wf(),
            c0 == *old(chain),
            c0.bufs() == bufs,
            ex0 == c0.examined(),
            ex0.len() == bufs.len(),
            bufs.len() <= usize::MAX,
            c0.terminated() ==> bufs.len() > 0,
            forall|j: int| 0 <= j < bufs.len() ==> #[trigger] ex0[j] <= bufs[j].len(),
            from == rank(&c0, head.node),
            c0.valid_cursor(head),
            c0.terminated() ==> c0.pos(head) + delta <= c0.data().len(),
            prefix_len(bufs, bufs.len() as int) == bufs.flatten().len(),
            chain.valid_cursor(Cursor { node: current, start }),
            chain.pos(Cursor { node: current, start }) + remaining == c0.pos(head) + delta,
            from <= rank(&*chain, current),
            chain.total_examined() == c0.total_examined() + sum_usize(examined@),
            forall|j: int| 0 <= j < examined@.len() ==> examined@[j] > 0,
            chain.examined() == examined_through(ex0, bufs, from, rank(&*chain, current)),
        decreases bufs.len() + 2 - (if current is Head {
            0
        } else {
            rank(&*chain, current) + 1
        }),
    {
        let next = match current {
            NodeRef::Head => chain.next_of(NodeRef::Head),
            NodeRef::Node(i) => {
                let len = chain.node_len(i) - start;
                let ghost before = chain.examined();
                if remaining < len {
                    let head_start = remaining + start;
                    let newly = chain.set_examined(i, head_start);
                    if newly > 0 {
                        proof {
                            lemma_sum_usize_push(examined@, newly);
                        }
                        examined.push(newly);
                    }
                    proof {
                        assert(before[i as int] == ex0[i as int]);
                        assert(chain.examined() == examined_through(ex0, bufs, from, i as int).update(
                            i as int,
                            max_nat(ex0[i as int], head_start as nat),
                        ));
                    }
                    return AdvanceStep::Ready {
                        head: Cursor { node: current, start: head_start },
                        examined,
                    };
                }
                remaining = remaining - len;
                let node_len = chain.node_len(i);
                let newly = chain.set_examined(i, node_len);
                if newly > 0 {
                    proof {
                        lemma_sum_usize_push(examined@, newly);
                    }
                    examined.push(newly);
                }
                start = node_len;
                proof {
                    lemma_prefix_step(bufs, i as int);
                    assert(before[i as int] == ex0[i as int]);
                    assert(chain.examined() == examined_through(ex0, bufs, from, i + 1));
                }
                chain.next_of(current)
            },
            NodeRef::Sentinel => {
                return AdvanceStep::Ready { head: Cursor { node: current, start }, examined };
            },
        };
        assert(next == chain.spec_next(current));
        assert(start == if current is Head { 0 } else { chain.bufs()[rank(&*chain, current)].len() as usize });
        match next {
            None => {
                proof {
                    assert(!chain.terminated());
                    if let NodeRef::Node(i) = current {
                        assert(i + 1 == bufs.len());
                        assert(chain.examined() == examined_through(ex0, bufs, from, bufs.len() as int));
                    } else {
                        assert(bufs.len() == 0);
                        assert(chain.examined() == examined_through(ex0, bufs, from, bufs.len() as int));
                    }
                }
                return AdvanceStep::Waiting {
                    head: Cursor { node: current, start },
                    remaining,
                    examined,
                };
            },
            Some(n) => {
                proof {
                    assert(bufs.take(0) == Seq::<Seq<T>>::empty());
                    assert(prefix_len(bufs, 0) == 0);
                    if let NodeRef::Node(i) = current {
                        lemma_prefix_step(bufs, i as int);
                        if n is Sentinel {
                            assert(i + 1 == bufs.len());
                            assert(chain.pos(Cursor { node: n, start: 0 }) == prefix_len(bufs, i + 1));
                        } else {
                            assert(n == NodeRef::Node((i + 1) as usize));
                        }
                        assert(chain.pos(Cursor { node: n, start: 0 }) == chain.pos(Cursor { node: current, start }));
                        assert(rank(&*chain, n) == i + 1);
                    } else {
                        assert(n == NodeRef::Node(0));
                        assert(chain.pos(Cursor { node: n, start: 0 }) == 0);
                    }
                }
                current = n;
                start = 0;
            },
        }
    }
}

} // verus!
