use vstd::prelude::*;

verus! {

broadcast use vstd::seq_lib::group_seq_properties;

/// Number of items held by the buffers before buffer `i`.
pub open spec fn prefix_len<T>(bufs: Seq<Seq<T>>, i: int) -> nat {
    bufs.take(i).flatten().len()
}

/// Sum of a sequence of amounts.
pub open spec fn sum(s: Seq<nat>) -> nat
    decreases s.len(),
{
    if s.len() == 0 {
        0
    } else {
        sum(s.drop_last()) + s.last()
    }
}

pub proof fn lemma_prefix_step<T>(bufs: Seq<Seq<T>>, i: int)
    requires
        0 <= i < bufs.len(),
    ensures
        prefix_len(bufs, i + 1) == prefix_len(bufs, i) + bufs[i].len(),
        bufs.take(i + 1).flatten() == bufs.take(i).flatten() + bufs[i],
{
    assert(bufs.take(i + 1) == bufs.take(i).push(bufs[i]));
    bufs.take(i).lemma_flatten_push(bufs[i]);
}

pub proof fn lemma_prefix_bounds<T>(bufs: Seq<Seq<T>>, i: int, j: int)
    requires
        0 <= i <= j <= bufs.len(),
    ensures
        prefix_len(bufs, i) <= prefix_len(bufs, j),
        bufs.take(j).flatten().take(prefix_len(bufs, i) as int) == bufs.take(i).flatten(),
    decreases j - i,
{
    if i < j {
        lemma_prefix_bounds(bufs, i, j - 1);
        lemma_prefix_step(bufs, j - 1);
        let a = bufs.take(j - 1).flatten();
        assert((a + bufs[j - 1]).take(prefix_len(bufs, i) as int) == a.take(
            prefix_len(bufs, i) as int,
        ));
    }
}

pub proof fn lemma_prefix_full<T>(bufs: Seq<Seq<T>>)
    ensures
        prefix_len(bufs, bufs.len() as int) == bufs.flatten().len(),
        bufs.take(bufs.len() as int) == bufs,
{
    assert(bufs.take(bufs.len() as int) == bufs);
}

/// Items of buffer `i` sit at positions `prefix_len(i) ..` of the flattened data.
pub proof fn lemma_buffer_in_data<T>(bufs: Seq<Seq<T>>, i: int)
    requires
        0 <= i < bufs.len(),
    ensures
        prefix_len(bufs, i) + bufs[i].len() <= bufs.flatten().len(),
        bufs.flatten().subrange(prefix_len(bufs, i) as int, (prefix_len(bufs, i) + bufs[i].len()) as int)
            == bufs[i],
{
    lemma_prefix_step(bufs, i);
    lemma_prefix_bounds(bufs, i + 1, bufs.len() as int);
    lemma_prefix_full(bufs);
    let p = prefix_len(bufs, i) as int;
    let whole = bufs.flatten();
    let upto = bufs.take(i + 1).flatten();
    assert(whole.take(p + bufs[i].len()) == upto);
    assert(whole.subrange(p, p + bufs[i].len()) == upto.subrange(p, p + bufs[i].len()));
    assert(upto.subrange(p, p + bufs[i].len()) == bufs[i]);
}

pub proof fn lemma_sum_push(s: Seq<nat>, x: nat)
    ensures
        sum(s.push(x)) == sum(s) + x,
{
    assert(s.push(x).drop_last() == s);
}

pub proof fn lemma_sum_update(s: Seq<nat>, j: int, x: nat)
    requires
        0 <= j < s.len(),
    ensures
        sum(s.update(j, x)) + s[j] == sum(s) + x,
    decreases s.len(),
{
    if j == s.len() - 1 {
        assert(s.update(j, x).drop_last() == s.drop_last());
    } else {
        lemma_sum_update(s.drop_last(), j, x);
        assert(s.update(j, x).drop_last() == s.drop_last().update(j, x));
    }
}

/// Amounts that each stay within their buffer sum to at most the data.
pub proof fn lemma_sum_within<T>(ex: Seq<nat>, bufs: Seq<Seq<T>>)
    requires
        ex.len() == bufs.len(),
        forall|i: int| 0 <= i < ex.len() ==> #[trigger] ex[i] <= bufs[i].len(),
    ensures
        sum(ex) <= bufs.flatten().len(),
    decreases ex.len(),
{
    if ex.len() > 0 {
        let n = ex.len() - 1;
        lemma_sum_within(ex.drop_last(), bufs.drop_last());
        assert(bufs.drop_last().push(bufs[n]) == bufs);
        bufs.drop_last().lemma_flatten_push(bufs[n]);
        assert(ex[n] <= bufs[n].len());
    }
}

/// The examined amount of a node once `reported` was reported after `prev`:
/// it only grows.
pub open spec fn raised(prev: nat, reported: nat) -> nat {
    if reported > prev {
        reported
    } else {
        prev
    }
}

/// By how much such a report grows the examined amount.
pub open spec fn growth(prev: nat, reported: nat) -> nat {
    (raised(prev, reported) - prev) as nat
}

/// The examined amount after the reports `xs`, in order, starting from `start`.
pub open spec fn raised_all(start: nat, xs: Seq<nat>) -> nat
    decreases xs.len(),
{
    if xs.len() == 0 {
        start
    } else {
        raised(raised_all(start, xs.drop_last()), xs.last())
    }
}

/// The amounts that the reports `xs`, in order, return, starting from `start`.
pub open spec fn growths(start: nat, xs: Seq<nat>) -> Seq<nat>
    decreases xs.len(),
{
    if xs.len() == 0 {
        Seq::empty()
    } else {
        growths(start, xs.drop_last()).push(growth(raised_all(start, xs.drop_last()), xs.last()))
    }
}

/// Reporting examined amounts to a node one after another: the amounts that
/// the reports return add up to how far the examined amount grew, and it grew
/// to the largest of the start and the reports.
pub proof fn law_examined_growths_add_up(start: nat, xs: Seq<nat>)
    ensures
        sum(growths(start, xs)) == raised_all(start, xs) - start,
        raised_all(start, xs) >= start,
        forall|i: int| 0 <= i < xs.len() ==> raised_all(start, xs) >= #[trigger] xs[i],
        raised_all(start, xs) == start || exists|i: int|
            0 <= i < xs.len() && raised_all(start, xs) == #[trigger] xs[i],
    decreases xs.len(),
{
    if xs.len() > 0 {
        let init = xs.drop_last();
        law_examined_growths_add_up(start, init);
        lemma_sum_push(growths(start, init), growth(raised_all(start, init), xs.last()));
        assert forall|i: int| 0 <= i < xs.len() implies raised_all(start, xs) >= #[trigger] xs[i] by {
            if i < xs.len() - 1 {
                assert(init[i] == xs[i]);
            }
        }
        if raised_all(start, xs) != start {
            if xs.last() > raised_all(start, init) {
                assert(raised_all(start, xs) == xs[xs.len() - 1]);
            } else {
                let k = choose|i: int| 0 <= i < init.len() && raised_all(start, init) == #[trigger] init[i];
                assert(raised_all(start, xs) == xs[k]);
            }
        }
    }
}

/// A buffer of the stream that the loader has handed over, with the amount of
/// it that readers have examined so far.
pub struct IntermediateNode<T> {
    buf: Vec<T>,
    examined: usize,
    followed_by_sentinel: bool,
}

impl<T> IntermediateNode<T> {
    pub closed spec fn data(&self) -> Seq<T> {
        self.buf@
    }

    pub closed spec fn examined_amount(&self) -> nat {
        self.examined as nat
    }

    /// Whether the node after this one is the end of the stream.
    pub closed spec fn followed_by_sentinel(&self) -> bool {
        self.followed_by_sentinel
    }

    /// A node whose successor is not known yet.
    pub fn new(buf: Vec<T>) -> (r: Self)
        ensures
            r.data() == buf@,
            r.examined_amount() == 0,
            !r.followed_by_sentinel(),
    {
        Self { buf, examined: 0, followed_by_sentinel: false }
    }

    /// A node that is the last one of its stream.
    pub fn new_with(buf: Vec<T>) -> (r: Self)
        ensures
            r.data() == buf@,
            r.examined_amount() == 0,
            r.followed_by_sentinel(),
    {
        Self { buf, examined: 0, followed_by_sentinel: true }
    }

    /// Raises the examined amount to `examined` if it is larger, and returns
    /// by how much it grew.
    pub fn set_examined(&mut self, examined: usize) -> (newly: usize)
        ensures
            final(self).data() == old(self).data(),
            final(self).followed_by_sentinel() == old(self).followed_by_sentinel(),
            final(self).examined_amount() == raised(old(self).examined_amount(), examined as nat),
            newly == growth(old(self).examined_amount(), examined as nat),
    {
        let last = self.examined;
        if examined > last {
            self.examined = examined;
            examined - last
        } else {
            0
        }
    }

    pub fn len(&self) -> (r: usize)
        ensures
            r == self.data().len(),
    {
        self.buf.len()
    }

    pub fn is_followed_by_sentinel(&self) -> (r: bool)
        ensures
            r == self.followed_by_sentinel(),
    {
        self.followed_by_sentinel
    }

    /// The items of the node from `start` on.
    pub fn segment(&self, start: usize) -> (r: &[T])
        requires
            start <= self.data().len(),
        ensures
            r@ == self.data().skip(start as int),
    {
        let s = self.buf.as_slice();
        vstd::slice::slice_subrange(s, start, s.len())
    }
}

/// A place in a chain of nodes: before the first node, at a node, or at the
/// end of a terminated stream.
#[derive(Debug, Clone, Copy, PartialEq, Eq)]
pub enum NodeRef {
    Head,
    Node(usize),
    Sentinel,
}

/// A node reference together with the offset into that node's buffer.
#[derive(Debug, Clone, Copy, PartialEq, Eq)]
pub struct Cursor {
    pub node: NodeRef,
    pub start: usize,
}

/// The nodes that a loader has appended to a stream, in order.
pub struct NodeChain<T> {
    nodes: Vec<IntermediateNode<T>>,
}

impl<T> NodeChain<T> {
    pub closed spec fn bufs(&self) -> Seq<Seq<T>> {
        self.nodes@.map_values(|n: IntermediateNode<T>| n.data())
    }

    pub closed spec fn examined(&self) -> Seq<nat> {
        self.nodes@.map_values(|n: IntermediateNode<T>| n.examined_amount())
    }

    /// Whether the last node is followed by the sentinel.
    pub closed spec fn terminated(&self) -> bool {
        self.nodes@.len() > 0 && self.nodes@.last().followed_by_sentinel()
    }

    /// Only the last node may be followed by the sentinel, and no node is
    /// examined beyond its length.
    pub closed spec fn wf(&self) -> bool {
        &&& forall|i: int|
            0 <= i < self.nodes@.len() - 1 ==> !(#[trigger] self.nodes@[i]).followed_by_sentinel()
        &&& forall|i: int|
            0 <= i < self.nodes@.len() ==> (#[trigger] self.nodes@[i]).examined_amount()
                <= self.nodes@[i].data().len()
    }

    /// All items of the stream, in order.
    pub open spec fn data(&self) -> Seq<T> {
        self.bufs().flatten()
    }

    pub open spec fn total_examined(&self) -> nat {
        sum(self.examined())
    }

    /// The cursor points into this chain.
    pub open spec fn valid_cursor(&self, c: Cursor) -> bool {
        match c.node {
            NodeRef::Head => c.start == 0,
            NodeRef::Node(i) => i < self.bufs().len() && c.start <= self.bufs()[i as int].len(),
            NodeRef::Sentinel => self.terminated(),
        }
    }

    /// The position in the data that the cursor stands for.
    pub open spec fn pos(&self, c: Cursor) -> nat {
        match c.node {
            NodeRef::Head => 0,
            NodeRef::Node(i) => prefix_len(self.bufs(), i as int) + c.start as nat,
            NodeRef::Sentinel => self.data().len(),
        }
    }

    /// The node after the given one, if it is known.
    pub open spec fn spec_next(&self, r: NodeRef) -> Option<NodeRef> {
        match r {
            NodeRef::Head => if self.bufs().len() > 0 {
                Some(NodeRef::Node(0))
            } else {
                None
            },
            NodeRef::Node(i) => if i + 1 < self.bufs().len() {
                Some(NodeRef::Node((i + 1) as usize))
            } else if self.terminated() {
                Some(NodeRef::Sentinel)
            } else {
                None
            },
            NodeRef::Sentinel => None,
        }
    }

    pub proof fn lemma_wf(&self)
        requires
            self.wf(),
        ensures
            self.bufs().len() == self.examined().len(),
            self.bufs().len() <= usize::MAX,
            self.terminated() ==> self.bufs().len() > 0,
            forall|i: int|
                0 <= i < self.bufs().len() ==> #[trigger] self.examined()[i] <= self.bufs()[i].len(),
            self.total_examined() <= self.data().len(),
            forall|i: int| 0 <= i < self.bufs().len() ==> #[trigger] self.bufs()[i].len() <= usize::MAX,
    {
        broadcast use vstd::std_specs::vec::axiom_spec_len;

        assert(self.nodes.len() == self.nodes@.len());
        lemma_sum_within(self.examined(), self.bufs());
        assert forall|i: int| 0 <= i < self.bufs().len() implies #[trigger] self.bufs()[i].len()
            <= usize::MAX by {
            assert(self.nodes@[i].buf.len() == self.nodes@[i].buf@.len());
        }
    }

    pub fn new() -> (r: Self)
        ensures
            r.wf(),
            r.bufs() == Seq::<Seq<T>>::empty(),
            r.examined() == Seq::<nat>::empty(),
            !r.terminated(),
    {
        Self { nodes: Vec::new() }
    }

    /// Whether `c` points into this chain.
    pub fn is_valid_cursor(&self, c: Cursor) -> (r: bool)
        requires
            self.wf(),
        ensures
            r == self.valid_cursor(c),
    {
        proof {
            self.lemma_wf();
        }
        match c.node {
            NodeRef::Head => c.start == 0,
            NodeRef::Node(i) => i < self.nodes.len() && c.start <= self.nodes[i].len(),
            NodeRef::Sentinel => self.is_terminated(),
        }
    }

    pub fn num_nodes(&self) -> (r: usize)
        ensures
            r == self.bufs().len(),
    {
        self.nodes.len()
    }

    pub fn is_terminated(&self) -> (r: bool)
        ensures
            r == self.terminated(),
    {
        let n = self.nodes.len();
        n > 0 && self.nodes[n - 1].is_followed_by_sentinel()
    }

    pub fn node_len(&self, i: usize) -> (r: usize)
        requires
            i < self.bufs().len(),
        ensures
            r == self.bufs()[i as int].len(),
    {
        self.nodes[i].len()
    }

    /// The items of node `i` from `start` on.
    pub fn segment(&self, i: usize, start: usize) -> (r: &[T])
        requires
            i < self.bufs().len(),
            start <= self.bufs()[i as int].len(),
        ensures
            r@ == self.bufs()[i as int].skip(start as int),
    {
        self.nodes[i].segment(start)
    }

    /// The node after `r`, if the loader has already appended it.
    pub fn next_of(&self, r: NodeRef) -> (n: Option<NodeRef>)
        requires
            self.wf(),
        ensures
            n == self.spec_next(r),
    {
        match r {
            NodeRef::Head => if self.nodes.len() > 0 {
                Some(NodeRef::Node(0))
            } else {
                None
            },
            NodeRef::Node(i) => if i < self.nodes.len() && self.nodes.len() - i > 1 {
                Some(NodeRef::Node(i + 1))
            } else if self.is_terminated() {
                Some(NodeRef::Sentinel)
            } else {
                None
            },
            NodeRef::Sentinel => None,
        }
    }

    /// Appends a node behind the last one.
    pub fn append(&mut self, node: IntermediateNode<T>)
        requires
            old(self).wf(),
            !old(self).terminated(),
            node.examined_amount() == 0,
        ensures
            final(self).wf(),
            final(self).bufs() == old(self).bufs().push(node.data()),
            final(self).examined() == old(self).examined().push(0),
            final(self).terminated() == node.followed_by_sentinel(),
    {
        self.nodes.push(node);
        assert(self.bufs() == old(self).bufs().push(node.data()));
        assert(self.examined() == old(self).examined().push(0));
    }

    /// Raises the examined amount of node `i` to `examined` if that is larger,
    /// and returns by how much it grew.
    pub fn set_examined(&mut self, i: usize, examined: usize) -> (newly: usize)
        requires
            old(self).wf(),
            i < old(self).bufs().len(),
            examined <= old(self).bufs()[i as int].len(),
        ensures
            final(self).wf(),
            final(self).bufs() == old(self).bufs(),
            final(self).terminated() == old(self).terminated(),
            final(self).examined() == old(self).examined().update(
                i as int,
                raised(old(self).examined()[i as int], examined as nat),
            ),
            newly == growth(old(self).examined()[i as int], examined as nat),
            final(self).total_examined() == old(self).total_examined() + newly,
    {
        let ghost ex = self.examined();
        let mut node = self.nodes.remove(i);
        let newly = node.set_examined(examined);
        self.nodes.insert(i, node);
        assert(self.nodes@ == old(self).nodes@.update(i as int, node));
        assert(self.bufs() == old(self).bufs());
        let ghost x = if examined > ex[i as int] {
            examined as nat
        } else {
            ex[i as int]
        };
        assert(self.examined() == ex.update(i as int, x));
        proof {
            lemma_sum_update(ex, i as int, x);
        }
        newly
    }
}

} // verus!
