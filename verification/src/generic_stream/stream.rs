use super::advance::{advance_head, sum_usize, AdvanceStep};
use super::chain::{
    lemma_prefix_bounds, lemma_prefix_full, lemma_prefix_step, lemma_sum_push, prefix_len, Cursor,
    NodeChain, NodeRef,
};
use super::loader::{written_items, GenericStreamLoader, WriterResult};
use super::segments::{next_segment, SegmentStep};
use crate::stream_driver::{DriverContext, LoopAction};
use vstd::prelude::*;

verus! {

broadcast use vstd::seq_lib::group_seq_properties;

/// What the loading task of a generic stream and its readers share: the nodes
/// appended so far and the counters of the driver.
pub struct StreamState<T> {
    chain: NodeChain<T>,
    context: DriverContext,
    appended: usize,
}

proof fn lemma_append_data<T>(before: NodeChain<T>, after: NodeChain<T>, added: Seq<T>)
    requires
        after.bufs() == before.bufs().push(added),
        after.examined() == before.examined().push(0),
    ensures
        after.data() == before.data() + added,
        after.total_examined() == before.total_examined(),
{
    before.bufs().lemma_flatten_push(added);
    lemma_sum_push(before.examined(), 0);
}

impl<T> StreamState<T> {
    pub closed spec fn chain(&self) -> NodeChain<T> {
        self.chain
    }

    pub closed spec fn context(&self) -> DriverContext {
        self.context
    }

    /// The driver counts as unexamined exactly the appended items that no
    /// reader has examined yet.
    pub open spec fn wf(&self) -> bool {
        &&& self.chain().wf()
        &&& self.context().wf()
        &&& self.context().unexamined() + self.chain().total_examined() == self.chain().data().len()
        &&& self.appended_count() == self.chain().data().len()
    }

    pub closed spec fn appended_count(&self) -> nat {
        self.appended as nat
    }

    /// The nodes appended so far.
    pub fn nodes(&self) -> (r: &NodeChain<T>)
        ensures
            *r == self.chain(),
    {
        &self.chain
    }

    /// The counters of the driver.
    pub fn driver_context(&self) -> (r: &DriverContext)
        ensures
            *r == self.context(),
    {
        &self.context
    }

    /// The position in the data that `cursor` stands for.
    pub fn position(&self, cursor: Cursor) -> (r: usize)
        requires
            self.wf(),
            self.chain().valid_cursor(cursor),
        ensures
            r == self.chain().pos(cursor),
    {
        let ghost bufs = self.chain.bufs();
        proof {
            lemma_prefix_full(bufs);
            self.chain.lemma_wf();
        }
        match cursor.node {
            NodeRef::Head => 0,
            NodeRef::Sentinel => self.appended,
            NodeRef::Node(i) => {
                let mut acc: usize = 0;
                let mut k: usize = 0;
                while k < i
                    invariant
                        k <= i < bufs.len(),
                        bufs == self.chain.bufs(),
                        acc == prefix_len(bufs, k as int),
                        self.appended == bufs.flatten().len(),
                        prefix_len(bufs, bufs.len() as int) == bufs.flatten().len(),
                    decreases i - k,
                {
                    proof {
                        lemma_prefix_step(bufs, k as int);
                        lemma_prefix_bounds(bufs, k + 1, bufs.len() as int);
                    }
                    acc = acc + self.chain.node_len(k);
                    k = k + 1;
                }
                proof {
                    lemma_prefix_step(bufs, i as int);
                    lemma_prefix_bounds(bufs, i + 1, bufs.len() as int);
                }
                acc + cursor.start
            },
        }
    }

    /// Whether moving `head` forward by `delta` is allowed: always while the
    /// stream is open, and within its data once it has ended.
    pub fn advance_allowed(&self, head: Cursor, delta: usize) -> (r: bool)
        requires
            self.wf(),
            self.chain().valid_cursor(head),
        ensures
            r == (self.chain().terminated() ==> self.chain().pos(head) + delta <= self.chain().data().len()),
    {
        if !self.chain.is_terminated() {
            return true;
        }
        let pos = self.position(head);
        match pos.checked_add(delta) {
            Some(end) => end <= self.appended,
            None => false,
        }
    }

    /// How many items were appended so far.
    pub fn appended_len(&self) -> (r: usize)
        requires
            self.wf(),
        ensures
            r == self.chain().data().len(),
    {
        self.appended
    }

    /// The shared state of a stream that has nothing appended yet.
    pub fn new(context: DriverContext) -> (r: Self)
        requires
            context.wf(),
            context.unexamined() == 0,
        ensures
            r.wf(),
            r.context() == context,
            r.chain().bufs() == Seq::<Seq<T>>::empty(),
    {
        let chain = NodeChain::new();
        proof {
            assert(chain.bufs().flatten() == Seq::<T>::empty());
            assert(chain.examined() == Seq::<nat>::empty());
        }
        Self { chain, context, appended: 0 }
    }

    /// The loading task completes one load: the loader appends what the
    /// source handed over, and the driver counts it and decides whether to
    /// load again, wait for readers, or stop.
    pub fn complete_load<E>(&mut self, loader: &mut GenericStreamLoader<T>, result: WriterResult<T, E>) -> (r:
        LoopAction<E>)
        requires
            old(self).wf(),
            old(self).chain().data().len() + old(loader).pending().len() <= usize::MAX,
        ensures
            final(self).wf(),
            final(self).context().resume_threshold() == old(self).context().resume_threshold(),
            final(self).context().suspend_threshold() == old(self).context().suspend_threshold(),
            final(self).chain().data().len() >= old(self).chain().data().len(),
            !old(self).chain().terminated() ==> final(self).chain().data() + final(loader).pending()
                == old(self).chain().data() + old(loader).pending() + written_items(result),
            old(self).chain().terminated() ==> final(self).chain() == old(self).chain() && r is Terminate,
            !old(self).chain().terminated() ==> match result {
                WriterResult::PreAllocated(items) => {
                    &&& final(self).chain() == old(self).chain()
                    &&& final(loader).pending() == old(loader).pending() + items@
                    &&& r == LoopAction::<E>::Continue { notify_append: false, wait_for_resume: false }
                },
                WriterResult::Allocated(items, _) => {
                    &&& final(self).chain().bufs() == old(self).chain().bufs().push(
                        old(loader).pending(),
                    )
                    &&& final(loader).pending() == items@
                    &&& r matches LoopAction::Continue { notify_append, wait_for_resume }
                        && notify_append == (old(loader).pending().len() > 0) && wait_for_resume == (
                    old(loader).pending().len() > 0 && final(self).context().unexamined()
                        >= old(self).context().suspend_threshold())
                },
                WriterResult::Finish => {
                    &&& final(self).chain().bufs() == old(self).chain().bufs().push(
                        old(loader).pending(),
                    )
                    &&& final(self).chain().terminated()
                    &&& old(loader).pending().len() == 0 ==> r == LoopAction::<E>::Terminate {
                        result: Ok(()),
                    }
                    &&& old(loader).pending().len() > 0 ==> r == LoopAction::<E>::Continue {
                        notify_append: true,
                        wait_for_resume: final(self).context().unexamined() >= old(
                            self,
                        ).context().suspend_threshold(),
                    }
                },
                WriterResult::Error(e) => {
                    &&& final(self).chain() == old(self).chain()
                    &&& r == LoopAction::<E>::Terminate { result: Err(e) }
                },
            },
    {
        let ghost c0 = self.chain;
        let ghost pending = loader.pending();
        let pending_len = loader.pending_len();
        let before = self.chain.num_nodes();
        let r = loader.complete_load(&mut self.chain, result);
        if self.chain.num_nodes() != before {
            proof {
                lemma_append_data(c0, self.chain, pending);
            }
            self.appended = self.appended + pending_len;
        }
        self.context.on_load_result(r)
    }

    /// A reader takes the next segment after `cursor`; the items it newly
    /// examines are counted off, and `resume` tells whether the resume signal
    /// is to be sent to the loading task.
    pub fn next_segment(&mut self, cursor: &mut Cursor) -> (r: (SegmentStep, bool))
        requires
            old(self).wf(),
            old(self).chain().valid_cursor(*old(cursor)),
        ensures
            final(self).wf(),
            final(self).chain().bufs() == old(self).chain().bufs(),
            final(self).chain().terminated() == old(self).chain().terminated(),
            final(self).chain().valid_cursor(*final(cursor)),
            final(self).context().state() == old(self).context().state(),
            match r.0 {
                SegmentStep::Segment { node, start, examined } => {
                    &&& node < old(self).chain().bufs().len()
                    &&& old(self).chain().bufs()[node as int].skip(start as int) == old(
                        self,
                    ).chain().data().subrange(
                        old(self).chain().pos(*old(cursor)) as int,
                        old(self).chain().pos(*final(cursor)) as int,
                    )
                    &&& final(self).context().unexamined() == old(self).context().unexamined()
                        - examined
                    &&& r.1 == (final(self).context().unexamined() <= old(
                        self,
                    ).context().resume_threshold())
                },
                SegmentStep::End => {
                    &&& old(self).chain().terminated()
                    &&& old(self).chain().pos(*old(cursor)) == old(self).chain().data().len()
                    &&& final(self).context() == old(self).context()
                    &&& !r.1
                },
                SegmentStep::Waiting => {
                    &&& !old(self).chain().terminated()
                    &&& old(self).chain().pos(*old(cursor)) == old(self).chain().data().len()
                    &&& final(self).context() == old(self).context()
                    &&& !r.1
                },
            },
    {
        let step = next_segment(&mut self.chain, cursor);
        match step {
            SegmentStep::Segment { node, start, examined } => {
                proof {
                    self.chain.lemma_wf();
                }
                let resume = self.context.notify_data_examined(examined);
                (step, resume)
            },
            _ => (step, false),
        }
    }

    /// A reader moves its head `delta` items forward; the items it newly
    /// examines are counted off, and `resume` tells whether the resume signal
    /// is to be sent to the loading task.
    pub fn advance(&mut self, head: Cursor, delta: usize) -> (r: (AdvanceStep, bool))
        requires
            old(self).wf(),
            old(self).chain().valid_cursor(head),
            old(self).chain().terminated() ==> old(self).chain().pos(head) + delta <= old(
                self,
            ).chain().data().len(),
        ensures
            final(self).wf(),
            final(self).chain().bufs() == old(self).chain().bufs(),
            final(self).chain().terminated() == old(self).chain().terminated(),
            final(self).context().state() == old(self).context().state(),
            final(self).context().unexamined() + final(self).chain().total_examined() == old(
                self,
            ).context().unexamined() + old(self).chain().total_examined(),
            match r.0 {
                AdvanceStep::Ready { head: h, .. } => {
                    &&& final(self).chain().valid_cursor(h)
                    &&& final(self).chain().pos(h) == old(self).chain().pos(head) + delta
                },
                AdvanceStep::Waiting { head: h, remaining, .. } => {
                    &&& final(self).chain().valid_cursor(h)
                    &&& final(self).chain().pos(h) == old(self).chain().data().len()
                    &&& old(self).chain().pos(head) + delta == old(self).chain().data().len()
                        + remaining
                },
            },
            r.1 == (final(self).context().unexamined() < old(self).context().unexamined()
                && final(self).context().unexamined() <= old(self).context().resume_threshold()),
    {
        let ghost c0 = self.chain;
        let step = advance_head(&mut self.chain, head, delta);
        let examined = match &step {
            AdvanceStep::Ready { examined, .. } => examined,
            AdvanceStep::Waiting { examined, .. } => examined,
        };
        proof {
            self.chain.lemma_wf();
        }
        let ghost c1 = self.chain;
        let mut resume = false;
        let mut i: usize = 0;
        while i < examined.len()
            invariant
                i <= examined@.len(),
                self.chain == c1,
                self.appended == old(self).appended,
                forall|j: int| 0 <= j < examined@.len() ==> examined@[j] > 0,
                self.context.wf(),
                self.context.resume_threshold() == old(self).context().resume_threshold(),
                self.context.suspend_threshold() == old(self).context().suspend_threshold(),
                self.context.state() == old(self).context().state(),
                self.context.unexamined() + sum_usize(examined@.take(i as int)) == old(
                    self,
                ).context().unexamined(),
                sum_usize(examined@) + c0.total_examined() == self.chain.total_examined(),
                self.chain.total_examined() <= self.chain.data().len(),
                self.chain.data() == c0.data(),
                c0.total_examined() + old(self).context().unexamined() == c0.data().len(),
                resume == (i > 0 && self.context.unexamined() <= old(
                    self,
                ).context().resume_threshold()),
                i > 0 ==> self.context.unexamined() < old(self).context().unexamined(),
            decreases examined@.len() - i,
        {
            proof {
                super::advance::lemma_sum_usize_push(examined@.take(i as int), examined@[i as int]);
                assert(examined@.take(i + 1) == examined@.take(i as int).push(examined@[i as int]));
                lemma_sum_usize_prefix(examined@, i + 1);
            }
            resume = self.context.notify_data_examined(examined[i]);
            i = i + 1;
        }
        assert(examined@.take(i as int) == examined@);
        (step, resume)
    }
}

/// A prefix of the amounts sums to no more than all of them.
proof fn lemma_sum_usize_prefix(s: Seq<usize>, k: int)
    requires
        0 <= k <= s.len(),
    ensures
        sum_usize(s.take(k)) <= sum_usize(s),
    decreases s.len() - k,
{
    if k < s.len() {
        lemma_sum_usize_prefix(s, k + 1);
        super::advance::lemma_sum_usize_push(s.take(k), s[k]);
        assert(s.take(k + 1) == s.take(k).push(s[k]));
    }
}

} // verus!
