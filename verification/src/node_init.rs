use vstd::prelude::*;

verus! {

/// Initialisation state of a lazily loaded stream node.
#[derive(Debug, Clone, Copy, PartialEq, Eq)]
pub enum NodeState {
    Initial,
    Initializing,
    InitializedNone,
    InitializedSome,
}

/// A node whose segment is loaded by the first reader that reaches it.
pub struct NodeCell<T> {
    state: NodeState,
    data: Option<T>,
}

impl<T> NodeCell<T> {
    pub closed spec fn state(&self) -> NodeState {
        self.state
    }

    pub closed spec fn value(&self) -> Option<T> {
        self.data
    }

    /// The segment is present exactly when the node was initialised with one.
    pub open spec fn wf(&self) -> bool {
        (self.state() == NodeState::InitializedSome) == (self.value() is Some)
    }

    pub fn new() -> (r: Self)
        ensures
            r.wf(),
            r.state() == NodeState::Initial,
    {
        Self { state: NodeState::Initial, data: None }
    }

    pub fn state_now(&self) -> (r: NodeState)
        ensures
            r == self.state(),
    {
        self.state
    }

    /// Claims the initialisation: succeeds only on an untouched node, which
    /// then is being initialised; otherwise reports the state found.
    pub fn try_begin_init(&mut self) -> (r: Result<(), NodeState>)
        requires
            old(self).wf(),
        ensures
            final(self).wf(),
            final(self).value() == old(self).value(),
            old(self).state() == NodeState::Initial ==> r is Ok && final(self).state()
                == NodeState::Initializing,
            old(self).state() != NodeState::Initial ==> r == Err::<(), NodeState>(old(self).state())
                && final(self).state() == old(self).state(),
    {
        match self.state {
            NodeState::Initial => {
                self.state = NodeState::Initializing;
                Ok(())
            },
            s => Err(s),
        }
    }

    /// Stores what the source produced for this node.
    pub fn complete(&mut self, segment: Option<T>)
        requires
            old(self).wf(),
            old(self).state() == NodeState::Initializing,
        ensures
            final(self).wf(),
            final(self).value() == segment,
            final(self).state() == if segment is Some {
                NodeState::InitializedSome
            } else {
                NodeState::InitializedNone
            },
    {
        match segment {
            Some(v) => {
                self.data = Some(v);
                self.state = NodeState::InitializedSome;
            },
            None => {
                self.state = NodeState::InitializedNone;
            },
        }
    }

    /// The node's segment once it was initialised with one.
    pub fn get(&self) -> (r: Option<&T>)
        requires
            self.wf(),
        ensures
            (r is Some) == (self.state() == NodeState::InitializedSome),
            r matches Some(x) ==> *x == self.value().unwrap(),
    {
        match self.state {
            NodeState::InitializedSome => self.data.as_ref(),
            _ => None,
        }
    }
}

/// States of the future that waits for a node to be initialised.
#[derive(Debug, Clone, Copy, PartialEq, Eq)]
pub enum EnsureInitState {
    Initial { size_hint: usize },
    Initializing,
    Waiting,
    Final,
}

/// What happened since the previous poll.
pub enum InitEvent<T> {
    /// Nothing became ready.
    Polled,
    /// The append notification fired.
    Notified,
    /// The source's `next` produced this segment (or the end of data).
    NextReady(Option<T>),
}

/// What the poll does.
#[derive(Debug, Clone, Copy, PartialEq, Eq)]
pub enum InitAction {
    /// Start the source's `next` with this size hint, wake, and return pending.
    StartNext { size_hint: usize },
    /// Return pending (waking the task first if `wake`).
    Pending { wake: bool },
    /// The node is initialised; return ready.
    Ready,
    /// The node was just initialised by this future: notify all waiters and
    /// return ready.
    ReadyNotifyAll,
}

pub open spec fn initialized(s: NodeState) -> bool {
    s == NodeState::InitializedNone || s == NodeState::InitializedSome
}

/// Makes sure that a node is initialised: the first future to reach an
/// untouched node loads its segment from the source, the others wait until
/// it is stored.
pub struct EnsureInit {
    state: EnsureInitState,
}

impl EnsureInit {
    pub closed spec fn state(&self) -> EnsureInitState {
        self.state
    }

    pub fn new(size_hint: usize) -> (r: Self)
        ensures
            r.state() == (EnsureInitState::Initial { size_hint }),
    {
        Self { state: EnsureInitState::Initial { size_hint } }
    }

    /// One poll of the future, given what happened since the previous one.
    pub fn poll<T>(&mut self, node: &mut NodeCell<T>, event: InitEvent<T>) -> (r: InitAction)
        requires
            old(node).wf(),
            old(self).state() != EnsureInitState::Final,
            old(self).state() == EnsureInitState::Initializing ==> old(node).state()
                == NodeState::Initializing,
        ensures
            final(node).wf(),
            final(self).state() == EnsureInitState::Initializing ==> final(node).state()
                == NodeState::Initializing,
            // the source is started by exactly the future that claims an untouched node
            (r is StartNext) <==> (old(self).state() is Initial && old(node).state()
                == NodeState::Initial),
            r is StartNext ==> final(node).state() == NodeState::Initializing && r == (
            InitAction::StartNext { size_hint: old(self).state()->size_hint })
                && final(self).state() == EnsureInitState::Initializing,
            // a node never returns to being untouched
            old(node).state() != NodeState::Initial ==> final(node).state() != NodeState::Initial,
            // only the initialising future stores a value
            !(old(self).state() is Initializing) ==> *final(node) == *old(node) || (r is StartNext
                && final(node).value() == old(node).value()),
            // ready means the node is initialised
            (r == InitAction::Ready || r == InitAction::ReadyNotifyAll) ==> initialized(
                final(node).state(),
            ) && final(self).state() == EnsureInitState::Final,
            r == InitAction::ReadyNotifyAll <==> (old(self).state() is Initializing
                && event is NextReady),
            old(self).state() is Initializing ==> (event matches InitEvent::NextReady(v)
                ==> final(node).value() == v),
            (r is Pending) ==> final(self).state() == old(self).state() || (old(self).state() is Initial
                && final(self).state() == EnsureInitState::Waiting),
            // a future that finds the node already initialised is ready at once
            old(self).state() is Initial && initialized(old(node).state()) ==> r == InitAction::Ready
                && final(self).state() == EnsureInitState::Final,
            // a future that finds the node being initialised waits for the notification
            old(self).state() is Initial && old(node).state() == NodeState::Initializing ==> r
                == (InitAction::Pending { wake: true }) && final(self).state()
                == EnsureInitState::Waiting,
            // a waiting future is ready once notified of an initialised node
            old(self).state() == EnsureInitState::Waiting && event is Notified && initialized(
                old(node).state(),
            ) ==> r == InitAction::Ready && final(self).state() == EnsureInitState::Final,
    {
        match self.state {
            EnsureInitState::Initial { size_hint } => {
                match node.try_begin_init() {
                    Ok(()) => {
                        self.state = EnsureInitState::Initializing;
                        InitAction::StartNext { size_hint }
                    },
                    Err(NodeState::Initializing) => {
                        // Another future loads the node: wait for its notification.
                        self.state = EnsureInitState::Waiting;
                        InitAction::Pending { wake: true }
                    },
                    Err(_) => {
                        self.state = EnsureInitState::Final;
                        InitAction::Ready
                    },
                }
            },
            EnsureInitState::Waiting => {
                match event {
                    InitEvent::Notified => {
                        let s = node.state_now();
                        match s {
                            NodeState::InitializedNone | NodeState::InitializedSome => {
                                self.state = EnsureInitState::Final;
                                InitAction::Ready
                            },
                            _ => InitAction::Pending { wake: true },
                        }
                    },
                    _ => InitAction::Pending { wake: false },
                }
            },
            EnsureInitState::Initializing => {
                match event {
                    InitEvent::NextReady(v) => {
                        node.complete(v);
                        self.state = EnsureInitState::Final;
                        InitAction::ReadyNotifyAll
                    },
                    _ => InitAction::Pending { wake: false },
                }
            },
            EnsureInitState::Final => InitAction::Ready,
        }
    }
}

/// What a poll of `GetOrInitOwned` does.
#[derive(Debug, Clone, Copy, PartialEq, Eq)]
pub enum GetOrInitAction {
    /// Start the source's `next` with this size hint, wake, and return pending.
    StartNext { size_hint: usize },
    /// Return pending (waking the task first if `wake`).
    Pending { wake: bool },
    /// Return ready: the node's segment if `some`, else the end of the
    /// stream; notify all waiters first if `notify_all`.
    Ready { some: bool, notify_all: bool },
}

/// Waits for a node to be initialised and then hands out the node, or the end
/// of the stream where the source had no more data.
pub struct GetOrInitOwned {
    ensure_init: EnsureInit,
    resolved: bool,
}

impl GetOrInitOwned {
    pub closed spec fn inner(&self) -> EnsureInitState {
        self.ensure_init.state()
    }

    /// Whether the future has already produced its result.
    pub closed spec fn resolved(&self) -> bool {
        self.resolved
    }

    /// An unresolved future still waits for its node.
    pub closed spec fn wf(&self) -> bool {
        !self.resolved ==> self.ensure_init.state() != EnsureInitState::Final
    }

    pub fn new(size_hint: usize) -> (r: Self)
        ensures
            r.inner() == (EnsureInitState::Initial { size_hint }),
            !r.resolved(),
            r.wf(),
    {
        Self { ensure_init: EnsureInit::new(size_hint), resolved: false }
    }

    /// One poll of the future, given what happened since the previous one;
    /// it must not be polled again once it resolved.
    pub fn poll<T>(&mut self, node: &mut NodeCell<T>, event: InitEvent<T>) -> (r: GetOrInitAction)
        requires
            old(node).wf(),
            old(self).wf(),
            !old(self).resolved(),
            old(self).inner() == EnsureInitState::Initializing ==> old(node).state()
                == NodeState::Initializing,
        ensures
            final(node).wf(),
            final(self).wf(),
            final(self).inner() == EnsureInitState::Initializing ==> final(node).state()
                == NodeState::Initializing,
            (r is StartNext) <==> (old(self).inner() is Initial && old(node).state()
                == NodeState::Initial),
            r is StartNext ==> r == (GetOrInitAction::StartNext {
                size_hint: old(self).inner()->size_hint,
            }) && final(node).state() == NodeState::Initializing,
            !(old(self).inner() is Initializing) ==> *final(node) == *old(node) || (r is StartNext
                && final(node).value() == old(node).value()),
            old(self).inner() is Initializing ==> (event matches InitEvent::NextReady(v)
                ==> final(node).value() == v),
            final(self).resolved() == (r is Ready),
            r matches GetOrInitAction::Ready { some, notify_all } ==> {
                &&& initialized(final(node).state())
                &&& some == (final(node).state() == NodeState::InitializedSome)
                &&& notify_all == (old(self).inner() is Initializing && event is NextReady)
            },
            (r is Pending) ==> final(self).inner() == old(self).inner() || (old(self).inner() is Initial
                && final(self).inner() == EnsureInitState::Waiting),
            r is StartNext ==> final(self).inner() == EnsureInitState::Initializing,
            old(self).inner() is Initial && initialized(old(node).state()) ==> r == (
            GetOrInitAction::Ready {
                some: old(node).state() == NodeState::InitializedSome,
                notify_all: false,
            }),
            old(self).inner() is Initial && old(node).state() == NodeState::Initializing ==> r
                == (GetOrInitAction::Pending { wake: true }) && final(self).inner()
                == EnsureInitState::Waiting,
            old(self).inner() == EnsureInitState::Waiting && event is Notified && initialized(
                old(node).state(),
            ) ==> r == (GetOrInitAction::Ready {
                some: old(node).state() == NodeState::InitializedSome,
                notify_all: false,
            }),
    {
        match self.ensure_init.poll(node, event) {
            InitAction::StartNext { size_hint } => GetOrInitAction::StartNext { size_hint },
            InitAction::Pending { wake } => GetOrInitAction::Pending { wake },
            InitAction::Ready => {
                self.resolved = true;
                let some = match node.state_now() {
                    NodeState::InitializedSome => true,
                    _ => false,
                };
                GetOrInitAction::Ready { some, notify_all: false }
            },
            InitAction::ReadyNotifyAll => {
                self.resolved = true;
                let some = match node.state_now() {
                    NodeState::InitializedSome => true,
                    _ => false,
                };
                GetOrInitAction::Ready { some, notify_all: true }
            },
        }
    }
}

/// The lazily loaded nodes of a stream, in order: a node initialised with a
/// segment is followed by the next node, which stays untouched until a
/// reader reaches it; the last node is never initialised with a segment.
pub struct LazyNodes<T> {
    nodes: Vec<NodeCell<T>>,
}

impl<T> LazyNodes<T> {
    pub closed spec fn cells(&self) -> Seq<NodeCell<T>> {
        self.nodes@
    }

    /// Every node but the last holds a segment; each node is well formed.
    pub open spec fn wf(&self) -> bool {
        &&& self.cells().len() >= 1
        &&& forall|j: int|
            0 <= j < self.cells().len() - 1 ==> (#[trigger] self.cells()[j]).state()
                == NodeState::InitializedSome
        &&& self.cells().last().state() != NodeState::InitializedSome
        &&& forall|j: int| 0 <= j < self.cells().len() ==> (#[trigger] self.cells()[j]).wf()
    }

    /// One untouched node.
    pub fn new() -> (r: Self)
        ensures
            r.wf(),
            r.cells().len() == 1,
            r.cells()[0].state() == NodeState::Initial,
    {
        let mut nodes = Vec::new();
        nodes.push(NodeCell::new());
        Self { nodes }
    }

    pub fn len(&self) -> (r: usize)
        ensures
            r == self.cells().len(),
    {
        self.nodes.len()
    }

    /// The node after node `i`: known once node `i` holds a segment.
    pub fn next_of(&self, i: usize) -> (r: Option<usize>)
        requires
            self.wf(),
            i < self.cells().len(),
        ensures
            r == if self.cells()[i as int].state() == NodeState::InitializedSome {
                Some((i + 1) as usize)
            } else {
                None::<usize>
            },
    {
        if i < self.nodes.len() - 1 {
            Some(i + 1)
        } else {
            None
        }
    }

    /// The state of node `i`.
    pub fn state_of(&self, i: usize) -> (r: NodeState)
        requires
            i < self.cells().len(),
        ensures
            r == self.cells()[i as int].state(),
    {
        self.nodes[i].state_now()
    }

    /// The segment of node `i`, once it holds one.
    pub fn get(&self, i: usize) -> (r: Option<&T>)
        requires
            self.wf(),
            i < self.cells().len(),
        ensures
            (r is Some) == (self.cells()[i as int].state() == NodeState::InitializedSome),
            r matches Some(x) ==> *x == self.cells()[i as int].value().unwrap(),
    {
        self.nodes[i].get()
    }

    /// One poll of a future that reached node `i`, as `GetOrInitOwned::poll`
    /// does it on that node; once the last node is initialised with a
    /// segment, an untouched node is appended after it.
    pub fn poll(&mut self, i: usize, fut: &mut GetOrInitOwned, event: InitEvent<T>) -> (r:
        GetOrInitAction)
        requires
            old(self).wf(),
            i < old(self).cells().len(),
            old(fut).wf(),
            !old(fut).resolved(),
            old(fut).inner() == EnsureInitState::Initializing ==> old(self).cells()[i as int].state()
                == NodeState::Initializing,
        ensures
            final(self).wf(),
            final(fut).wf(),
            final(fut).resolved() == (r is Ready),
            // nodes other than `i` stay as they are
            forall|j: int|
                0 <= j < old(self).cells().len() && j != i ==> final(self).cells()[j] == old(
                    self,
                ).cells()[j],
            // a node is appended exactly when the last node got its segment,
            // and it is untouched
            final(self).cells().len() == old(self).cells().len() + if i == old(self).cells().len()
                - 1 && final(self).cells()[i as int].state() == NodeState::InitializedSome {
                1int
            } else {
                0int
            },
            final(self).cells().len() > old(self).cells().len() ==> final(self).cells().last().state()
                == NodeState::Initial,
            final(fut).inner() == EnsureInitState::Initializing ==> final(self).cells()[i as int].state()
                == NodeState::Initializing,
            (r is StartNext) <==> (old(fut).inner() is Initial && old(self).cells()[i as int].state()
                == NodeState::Initial),
            r is StartNext ==> r == (GetOrInitAction::StartNext {
                size_hint: old(fut).inner()->size_hint,
            }) && final(self).cells()[i as int].state() == NodeState::Initializing,
            old(fut).inner() is Initializing ==> (event matches InitEvent::NextReady(v)
                ==> final(self).cells()[i as int].value() == v),
            !(old(fut).inner() is Initializing) && !(r is StartNext) ==> final(self).cells()[i as int]
                == old(self).cells()[i as int],
            r matches GetOrInitAction::Ready { some, notify_all } ==> {
                &&& initialized(final(self).cells()[i as int].state())
                &&& some == (final(self).cells()[i as int].state() == NodeState::InitializedSome)
                &&& notify_all == (old(fut).inner() is Initializing && event is NextReady)
            },
            old(fut).inner() is Initial && initialized(old(self).cells()[i as int].state()) ==> r
                == (GetOrInitAction::Ready {
                some: old(self).cells()[i as int].state() == NodeState::InitializedSome,
                notify_all: false,
            }),
            old(fut).inner() == EnsureInitState::Waiting && event is Notified && initialized(
                old(self).cells()[i as int].state(),
            ) ==> r == (GetOrInitAction::Ready {
                some: old(self).cells()[i as int].state() == NodeState::InitializedSome,
                notify_all: false,
            }),
    {
        let ghost before = self.nodes@;
        let last = i == self.nodes.len() - 1;
        let mut cell = self.nodes.remove(i);
        assert(cell == before[i as int]);
        let r = fut.poll(&mut cell, event);
        let some = match cell.state_now() {
            NodeState::InitializedSome => true,
            _ => false,
        };
        self.nodes.insert(i, cell);
        assert(self.nodes@ == before.update(i as int, cell));
        if last && some {
            self.nodes.push(NodeCell::new());
        }
        r
    }
}

/// One poll of some future on a shared node: the node's state before and
/// after, and whether that poll started the source.
pub struct PollRecord {
    pub before: NodeState,
    pub after: NodeState,
    pub started: bool,
}

/// A single poll record is possible for `EnsureInit::poll`.
pub open spec fn record_ok(r: PollRecord) -> bool {
    &&& r.started ==> r.before == NodeState::Initial && r.after == NodeState::Initializing
    &&& r.before != NodeState::Initial ==> r.after != NodeState::Initial
    &&& r.before == NodeState::Initial && r.after != NodeState::Initial ==> r.started
}

/// Consecutive polls on one node, each as `EnsureInit::poll` allows.
pub open spec fn valid_trace(trace: Seq<PollRecord>) -> bool {
    &&& forall|i: int| 0 <= i < trace.len() ==> record_ok(#[trigger] trace[i])
    &&& forall|i: int| 0 <= i < trace.len() - 1 ==> #[trigger] trace[i].after == trace[i + 1].before
}

pub open spec fn count_started(trace: Seq<PollRecord>) -> nat
    decreases trace.len(),
{
    if trace.len() == 0 {
        0
    } else {
        count_started(trace.drop_last()) + if trace.last().started {
            1nat
        } else {
            0nat
        }
    }
}

proof fn lemma_not_initial_stays(trace: Seq<PollRecord>, i: int, j: int)
    requires
        valid_trace(trace),
        0 <= i <= j < trace.len(),
        trace[i].before != NodeState::Initial,
    ensures
        trace[j].after != NodeState::Initial,
        trace[j].before != NodeState::Initial,
    decreases j - i,
{
    assert(record_ok(trace[i]));
    if i < j {
        lemma_not_initial_stays(trace, i, j - 1);
        assert(trace[j - 1].after == trace[j].before);
        assert(record_ok(trace[j]));
    }
}

proof fn lemma_valid_drop_last(trace: Seq<PollRecord>)
    requires
        valid_trace(trace),
        trace.len() > 0,
    ensures
        valid_trace(trace.drop_last()),
{
    let init = trace.drop_last();
    assert forall|i: int| 0 <= i < init.len() implies record_ok(#[trigger] init[i]) by {
        assert(init[i] == trace[i]);
    }
    assert forall|i: int| 0 <= i < init.len() - 1 implies #[trigger] init[i].after
        == init[i + 1].before by {
        assert(init[i] == trace[i]);
        assert(init[i + 1] == trace[i + 1]);
    }
}

proof fn lemma_no_second_start(trace: Seq<PollRecord>, k: int)
    requires
        valid_trace(trace),
        0 <= k < trace.len() - 1,
        trace[k].started,
    ensures
        !trace[trace.len() - 1].started,
{
    assert(record_ok(trace[k]));
    assert(trace[k].after == trace[k + 1].before);
    lemma_not_initial_stays(trace, k + 1, trace.len() - 1);
    assert(record_ok(trace[trace.len() - 1]));
}

/// However many futures poll one node, and in whatever order, the source is
/// asked for the node's segment at most once.
pub proof fn law_source_started_at_most_once(trace: Seq<PollRecord>)
    requires
        valid_trace(trace),
    ensures
        count_started(trace) <= 1,
    decreases trace.len(),
{
    if trace.len() > 0 {
        let init = trace.drop_last();
        lemma_valid_drop_last(trace);
        law_source_started_at_most_once(init);
        if trace.last().started && count_started(init) == 1 {
            let k = lemma_find_started(init);
            assert(init[k] == trace[k]);
            lemma_no_second_start(trace, k);
        }
    }
}

proof fn lemma_some_start(trace: Seq<PollRecord>)
    requires
        valid_trace(trace),
        trace.len() > 0,
        trace[0].before == NodeState::Initial,
        trace.last().after != NodeState::Initial,
    ensures
        count_started(trace) >= 1,
    decreases trace.len(),
{
    let n = trace.len() - 1;
    assert(record_ok(trace[n]));
    if trace[n].before != NodeState::Initial {
        let init = trace.drop_last();
        assert(n > 0);
        assert(trace[n - 1].after == trace[n].before);
        lemma_valid_drop_last(trace);
        assert(init[0] == trace[0]);
        assert(init.last() == trace[n - 1]);
        lemma_some_start(init);
    }
}

/// Polls on an untouched node that leave it initialised started the source
/// exactly once: the segment is asked for once, whoever polls.
pub proof fn law_source_started_exactly_once(trace: Seq<PollRecord>)
    requires
        valid_trace(trace),
        trace.len() > 0,
        trace[0].before == NodeState::Initial,
        initialized(trace.last().after),
    ensures
        count_started(trace) == 1,
{
    law_source_started_at_most_once(trace);
    lemma_some_start(trace);
}

proof fn lemma_find_started(trace: Seq<PollRecord>) -> (k: int)
    requires
        count_started(trace) > 0,
    ensures
        0 <= k < trace.len(),
        trace[k].started,
    decreases trace.len(),
{
    if trace.last().started {
        trace.len() - 1
    } else {
        let k = lemma_find_started(trace.drop_last());
        k
    }
}

} // verus!
