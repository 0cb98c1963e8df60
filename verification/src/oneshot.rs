use vstd::prelude::*;

verus! {

/// State of the slot that a one-shot sender and receiver share.
#[derive(Debug, Clone, Copy, PartialEq, Eq)]
pub enum SlotState {
    /// Both sides alive, nothing sent, the receiver not waiting.
    Initial,
    /// Both sides alive, nothing sent, the receiver parked waiting.
    Waiting,
    /// The sender sent a message and is gone; the receiver has not taken it.
    Ready,
    /// The sender is gone without sending.
    SenderDroppedBeforeSend,
    /// The receiver is gone without receiving.
    ReceiverDroppedBeforeRecv,
    /// Both sides are gone; the slot is freed.
    Dead,
}

#[derive(Debug, Clone, Copy, PartialEq, Eq)]
pub enum RecvError {
    SenderDropped,
}

/// What the receiver got from one attempt.
pub enum RecvStep<T> {
    /// The message.
    Received(T),
    /// The sender is gone without sending.
    Disconnected,
    /// Nothing yet: park (blocking receive) or report not ready (`try_recv`).
    NotReady,
}

/// The slot of a one-shot channel, with the side effects of each operation
/// made explicit: `unpark` wakes the parked receiver, `freed` releases the slot.
pub struct Slot<T> {
    state: SlotState,
    message: Option<T>,
}

/// Side effects of an operation on the slot.
#[derive(Debug, Clone, Copy, PartialEq, Eq)]
pub struct Effects {
    pub unpark: bool,
    pub freed: bool,
}

/// The sender has not yet sent or been dropped.
pub open spec fn sender_alive(s: SlotState) -> bool {
    s == SlotState::Initial || s == SlotState::Waiting || s == SlotState::ReceiverDroppedBeforeRecv
}

/// The receiver has not yet received or been dropped.
pub open spec fn receiver_alive(s: SlotState) -> bool {
    s == SlotState::Initial || s == SlotState::Waiting || s == SlotState::Ready || s
        == SlotState::SenderDroppedBeforeSend
}

impl<T> Slot<T> {
    pub closed spec fn state(&self) -> SlotState {
        self.state
    }

    pub closed spec fn message(&self) -> Option<T> {
        self.message
    }

    /// A message is held exactly while the slot is ready.
    pub open spec fn wf(&self) -> bool {
        (self.state() == SlotState::Ready) == (self.message() is Some)
    }

    /// A new channel: both sides alive, nothing sent.
    pub fn new() -> (r: Self)
        ensures
            r.wf(),
            r.state() == SlotState::Initial,
    {
        Self { state: SlotState::Initial, message: None }
    }

    /// Sends `value`. The message is stored for the receiver, waking it if it
    /// is parked; if the receiver is gone, the value comes back and the slot
    /// is freed.
    pub fn send(&mut self, value: T) -> (r: (Result<(), T>, Effects))
        requires
            old(self).wf(),
            sender_alive(old(self).state()),
        ensures
            final(self).wf(),
            (final(self).state(), r.1.freed) == slot_step(old(self).state(), SlotOp::Send),
            old(self).state() == SlotState::Initial ==> final(self).state() == SlotState::Ready
                && final(self).message() == Some(value) && r == (Ok::<(), T>(()), Effects {
                unpark: false,
                freed: false,
            }),
            old(self).state() == SlotState::Waiting ==> final(self).state() == SlotState::Ready
                && final(self).message() == Some(value) && r == (Ok::<(), T>(()), Effects {
                unpark: true,
                freed: false,
            }),
            old(self).state() == SlotState::ReceiverDroppedBeforeRecv ==> final(self).state()
                == SlotState::Dead && r == (Err::<(), T>(value), Effects {
                unpark: false,
                freed: true,
            }),
    {
        match self.state {
            SlotState::Initial => {
                self.message = Some(value);
                self.state = SlotState::Ready;
                (Ok(()), Effects { unpark: false, freed: false })
            },
            SlotState::Waiting => {
                self.message = Some(value);
                self.state = SlotState::Ready;
                (Ok(()), Effects { unpark: true, freed: false })
            },
            _ => {
                self.state = SlotState::Dead;
                (Err(value), Effects { unpark: false, freed: true })
            },
        }
    }

    /// The sender goes away without sending.
    pub fn drop_sender(&mut self) -> (e: Effects)
        requires
            old(self).wf(),
            sender_alive(old(self).state()),
        ensures
            final(self).wf(),
            (final(self).state(), e.freed) == slot_step(old(self).state(), SlotOp::DropSender),
            old(self).state() == SlotState::Initial ==> final(self).state()
                == SlotState::SenderDroppedBeforeSend && e == (Effects {
                unpark: false,
                freed: false,
            }),
            old(self).state() == SlotState::Waiting ==> final(self).state()
                == SlotState::SenderDroppedBeforeSend && e == (Effects {
                unpark: true,
                freed: false,
            }),
            old(self).state() == SlotState::ReceiverDroppedBeforeRecv ==> final(self).state()
                == SlotState::Dead && e == (Effects { unpark: false, freed: true }),
    {
        match self.state {
            SlotState::Initial => {
                self.state = SlotState::SenderDroppedBeforeSend;
                Effects { unpark: false, freed: false }
            },
            SlotState::Waiting => {
                self.state = SlotState::SenderDroppedBeforeSend;
                Effects { unpark: true, freed: false }
            },
            _ => {
                self.state = SlotState::Dead;
                Effects { unpark: false, freed: true }
            },
        }
    }

    /// One attempt of the receiver. A blocking receive (`park`) registers as
    /// waiting when nothing is there; `try_recv` leaves the state as it is.
    pub fn recv_step(&mut self, park: bool) -> (r: (RecvStep<T>, Effects))
        requires
            old(self).wf(),
            receiver_alive(old(self).state()),
        ensures
            final(self).wf(),
            (final(self).state(), r.1.freed) == slot_step(old(self).state(), SlotOp::Recv { park }),
            r.1.unpark == false,
            old(self).state() == SlotState::Ready ==> final(self).state() == SlotState::Dead && r.1.freed
                && r.0 == RecvStep::Received(old(self).message().unwrap()),
            old(self).state() == SlotState::SenderDroppedBeforeSend ==> final(self).state()
                == SlotState::Dead && r.1.freed && r.0 is Disconnected,
            (old(self).state() == SlotState::Initial || old(self).state() == SlotState::Waiting)
                ==> r.0 is NotReady && !r.1.freed && final(self).state() == if park {
                SlotState::Waiting
            } else {
                old(self).state()
            },
    {
        match self.state {
            SlotState::Ready => {
                let mut m = None;
                std::mem::swap(&mut self.message, &mut m);
                self.state = SlotState::Dead;
                match m {
                    Some(v) => (RecvStep::Received(v), Effects { unpark: false, freed: true }),
                    None => (RecvStep::Disconnected, Effects { unpark: false, freed: true }),
                }
            },
            SlotState::SenderDroppedBeforeSend => {
                self.state = SlotState::Dead;
                (RecvStep::Disconnected, Effects { unpark: false, freed: true })
            },
            _ => {
                if park {
                    self.state = SlotState::Waiting;
                }
                (RecvStep::NotReady, Effects { unpark: false, freed: false })
            },
        }
    }

    /// The receiver goes away (not while parked): an unreceived message is
    /// dropped, and the slot is freed if the sender is gone too.
    pub fn drop_receiver(&mut self) -> (e: Effects)
        requires
            old(self).wf(),
            receiver_alive(old(self).state()),
            old(self).state() != SlotState::Waiting,
        ensures
            final(self).wf(),
            (final(self).state(), e.freed) == slot_step(old(self).state(), SlotOp::DropReceiver),
            !e.unpark,
            old(self).state() == SlotState::Initial ==> final(self).state()
                == SlotState::ReceiverDroppedBeforeRecv && !e.freed,
            old(self).state() != SlotState::Initial ==> final(self).state() == SlotState::Dead
                && e.freed,
    {
        match self.state {
            SlotState::Initial => {
                self.state = SlotState::ReceiverDroppedBeforeRecv;
                Effects { unpark: false, freed: false }
            },
            _ => {
                self.message = None;
                self.state = SlotState::Dead;
                Effects { unpark: false, freed: true }
            },
        }
    }
}

/// An operation of one side of the channel.
#[derive(Debug, Clone, Copy, PartialEq, Eq)]
pub enum SlotOp {
    Send,
    DropSender,
    Recv { park: bool },
    DropReceiver,
}

/// Whether a side may perform `op` in state `s` (each side acts only while
/// alive, and a parked receiver is not dropped).
pub open spec fn op_allowed(s: SlotState, op: SlotOp) -> bool {
    match op {
        SlotOp::Send | SlotOp::DropSender => sender_alive(s),
        SlotOp::Recv { .. } => receiver_alive(s),
        SlotOp::DropReceiver => receiver_alive(s) && s != SlotState::Waiting,
    }
}

/// The state after `op`, and whether `op` freed the slot, as the operations
/// of `Slot` do.
pub open spec fn slot_step(s: SlotState, op: SlotOp) -> (SlotState, bool) {
    match op {
        SlotOp::Send => match s {
            SlotState::Initial | SlotState::Waiting => (SlotState::Ready, false),
            _ => (SlotState::Dead, true),
        },
        SlotOp::DropSender => match s {
            SlotState::Initial | SlotState::Waiting => (SlotState::SenderDroppedBeforeSend, false),
            _ => (SlotState::Dead, true),
        },
        SlotOp::Recv { park } => match s {
            SlotState::Ready | SlotState::SenderDroppedBeforeSend => (SlotState::Dead, true),
            _ => (if park { SlotState::Waiting } else { s }, false),
        },
        SlotOp::DropReceiver => match s {
            SlotState::Initial => (SlotState::ReceiverDroppedBeforeRecv, false),
            _ => (SlotState::Dead, true),
        },
    }
}

/// Runs the operations from `s`: the final state and how often the slot was
/// freed.
pub open spec fn run(s: SlotState, ops: Seq<SlotOp>) -> (SlotState, nat)
    decreases ops.len(),
{
    if ops.len() == 0 {
        (s, 0)
    } else {
        let (mid, n) = run(s, ops.drop_last());
        let (last, freed) = slot_step(mid, ops.last());
        (last, n + if freed { 1nat } else { 0nat })
    }
}

/// Every operation is performed by a side that may perform it.
pub open spec fn run_allowed(s: SlotState, ops: Seq<SlotOp>) -> bool
    decreases ops.len(),
{
    if ops.len() == 0 {
        true
    } else {
        run_allowed(s, ops.drop_last()) && op_allowed(run(s, ops.drop_last()).0, ops.last())
    }
}

/// However the two sides interleave their operations on a new channel, the
/// slot is freed at most once, and it is freed exactly when both sides have
/// finished.
pub proof fn law_slot_freed_once(ops: Seq<SlotOp>)
    requires
        run_allowed(SlotState::Initial, ops),
    ensures
        run(SlotState::Initial, ops).1 == if run(SlotState::Initial, ops).0 == SlotState::Dead {
            1nat
        } else {
            0nat
        },
        (run(SlotState::Initial, ops).0 == SlotState::Dead) <==> (!sender_alive(
            run(SlotState::Initial, ops).0,
        ) && !receiver_alive(run(SlotState::Initial, ops).0)),
    decreases ops.len(),
{
    if ops.len() > 0 {
        law_slot_freed_once(ops.drop_last());
    }
}

} // verus!
