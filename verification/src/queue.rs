//! The action queue: an unbounded, non-blocking FIFO intent channel with one
//! consumer, the orchestrator.
//!
//! The queue is a tokio unbounded mpsc channel. Both halves stay private in
//! [`ActionQueue`], so nothing can feed or drain the channel behind the
//! orchestrator's back; every movement of an action goes through the methods
//! below and is therefore visible in their contracts.

use vstd::prelude::*;

use crate::types::Action;

verus! {

#[verifier::external_type_specification]
#[verifier::external_body]
#[verifier::reject_recursive_types(T)]
pub struct ExUnboundedSender<T>(tokio::sync::mpsc::UnboundedSender<T>);

#[verifier::external_type_specification]
#[verifier::external_body]
#[verifier::reject_recursive_types(T)]
pub struct ExUnboundedReceiver<T>(tokio::sync::mpsc::UnboundedReceiver<T>);

/// The actions buffered in the queue's channel, oldest first.
pub uninterp spec fn queue_contents(q: ActionQueue) -> Seq<Action>;

/// The intent queue of one orchestrator run. Exactly one exists per run; its
/// producer side is exercised only through [`ActionQueue::send`].
pub struct ActionQueue {
    tx: tokio::sync::mpsc::UnboundedSender<Action>,
    rx: tokio::sync::mpsc::UnboundedReceiver<Action>,
}

impl ActionQueue {
    /// Relies on tokio::sync::mpsc::unbounded_channel: a fresh channel buffers
    /// no message.
    #[verifier::external_body]
    pub fn new() -> (q: ActionQueue)
        ensures
            queue_contents(q) == Seq::<Action>::empty(),
    {
        let (tx, rx) = tokio::sync::mpsc::unbounded_channel();
        ActionQueue { tx, rx }
    }

    /// Relies on tokio::sync::mpsc::UnboundedSender::send: without blocking it
    /// appends the message to the channel's buffer, and it can fail only when
    /// the receiving half is gone — this queue owns its receiving half, so the
    /// send always goes through.
    #[verifier::external_body]
    pub fn send(&mut self, action: Action)
        ensures
            queue_contents(*final(self)) == queue_contents(*old(self)).push(action),
    {
        let _ = self.tx.send(action);
    }

    /// Relies on tokio::sync::mpsc::UnboundedReceiver::try_recv: without
    /// blocking it pops the oldest buffered message, or reports the buffer
    /// empty. The sending half is alive in this queue, so emptiness is the
    /// only other outcome.
    #[verifier::external_body]
    pub fn try_recv(&mut self) -> (r: Option<Action>)
        ensures
            (match r {
                Option::Some(a) => queue_contents(*old(self)).len() > 0
                    && a == queue_contents(*old(self))[0]
                    && queue_contents(*final(self)) == queue_contents(*old(self)).drop_first(),
                Option::None => queue_contents(*old(self)).len() == 0
                    && queue_contents(*final(self)) == queue_contents(*old(self)),
            }),
    {
        self.rx.try_recv().ok()
    }
}

} // verus!
