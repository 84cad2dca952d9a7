use vstd::prelude::*;

verus! {

/// Decides which end of the wait queue a newly-arriving task joins.
///
/// Permits are always handed out from the front, so an order that enqueues at the
/// front behaves LIFO and one that enqueues at the back behaves FIFO. Implement
/// this trait to provide a custom policy (e.g. a randomized one owning its own RNG).
pub trait Order: Sized {
    /// Should a newly-arriving waiter join at the front (LIFO end) rather than the
    /// back (FIFO end), given how many tasks are already waiting?
    ///
    /// Takes `&mut self` so stateful policies can advance their state per decision.
    fn enqueue_front(&mut self, queued: usize) -> (front: bool)
        ensures
            old(self).predicts(queued) matches Some(b) ==> front == b && *final(self) == *old(self),
            old(self).answers(queued, *final(self), front),
    ;

    /// What [`enqueue_front`](Order::enqueue_front) may do: from this policy,
    /// with `queued` waiting tasks, answer `front` and leave the policy `after`.
    /// A policy that keeps state (e.g. a seeded generator) can state its steps
    /// here; by default nothing is known of it.
    open spec fn answers(&self, queued: usize, after: Self, front: bool) -> bool {
        true
    }

    /// What [`enqueue_front`](Order::enqueue_front) answers for `queued` waiting
    /// tasks, where that is fixed by the policy (and the policy then keeps no
    /// state); `None` where it is not (e.g. a randomized policy).
    open spec fn predicts(&self, queued: usize) -> Option<bool> {
        None
    }
}

/// The default ordering: strict first-in-first-out or last-in-first-out.
#[derive(Debug, Clone, Copy, PartialEq, Eq, Structural)]
pub enum FairOrder {
    /// Last in, first out. Increases tail latencies, but can degrade better under
    /// contention.
    Lifo,
    /// First in, first out. Fairer and predictable, but can cause cascading
    /// failures if queue processing is slow.
    Fifo,
}

impl FairOrder {
    /// Whether this is the last-in-first-out order.
    pub fn is_lifo(&self) -> (b: bool)
        ensures
            b == (*self is Lifo),
    {
        match self {
            FairOrder::Lifo => true,
            FairOrder::Fifo => false,
        }
    }
}

impl Order for FairOrder {
    open spec fn predicts(&self, queued: usize) -> Option<bool> {
        Some(*self is Lifo)
    }

    open spec fn answers(&self, queued: usize, after: Self, front: bool) -> bool {
        after == *self && front == (*self is Lifo)
    }

    fn enqueue_front(&mut self, queued: usize) -> (front: bool)
        ensures
            front == (*old(self) is Lifo),
            *final(self) == *old(self),
    {
        self.is_lifo()
    }
}

/// A size-gated blend of FIFO and LIFO: behaves as FIFO while at most `lifo_above`
/// tasks are waiting, and switches to LIFO once the queue grows beyond that.
///
/// This keeps FIFO's predictability under light load while degrading like LIFO
/// under contention. Note that under sustained overload the FIFO backlog can be
/// starved — this gives up FIFO's no-starvation guarantee.
#[derive(Debug, Clone, Copy, PartialEq, Eq, Structural)]
pub struct Hybrid {
    /// The queue length above which new waiters are enqueued LIFO.
    pub lifo_above: usize,
}

impl Order for Hybrid {
    open spec fn predicts(&self, queued: usize) -> Option<bool> {
        Some(queued > self.lifo_above)
    }

    open spec fn answers(&self, queued: usize, after: Self, front: bool) -> bool {
        after == *self && front == (queued > self.lifo_above)
    }

    fn enqueue_front(&mut self, queued: usize) -> (front: bool)
        ensures
            front == (queued > old(self).lifo_above),
            *final(self) == *old(self),
    {
        queued > self.lifo_above
    }
}

} // verus!
