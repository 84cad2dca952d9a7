use vstd::prelude::*;

use core::marker::PhantomData;

use crate::closeable::{Closeable, IsCloseable, Uncloseable};
use crate::order::{FairOrder, Hybrid, Order};
use crate::queue::SemaphoreQueue;
use crate::state::SemaphoreState;

verus! {

/// Chooses the ordering policy and the closeability of a new semaphore queue.
pub struct SemaphoreBuilder<C: IsCloseable = Uncloseable, O = FairOrder> {
    order: O,
    closeable: PhantomData<C>,
}

impl<C: IsCloseable, O> SemaphoreBuilder<C, O> {
    /// The ordering policy the queue will get.
    pub closed spec fn order(&self) -> O {
        self.order
    }
}

impl SemaphoreBuilder {
    /// A first-in-first-out, uncloseable semaphore.
    pub fn fifo() -> (b: Self)
        ensures
            b.order() == FairOrder::Fifo,
    {
        SemaphoreBuilder { order: FairOrder::Fifo, closeable: PhantomData }
    }

    /// A last-in-first-out, uncloseable semaphore.
    pub fn lifo() -> (b: Self)
        ensures
            b.order() == FairOrder::Lifo,
    {
        SemaphoreBuilder { order: FairOrder::Lifo, closeable: PhantomData }
    }
}

impl SemaphoreBuilder<Uncloseable, Hybrid> {
    /// An uncloseable semaphore that enqueues FIFO while at most `lifo_above`
    /// tasks wait, and LIFO once the queue grows beyond that.
    pub fn hybrid(lifo_above: usize) -> (b: Self)
        ensures
            b.order() == (Hybrid { lifo_above }),
    {
        SemaphoreBuilder { order: Hybrid { lifo_above }, closeable: PhantomData }
    }
}

impl<O: Order> SemaphoreBuilder<Uncloseable, O> {
    /// An uncloseable semaphore with a custom ordering policy.
    pub fn with_order(order: O) -> (b: Self)
        ensures
            b.order() == order,
    {
        SemaphoreBuilder { order, closeable: PhantomData }
    }
}

impl<O> SemaphoreBuilder<Uncloseable, O> {
    /// Make the semaphore closeable, keeping the ordering policy.
    pub fn closeable(self) -> (b: SemaphoreBuilder<Closeable, O>)
        ensures
            b.order() == self.order(),
    {
        SemaphoreBuilder { order: self.order, closeable: PhantomData }
    }
}

impl<C: IsCloseable, O> SemaphoreBuilder<C, O> {
    /// Build the semaphore queue over the given state: open, not poisoned, with
    /// nobody waiting.
    pub fn with_state<S: SemaphoreState, W>(self, state: S) -> (q: SemaphoreQueue<S, C, O, W>)
        ensures
            q.wf(),
            q.waiting().len() == 0,
            q.outcomes().len() == 0,
            !q.closed_flag(),
            !q.poisoned_flag(),
            q.ticket_counter() == 0,
            q.order() == self.order(),
            q.state() == state,
    {
        SemaphoreQueue::new(state, self.order)
    }
}

} // verus!
