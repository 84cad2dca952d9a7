use vstd::prelude::*;

use core::marker::PhantomData;
use std::collections::VecDeque;

use crate::closeable::{Closeable, IsCloseable, Uncloseable};
use crate::error::{AcquireError, TryAcquireError};
use crate::order::{FairOrder, Order};
use crate::state::SemaphoreState;

pub mod model;
pub mod laws;

use model::{
    Finished, Waiter, dead_of, live_of, wakers_of, grants, closings, enqueued, served, checked,
    queued_at, is_queued, finished_at, is_finished, tickets_below, tickets_distinct, ticket_bag,
    granted_through, tried, checked_from,
    lemma_take_step, lemma_served_keeps_tickets, lemma_remove_waiter_tickets,
    lemma_remove_outcome_tickets, lemma_update_waiter_tickets, lemma_join_tickets,
    lemma_close_keeps_tickets, lemma_unused_ticket, lemma_distinct_after_remove,
    lemma_distinct_after_insert, lemma_distinct_empty, lemma_gone_if_unused, lemma_last_use,
    lemma_waiter_to_outcome_tickets,
};
use laws::law_outcome_collected_once;

verus! {

/// Run `f` on `state`, and return what it returns.
fn run_on<S, T, F: FnOnce(&mut S) -> T>(state: &mut S, f: F) -> (r: T)
    requires
        forall|s: &mut S| call_requires(f, (s,)),
    ensures
        exists|s: &mut S|
            #![trigger call_ensures(f, (s,), r)]
            *s == *old(state) && *final(s) == *final(state) && call_ensures(f, (s,), r),
{
    f(state)
}

/// Run `f` on `state` and `params`, and return what it returns.
fn run_with<S, P, E, F: FnOnce(&mut S, &P) -> Option<E>>(state: &mut S, params: &P, f: F) -> (r:
    Option<E>)
    requires
        forall|s: &mut S, p: &P| call_requires(f, (s, p)),
    ensures
        exists|s: &mut S|
            #![trigger call_ensures(f, (s, params), r)]
            *s == *old(state) && *final(s) == *final(state) && call_ensures(f, (s, params), r),
{
    f(state, params)
}

/// How the first poll of a conditional acquisition reports the condition's
/// `answer`: giving up with its value, or queueing.
pub open spec fn while_answered<T, P, E>(answer: Option<E>, r: WhileStart<T, P, E>) -> bool {
    match answer {
        Some(e) => r == WhileStart::<T, P, E>::Gave(e),
        None => r is Queued,
    }
}

/// How a later poll of a queued conditional acquisition reports the condition's
/// `answer`: giving up with its value, or still waiting.
pub open spec fn poll_answered<T, E>(answer: Option<E>, r: WhilePoll<T, E>) -> bool {
    match answer {
        Some(e) => r == WhilePoll::<T, E>::Gave(e),
        None => r is Pending,
    }
}

/// The result of an acquisition attempt that doesn't itself touch the wait queue.
pub enum Outcome<T, P> {
    /// A permit was granted immediately.
    Acquired(T),
    /// The semaphore is closed.
    Closed(AcquireError<P>),
    /// The semaphore is poisoned.
    Poisoned(P),
    /// No permit available now; the caller should enqueue at the indicated end.
    Enqueue { front: bool, params: P },
}

/// What the first poll of an acquisition comes to.
pub enum Start<T, P> {
    /// A permit was granted immediately.
    Acquired(T),
    /// The semaphore is closed.
    Closed(AcquireError<P>),
    /// The semaphore is poisoned.
    Poisoned(P),
    /// The task now waits in the queue under `ticket`, at the front or the back.
    Queued { ticket: u64, front: bool },
}

/// What a later poll of a queued acquisition comes to.
pub enum WaiterPoll<T, P> {
    /// Still waiting.
    Pending,
    /// A permit was granted.
    Granted(T),
    /// The queue was closed while the task waited.
    Closed(AcquireError<P>),
    /// The queue was closed while the task's request was lost to a panic.
    ParamsLost,
    /// The queue knows no such ticket.
    Unknown,
}

/// What the first poll of a conditional acquisition comes to.
pub enum WhileStart<T, P, E> {
    /// A permit was granted immediately.
    Acquired(T),
    /// The semaphore is poisoned.
    Poisoned(P),
    /// The condition gave up with this value before the task queued.
    Gave(E),
    /// The task now waits in the queue under `ticket`.
    Queued(u64),
}

/// What a later poll of a queued conditional acquisition comes to.
pub enum WhilePoll<T, E> {
    /// Still waiting.
    Pending,
    /// A permit was granted.
    Granted(T),
    /// The condition gave up with this value; the task is still queued.
    Gave(E),
    /// The task's request was lost to a panic.
    ParamsLost,
    /// The queue knows no such ticket.
    Unknown,
}

/// How an acquisition is refused before it touches the state or the queue: a
/// poisoned queue refuses first, then a closed one.
pub open spec fn refusal<T, P>(poisoned: bool, closed: bool, params: P) -> Option<Outcome<T, P>> {
    if poisoned {
        Some(Outcome::Poisoned(params))
    } else if closed {
        Some(Outcome::Closed(AcquireError { params }))
    } else {
        None
    }
}

/// What a task collects from its outcome.
pub open spec fn collected<T, P>(outcome: Result<T, Option<P>>) -> WaiterPoll<T, P> {
    match outcome {
        Ok(permit) => WaiterPoll::Granted(permit),
        Err(Some(params)) => WaiterPoll::Closed(AcquireError { params }),
        Err(None) => WaiterPoll::ParamsLost,
    }
}

/// What `try_acquire` reports for an outcome.
pub open spec fn try_result<T, P>(o: Outcome<T, P>) -> Result<T, TryAcquireError<P>> {
    match o {
        Outcome::Acquired(permit) => Ok(permit),
        Outcome::Closed(e) => Err(TryAcquireError::Closed(e)),
        Outcome::Poisoned(params) => Err(TryAcquireError::Poisoned(params)),
        Outcome::Enqueue { params, .. } => Err(TryAcquireError::NoPermits(params)),
    }
}

/// The state's answer that the outcome `o` of a leader's attempt reports: the
/// permit it granted, or the params it handed back.
pub open spec fn leader_result<T, P>(o: Outcome<T, P>) -> Result<T, P> {
    match o {
        Outcome::Acquired(permit) => Ok(permit),
        Outcome::Enqueue { params, .. } => Err(params),
        Outcome::Closed(e) => Err(e.params),
        Outcome::Poisoned(params) => Err(params),
    }
}

/// What a new task's attempt, placed at the front (`front`) or the back of a queue
/// where `queued` tasks wait, comes to from the state `s0`: if it goes to the
/// front or nobody waits, it is the leader, its request is put to the state, and
/// the state's answer decides (a permit, or enqueueing with the params handed
/// back), leaving `s1`; otherwise the state is not asked and the task is told to
/// enqueue at the back.
pub open spec fn attempted<S: SemaphoreState>(
    s0: S,
    queued: nat,
    params: S::Params,
    front: bool,
    s1: S,
    o: Outcome<S::Permit, S::Params>,
) -> bool {
    if front || queued == 0 {
        &&& (o is Acquired || o == Outcome::<S::Permit, S::Params>::Enqueue { front, params })
        &&& s0.acquires(params, s1, leader_result(o))
    } else {
        &&& o == Outcome::<S::Permit, S::Params>::Enqueue { front, params }
        &&& s1 == s0
    }
}

/// How the first poll of an acquisition reports the outcome `o` of its attempt.
pub open spec fn started<T, P>(o: Outcome<T, P>, r: Start<T, P>) -> bool {
    match o {
        Outcome::Acquired(permit) => r == Start::<T, P>::Acquired(permit),
        Outcome::Enqueue { front, .. } => r is Queued && r->front == front,
        _ => false,
    }
}

/// What a new task's own attempt at the state comes to, where the order placed
/// it at the front (`front`) or the back: the permit, or the instruction to
/// enqueue at that end with the params the state handed back.
pub fn leader_outcome<T, P>(result: Result<T, P>, front: bool) -> (o: Outcome<T, P>)
    ensures
        o == match result {
            Ok(permit) => Outcome::<T, P>::Acquired(permit),
            Err(params) => Outcome::<T, P>::Enqueue { front, params },
        },
{
    match result {
        Ok(permit) => Outcome::Acquired(permit),
        Err(params) => Outcome::Enqueue { front, params },
    }
}

/// A queue that manages the acquisition of permits from a [`SemaphoreState`], or
/// queues tasks if no permits are available.
///
/// Tasks are identified by the ticket they get when they join the queue. The
/// queue does not wake anyone itself: every operation that may let waiters go
/// returns their wakers (of type `W`), in the order they should be woken.
pub struct SemaphoreQueue<S: SemaphoreState, C: IsCloseable, O = FairOrder, W = ()> {
    /// The waiting tasks, front first. Permits are handed out from the front.
    waiters: VecDeque<Waiter<S::Params, W>>,
    /// Tasks that left the queue and have not collected their outcome yet.
    finished: Vec<Finished<S::Permit, S::Params>>,
    /// Set once the queue is closed (only a `Closeable` queue can be).
    closed: bool,
    /// Set if a panic ever escaped user code (`SemaphoreState::acquire` or a
    /// `with_state` closure) while we held the state, which may have left `state`
    /// half-updated. Like `std::sync::Mutex`, we assume the worst until
    /// `clear_poison`.
    poisoned: bool,
    /// The ticket the next waiter gets.
    next_ticket: u64,
    /// The ordering policy.
    order: O,
    /// The user's semaphore state.
    state: S,
    closeable: PhantomData<C>,
}

impl<S: SemaphoreState, C: IsCloseable, O, W> SemaphoreQueue<S, C, O, W> {
    /// The waiting tasks, front first.
    pub closed spec fn waiting(&self) -> Seq<Waiter<S::Params, W>> {
        self.waiters@
    }

    /// The outcomes not yet collected by their tasks.
    pub closed spec fn outcomes(&self) -> Seq<Finished<S::Permit, S::Params>> {
        self.finished@
    }

    /// Whether the queue is closed.
    pub closed spec fn closed_flag(&self) -> bool {
        self.closed
    }

    /// Whether the queue is poisoned.
    pub closed spec fn poisoned_flag(&self) -> bool {
        self.poisoned
    }

    /// The ticket the next waiter gets.
    pub closed spec fn ticket_counter(&self) -> u64 {
        self.next_ticket
    }

    /// The ordering policy.
    pub closed spec fn order(&self) -> O {
        self.order
    }

    /// The semaphore state.
    pub closed spec fn state(&self) -> S {
        self.state
    }

    /// The queue is well formed: tickets in use were all handed out, and a closed
    /// queue is empty and closeable.
    pub closed spec fn wf(&self) -> bool {
        &&& tickets_below(self.waiters@, self.finished@, self.next_ticket)
        &&& tickets_distinct(self.waiters@, self.finished@)
        &&& self.closed ==> self.waiters@.len() == 0
        &&& self.closed ==> C::can_close()
        &&& !C::can_close() ==> forall|j: int|
            0 <= j < self.finished@.len() ==> (#[trigger] self.finished@[j]).outcome is Ok
    }

    /// `self` and `other` agree on everything but the waiting tasks, the outcomes
    /// and the semaphore state.
    pub open spec fn same_setup(&self, other: Self) -> bool {
        &&& self.closed_flag() == other.closed_flag()
        &&& self.poisoned_flag() == other.poisoned_flag()
        &&& self.ticket_counter() == other.ticket_counter()
        &&& self.order() == other.order()
    }

    /// Construct a new semaphore queue, with the given [`SemaphoreState`] and [`Order`].
    pub fn new(state: S, order: O) -> (q: Self)
        ensures
            q.wf(),
            q.waiting() == Seq::<Waiter<S::Params, W>>::empty(),
            q.outcomes() == Seq::<Finished<S::Permit, S::Params>>::empty(),
            !q.closed_flag(),
            !q.poisoned_flag(),
            q.ticket_counter() == 0,
            q.order() == order,
            q.state() == state,
    {
        proof {
            lemma_distinct_empty::<S::Permit, S::Params, W>();
        }
        SemaphoreQueue {
            waiters: VecDeque::new(),
            finished: Vec::new(),
            closed: false,
            poisoned: false,
            next_ticket: 0,
            order,
            state,
            closeable: PhantomData,
        }
    }

    /// Serve the waiters from the front: while the front-most waiter holding a
    /// request can acquire a permit, it leaves the queue with it. Waiters whose
    /// request was lost are skipped (they stay queued). Stops at the first waiter
    /// whose request fails, which stays queued with its params.
    ///
    /// Does nothing on a poisoned or closed queue. Returns the wakers of the
    /// served waiters, in the order they were served.
    pub fn check(&mut self) -> (woken: Vec<W>)
        requires
            old(self).wf(),
        ensures
            final(self).wf(),
            final(self).same_setup(*old(self)),
            old(self).poisoned_flag() || old(self).closed_flag() ==> final(self).state()
                == old(self).state(),
            ticket_bag(final(self).waiting(), final(self).outcomes()) == ticket_bag(
                old(self).waiting(),
                old(self).outcomes(),
            ),
            checked(
                old(self).poisoned_flag(),
                old(self).closed_flag(),
                old(self).waiting(),
                old(self).outcomes(),
                final(self).waiting(),
                final(self).outcomes(),
                woken@,
            ),
            checked_from(
                old(self).poisoned_flag(),
                old(self).closed_flag(),
                old(self).state(),
                old(self).waiting(),
                old(self).outcomes(),
                final(self).state(),
                final(self).waiting(),
                final(self).outcomes(),
                woken@,
            ),
    {
        let mut woken: Vec<W> = Vec::new();
        if self.poisoned || self.closed {
            return woken;
        }
        let ghost mut trace: Seq<S> = seq![self.state];
        let ghost before = self.waiters@;
        let ghost done_before = self.finished@;
        let ghost start = *self;
        let ghost mut n: int = 0;
        let mut i: usize = 0;
        assert(before.take(0) =~= Seq::<Waiter<S::Params, W>>::empty());
        assert(self.waiters@ =~= dead_of(before.take(0)) + before.skip(0));
        assert(self.finished@.skip(done_before.len() as int) =~= Seq::<
            Finished<S::Permit, S::Params>,
        >::empty());
        assert(woken@ =~= wakers_of(live_of(before.take(0))));
        while i < self.waiters.len()
            invariant_except_break
                0 <= n <= before.len(),
                i == dead_of(before.take(n)).len(),
                self.waiters@ == dead_of(before.take(n)) + before.skip(n),
                self.finished@.len() == done_before.len() + live_of(before.take(n)).len(),
                self.finished@.take(done_before.len() as int) == done_before,
                grants(self.finished@.skip(done_before.len() as int), live_of(before.take(n))),
                woken@ == wakers_of(live_of(before.take(n))),
                self.wf(),
                !self.poisoned,
                !self.closed,
                self.same_setup(start),
                trace.len() > 0,
                trace[0] == start.state,
                trace.last() == self.state,
                granted_through(
                    trace,
                    live_of(before.take(n)),
                    self.finished@.skip(done_before.len() as int),
                ),
            ensures
                served(before, done_before, self.waiters@, self.finished@, woken@, n),
                self.wf(),
                !self.closed,
                self.same_setup(start),
                tried(
                    start.state,
                    trace,
                    self.state,
                    before,
                    n,
                    self.finished@.skip(done_before.len() as int),
                ),
            decreases before.len() - n,
        {
            assert(self.waiters@[i as int] == before[n]);
            if self.waiters[i].params.is_none() {
                proof {
                    lemma_take_step(before, n);
                    assert(dead_of(before.take(n + 1)) + before.skip(n + 1) =~= dead_of(
                        before.take(n),
                    ) + before.skip(n));
                    n = n + 1;
                }
                i = i + 1;
            } else {
                let params = self.take_params(i);
                // A panic in `acquire` loses `params` and may leave `state`
                // half-updated: the poison flag stays set if it unwinds.
                self.poisoned = true;
                let result = self.state.acquire(params);
                self.poisoned = false;
                let ghost fs = self.finished@;
                let ghost tr = trace;
                match self.settle_leader(i, result) {
                    Some(waker) => {
                        woken.push(waker);
                        proof {
                            trace = trace.push(self.state);
                            lemma_take_step(before, n);
                            assert(self.waiters@ =~= dead_of(before.take(n + 1)) + before.skip(
                                n + 1,
                            ));
                            assert(self.finished@.take(done_before.len() as int) =~= fs.take(
                                done_before.len() as int,
                            ));
                            assert(self.finished@.skip(done_before.len() as int) =~= fs.skip(
                                done_before.len() as int,
                            ).push(self.finished@.last()));
                            assert(woken@ =~= wakers_of(live_of(before.take(n + 1))));
                            let live = live_of(before.take(n));
                            let gs = self.finished@.skip(done_before.len() as int);
                            assert(live_of(before.take(n + 1)) == live.push(before[n]));
                            assert forall|k: int|
                                #![trigger live_of(before.take(n + 1))[k]]
                                0 <= k < live.len() + 1 implies trace[k].acquires(
                                live_of(before.take(n + 1))[k].params->0,
                                trace[k + 1],
                                Ok::<S::Permit, S::Params>(gs[k].outcome->Ok_0),
                            ) by {
                                if k < live.len() {
                                    assert(live_of(before.take(n + 1))[k] == live[k]);
                                    assert(gs[k] == fs.skip(done_before.len() as int)[k]);
                                    assert(trace[k] == tr[k]);
                                    assert(trace[k + 1] == tr[k + 1]);
                                } else {
                                    assert(live_of(before.take(n + 1))[k] == before[n]);
                                    assert(gs[k] == self.finished@.last());
                                }
                            }
                            n = n + 1;
                        }
                    },
                    None => {
                        assert(self.waiters@ =~= dead_of(before.take(n)) + before.skip(n));
                        break;
                    },
                }
            }
        }
        proof {
            if n == before.len() {
                assert(before.skip(n) =~= Seq::<Waiter<S::Params, W>>::empty());
            }
            assert(served(before, done_before, self.waiters@, self.finished@, woken@, n));
            lemma_served_keeps_tickets(before, done_before, self.waiters@, self.finished@, woken@, n);
            assert(served(start.waiting(), start.outcomes(), self.waiting(), self.outcomes(), woken@, n));
            assert(tried(
                start.state(),
                trace,
                self.state(),
                start.waiting(),
                n,
                self.outcomes().skip(start.outcomes().len() as int),
            ));
        }
        woken
    }

    /// Take the params of the waiter at `i` out, to try them: the waiter stays
    /// queued without them meanwhile (so a panic while trying leaves it dead).
    pub fn take_params(&mut self, i: usize) -> (params: S::Params)
        requires
            old(self).wf(),
            i < old(self).waiting().len(),
            old(self).waiting()[i as int].params is Some,
        ensures
            final(self).wf(),
            final(self).same_setup(*old(self)),
            Some(params) == old(self).waiting()[i as int].params,
            final(self).waiting() == old(self).waiting().update(
                i as int,
                Waiter {
                    ticket: old(self).waiting()[i as int].ticket,
                    params: None,
                    waker: old(self).waiting()[i as int].waker,
                },
            ),
            final(self).outcomes() == old(self).outcomes(),
            final(self).state() == old(self).state(),
    {
        let Waiter { ticket, params, waker } = self.waiters.remove(i).unwrap();
        self.waiters.insert(i, Waiter { ticket, params: None, waker });
        proof {
            let w = Waiter { ticket, params: None, waker };
            assert(self.waiters@ =~= old(self).waiters@.update(i as int, w));
            lemma_update_waiter_tickets(old(self).waiters@, self.finished@, i as int, w);
        }
        params.unwrap()
    }

    /// Settle the waiter at `i` with the result of trying its params: with a
    /// permit it leaves the queue, which keeps the permit for it, and its waker is
    /// returned; otherwise it stays where it is, with the params it got back.
    pub fn settle_leader(&mut self, i: usize, result: Result<S::Permit, S::Params>) -> (woken:
        Option<W>)
        requires
            old(self).wf(),
            i < old(self).waiting().len(),
        ensures
            final(self).wf(),
            final(self).same_setup(*old(self)),
            final(self).state() == old(self).state(),
            match result {
                Ok(permit) => {
                    &&& woken == Some(old(self).waiting()[i as int].waker)
                    &&& final(self).waiting() == old(self).waiting().remove(i as int)
                    &&& final(self).outcomes() == old(self).outcomes().push(
                        Finished { ticket: old(self).waiting()[i as int].ticket, outcome: Ok(permit) },
                    )
                },
                Err(params) => {
                    &&& woken is None
                    &&& final(self).waiting() == old(self).waiting().update(
                        i as int,
                        Waiter {
                            ticket: old(self).waiting()[i as int].ticket,
                            params: Some(params),
                            waker: old(self).waiting()[i as int].waker,
                        },
                    )
                    &&& final(self).outcomes() == old(self).outcomes()
                },
            },
    {
        let Waiter { ticket, params: _lost, waker } = self.waiters.remove(i).unwrap();
        match result {
            Ok(permit) => {
                let done = Finished { ticket, outcome: Ok(permit) };
                proof {
                    lemma_waiter_to_outcome_tickets(old(self).waiters@, self.finished@, i as int, done);
                }
                self.finished.push(done);
                Some(waker)
            },
            Err(params) => {
                self.waiters.insert(i, Waiter { ticket, params: Some(params), waker });
                proof {
                    let w = Waiter { ticket, params: Some(params), waker };
                    assert(self.waiters@ =~= old(self).waiters@.update(i as int, w));
                    lemma_update_waiter_tickets(old(self).waiters@, self.finished@, i as int, w);
                }
                None
            },
        }
    }

    /// Check if the queue is closed.
    pub fn is_closed(&self) -> (b: bool)
        requires
            self.wf(),
        ensures
            b == self.closed_flag(),
    {
        C::closes() && self.closed
    }

    /// Whether a new waiter can still get a ticket (the ticket counter is not
    /// exhausted).
    pub fn can_enqueue(&self) -> (b: bool)
        ensures
            b == (self.ticket_counter() < u64::MAX),
    {
        self.next_ticket < u64::MAX
    }

    /// Check if the queue has been poisoned.
    ///
    /// A queue becomes poisoned if a panic unwinds out of [`SemaphoreState::acquire`]
    /// or a [`with_state`](Self::with_state) closure, which may have left the state
    /// half-updated. Poisoning persists until [`clear_poison`](Self::clear_poison).
    /// A poisoned queue stops granting permits; new acquire attempts surface the
    /// poison rather than build on a corrupt state.
    pub fn is_poisoned(&self) -> (b: bool)
        ensures
            b == self.poisoned_flag(),
    {
        self.poisoned
    }

    /// Clear the poison flag, letting the queue grant permits again.
    ///
    /// The caller is responsible for ensuring the state is consistent first (e.g.
    /// inspect/repair it with [`with_state`](Self::with_state)); this does not itself
    /// touch the state.
    ///
    /// A waiter whose request was lost to a panic can never complete; it is skipped
    /// until it is cancelled.
    pub fn clear_poison(&mut self)
        requires
            old(self).wf(),
        ensures
            final(self).wf(),
            !final(self).poisoned_flag(),
            final(self).closed_flag() == old(self).closed_flag(),
            final(self).ticket_counter() == old(self).ticket_counter(),
            final(self).order() == old(self).order(),
            final(self).waiting() == old(self).waiting(),
            final(self).outcomes() == old(self).outcomes(),
            final(self).state() == old(self).state(),
    {
        self.poisoned = false;
    }

    /// Access the state with mutable access, then serve any waiters that can now
    /// be served (see [`check`](Self::check)); returns what `f` returned and the
    /// wakers of the served waiters.
    ///
    /// This gives direct access to the state, be careful not to break any of your
    /// own state invariants. A panic in `f` poisons the queue.
    pub fn with_state<T, F: FnOnce(&mut S) -> T>(&mut self, f: F) -> (r: (T, Vec<W>))
        requires
            old(self).wf(),
            forall|s: &mut S| call_requires(f, (s,)),
        ensures
            final(self).wf(),
            final(self).same_setup(*old(self)),
            checked(
                old(self).poisoned_flag(),
                old(self).closed_flag(),
                old(self).waiting(),
                old(self).outcomes(),
                final(self).waiting(),
                final(self).outcomes(),
                r.1@,
            ),
            exists|s: &mut S|
                #![trigger call_ensures(f, (s,), r.0)]
                *s == old(self).state() && call_ensures(f, (s,), r.0) && checked_from(
                    old(self).poisoned_flag(),
                    old(self).closed_flag(),
                    *final(s),
                    old(self).waiting(),
                    old(self).outcomes(),
                    final(self).state(),
                    final(self).waiting(),
                    final(self).outcomes(),
                    r.1@,
                ),
    {
        // A panic in `f` may leave `state` half-updated: the poison flag stays set
        // if it unwinds.
        let was_poisoned = self.poisoned;
        self.poisoned = true;
        let res = run_on(&mut self.state, f);
        let ghost mid = self.state;
        self.poisoned = was_poisoned;
        let woken = self.check();
        proof {
            let s = choose|s: &mut S|
                #![trigger call_ensures(f, (s,), res)]
                *s == old(self).state() && *final(s) == mid && call_ensures(f, (s,), res);
            assert(checked_from(
                old(self).poisoned_flag(),
                old(self).closed_flag(),
                mid,
                old(self).waiting(),
                old(self).outcomes(),
                self.state(),
                self.waiting(),
                self.outcomes(),
                woken@,
            ));
            assert(*s == old(self).state() && call_ensures(f, (s,), (res, woken).0) && checked_from(
                old(self).poisoned_flag(),
                old(self).closed_flag(),
                *final(s),
                old(self).waiting(),
                old(self).outcomes(),
                self.state(),
                self.waiting(),
                self.outcomes(),
                (res, woken).1@,
            ));
        }
        (res, woken)
    }

    /// Attempt to acquire for a new task, where the order placed it at the front
    /// (`front`) or the back of the queue. It is the leader, and tries the state,
    /// if it goes to the front or nobody waits; otherwise, or if the state has no
    /// permit for it, it is told to enqueue at that end with its params.
    pub fn attempt(&mut self, params: S::Params, front: bool) -> (r: Outcome<S::Permit, S::Params>)
        requires
            old(self).wf(),
            !old(self).poisoned_flag(),
            !old(self).closed_flag(),
        ensures
            final(self).wf(),
            final(self).same_setup(*old(self)),
            final(self).waiting() == old(self).waiting(),
            final(self).outcomes() == old(self).outcomes(),
            !(front || old(self).waiting().len() == 0) ==> {
                &&& r == Outcome::<S::Permit, S::Params>::Enqueue { front, params }
                &&& final(self).state() == old(self).state()
            },
            front || old(self).waiting().len() == 0 ==> {
                ||| r is Acquired
                ||| r == Outcome::<S::Permit, S::Params>::Enqueue { front, params }
            },
            attempted(
                old(self).state(),
                old(self).waiting().len(),
                params,
                front,
                final(self).state(),
                r,
            ),
    {
        if !(front || self.waiters.len() == 0) {
            return Outcome::Enqueue { front, params };
        }
        // We're the leader. A panic in `acquire` may leave `state` half-updated,
        // so the poison flag stays set if it unwinds.
        self.poisoned = true;
        let result = self.state.acquire(params);
        self.poisoned = false;
        leader_outcome(result, front)
    }

    /// Put a new waiter at the front or the back of the queue, under a new ticket.
    fn join(&mut self, params: S::Params, front: bool, waker: W) -> (ticket: u64)
        requires
            old(self).wf(),
            !old(self).closed_flag(),
            old(self).ticket_counter() < u64::MAX,
        ensures
            final(self).wf(),
            ticket == old(self).ticket_counter(),
            final(self).ticket_counter() == old(self).ticket_counter() + 1,
            final(self).waiting() == enqueued(
                old(self).waiting(),
                Waiter { ticket, params: Some(params), waker },
                front,
            ),
            final(self).outcomes() == old(self).outcomes(),
            final(self).closed_flag() == old(self).closed_flag(),
            final(self).poisoned_flag() == old(self).poisoned_flag(),
            final(self).order() == old(self).order(),
            final(self).state() == old(self).state(),
    {
        let ticket = self.next_ticket;
        proof {
            lemma_unused_ticket(self.waiters@, self.finished@, ticket);
        }
        self.next_ticket = self.next_ticket + 1;
        let waiter = Waiter { ticket, params: Some(params), waker };
        let ghost ws = self.waiters@;
        let ghost gw = waiter;
        proof {
            lemma_join_tickets(ws, self.finished@, gw, front);
            lemma_distinct_after_insert(
                ws,
                self.finished@,
                enqueued(ws, gw, front),
                self.finished@,
                ticket,
            );
        }
        if front {
            self.waiters.push_front(waiter);
        } else {
            self.waiters.push_back(waiter);
        }
        assert(self.waiters@ =~= enqueued(ws, gw, front));
        ticket
    }

    /// The ordering policy.
    pub fn get_order(&self) -> (o: &O)
        ensures
            *o == self.order(),
    {
        &self.order
    }

    /// Direct mutable access to the state, with no serving of waiters afterwards
    /// and no poisoning.
    pub fn state_mut(&mut self) -> (s: &mut S)
        ensures
            *s == old(self).state(),
            final(self).state() == *final(s),
            final(self).waiting() == old(self).waiting(),
            final(self).outcomes() == old(self).outcomes(),
            final(self).same_setup(*old(self)),
            final(self).wf() == old(self).wf(),
    {
        &mut self.state
    }

    /// Return a permit to the state, then serve any waiters that can now be
    /// served. This is what dropping a permit does.
    pub fn release(&mut self, permit: S::Permit) -> (woken: Vec<W>)
        requires
            old(self).wf(),
        ensures
            final(self).wf(),
            final(self).same_setup(*old(self)),
            checked(
                old(self).poisoned_flag(),
                old(self).closed_flag(),
                old(self).waiting(),
                old(self).outcomes(),
                final(self).waiting(),
                final(self).outcomes(),
                woken@,
            ),
            exists|mid: S|
                #![trigger old(self).state().releases(permit, mid)]
                old(self).state().releases(permit, mid) && checked_from(
                    old(self).poisoned_flag(),
                    old(self).closed_flag(),
                    mid,
                    old(self).waiting(),
                    old(self).outcomes(),
                    final(self).state(),
                    final(self).waiting(),
                    final(self).outcomes(),
                    woken@,
                ),
    {
        let was_poisoned = self.poisoned;
        self.poisoned = true;
        let ghost p = permit;
        self.state.release(permit);
        let ghost mid = self.state;
        self.poisoned = was_poisoned;
        let woken = self.check();
        assert(old(self).state().releases(p, mid));
        woken
    }

    /// A later poll of the task queued under `ticket`.
    ///
    /// While it is queued, its waker is replaced by `waker` (a spurious wakeup)
    /// and it keeps waiting. Once it left the queue, it collects its outcome,
    /// which the queue then forgets.
    pub fn poll_waiter(&mut self, ticket: u64, waker: W) -> (r: WaiterPoll<S::Permit, S::Params>)
        requires
            old(self).wf(),
        ensures
            final(self).wf(),
            final(self).same_setup(*old(self)),
            final(self).state() == old(self).state(),
            forall|i: int|
                #[trigger] queued_at(old(self).waiting(), ticket, i) ==> {
                    &&& r is Pending
                    &&& final(self).waiting() == old(self).waiting().update(
                        i,
                        Waiter { ticket, params: old(self).waiting()[i].params, waker },
                    )
                    &&& final(self).outcomes() == old(self).outcomes()
                },
            forall|j: int|
                !is_queued(old(self).waiting(), ticket) && #[trigger] finished_at(
                    old(self).outcomes(),
                    ticket,
                    j,
                ) ==> {
                    &&& r == collected(old(self).outcomes()[j].outcome)
                    &&& final(self).waiting() == old(self).waiting()
                    &&& final(self).outcomes() == old(self).outcomes().remove(j)
                },
            !is_queued(old(self).waiting(), ticket) && !is_finished(old(self).outcomes(), ticket)
                ==> {
                &&& r is Unknown
                &&& final(self).waiting() == old(self).waiting()
                &&& final(self).outcomes() == old(self).outcomes()
            },
            !(r is Pending) ==> !is_queued(final(self).waiting(), ticket) && !is_finished(
                final(self).outcomes(),
                ticket,
            ),
            r is Pending ==> exists|i: int|
                #[trigger] queued_at(final(self).waiting(), ticket, i) && final(self).waiting()[i].waker
                    == waker,
    {
        let i = self.find_waiting(ticket);
        if i < self.waiters.len() {
            let ghost t = ticket;
            let ghost w0 = waker;
            let Waiter { ticket, params, waker: _stale } = self.waiters.remove(i).unwrap();
            self.waiters.insert(i, Waiter { ticket, params, waker });
            assert(self.waiters@ =~= old(self).waiters@.update(
                i as int,
                Waiter { ticket, params, waker },
            ));
            assert(queued_at(self.waiters@, t, i as int)) by {
                assert forall|k: int| 0 <= k < i implies (#[trigger] self.waiters@[k]).ticket != t by {
                    assert(self.waiters@[k] == old(self).waiters@[k]);
                }
            }
            assert(queued_at(self.waiting(), t, i as int) && self.waiting()[i as int].waker == w0);
            proof {
                lemma_update_waiter_tickets(
                    old(self).waiters@,
                    self.finished@,
                    i as int,
                    Waiter { ticket, params, waker },
                );
            }
            return WaiterPoll::Pending;
        }
        let j = self.find_finished(ticket);
        if j < self.finished.len() {
            let done = self.finished.remove(j);
            proof {
                lemma_remove_outcome_tickets(self.waiters@, old(self).finished@, j as int);
                lemma_distinct_after_remove(
                    self.waiters@,
                    old(self).finished@,
                    self.waiters@,
                    self.finished@,
                    old(self).finished@[j as int].ticket,
                );
            }
            proof {
                law_outcome_collected_once(self.waiters@, old(self).finished@, ticket, j as int);
            }
            match done.outcome {
                Ok(permit) => WaiterPoll::Granted(permit),
                Err(Some(params)) => WaiterPoll::Closed(AcquireError::new(params)),
                Err(None) => WaiterPoll::ParamsLost,
            }
        } else {
            WaiterPoll::Unknown
        }
    }

    /// The task queued under `ticket` gives up (its future is dropped).
    ///
    /// If it is still queued it leaves the queue, and the waiters behind it are
    /// served if they can be now. If it was granted a permit it never collected,
    /// the permit is returned to the state and waiters are served. An uncollected
    /// closing outcome is forgotten.
    pub fn cancel_waiter(&mut self, ticket: u64) -> (woken: Vec<W>)
        requires
            old(self).wf(),
        ensures
            final(self).wf(),
            final(self).same_setup(*old(self)),
            forall|i: int|
                #[trigger] queued_at(old(self).waiting(), ticket, i) ==> checked(
                    old(self).poisoned_flag(),
                    old(self).closed_flag(),
                    old(self).waiting().remove(i),
                    old(self).outcomes(),
                    final(self).waiting(),
                    final(self).outcomes(),
                    woken@,
                ) && checked_from(
                    old(self).poisoned_flag(),
                    old(self).closed_flag(),
                    old(self).state(),
                    old(self).waiting().remove(i),
                    old(self).outcomes(),
                    final(self).state(),
                    final(self).waiting(),
                    final(self).outcomes(),
                    woken@,
                ),
            forall|j: int|
                !is_queued(old(self).waiting(), ticket) && #[trigger] finished_at(
                    old(self).outcomes(),
                    ticket,
                    j,
                ) ==> if old(self).outcomes()[j].outcome is Ok {
                    &&& checked(
                        old(self).poisoned_flag(),
                        old(self).closed_flag(),
                        old(self).waiting(),
                        old(self).outcomes().remove(j),
                        final(self).waiting(),
                        final(self).outcomes(),
                        woken@,
                    )
                    &&& exists|mid: S|
                        #![trigger old(self).state().releases(old(self).outcomes()[j].outcome->Ok_0, mid)]
                        old(self).state().releases(old(self).outcomes()[j].outcome->Ok_0, mid)
                            && checked_from(
                            old(self).poisoned_flag(),
                            old(self).closed_flag(),
                            mid,
                            old(self).waiting(),
                            old(self).outcomes().remove(j),
                            final(self).state(),
                            final(self).waiting(),
                            final(self).outcomes(),
                            woken@,
                        )
                } else {
                    &&& final(self).waiting() == old(self).waiting()
                    &&& final(self).outcomes() == old(self).outcomes().remove(j)
                    &&& final(self).state() == old(self).state()
                    &&& woken@ == Seq::<W>::empty()
                },
            !is_queued(old(self).waiting(), ticket) && !is_finished(old(self).outcomes(), ticket)
                ==> {
                &&& final(self).waiting() == old(self).waiting()
                &&& final(self).outcomes() == old(self).outcomes()
                &&& final(self).state() == old(self).state()
                &&& woken@ == Seq::<W>::empty()
            },
            !is_queued(final(self).waiting(), ticket) && !is_finished(final(self).outcomes(), ticket),
    {
        let i = self.find_waiting(ticket);
        if i < self.waiters.len() {
            let _gone = self.waiters.remove(i);
            proof {
                lemma_remove_waiter_tickets(old(self).waiters@, self.finished@, i as int);
                lemma_last_use(
                    old(self).waiters@,
                    old(self).finished@,
                    self.waiters@,
                    self.finished@,
                    ticket,
                );
            }
            // If it was a head-of-line blocker, the waiters behind it may now be
            // serviceable.
            let woken = self.check();
            proof {
                lemma_gone_if_unused(self.waiters@, self.finished@, ticket);
            }
            return woken;
        }
        let j = self.find_finished(ticket);
        if j < self.finished.len() {
            let done = self.finished.remove(j);
            proof {
                lemma_remove_outcome_tickets(self.waiters@, old(self).finished@, j as int);
                lemma_last_use(
                    old(self).waiters@,
                    old(self).finished@,
                    self.waiters@,
                    self.finished@,
                    ticket,
                );
            }
            let woken = match done.outcome {
                Ok(permit) => {
                    // Granted but never claimed: return it.
                    self.state.release(permit);
                    let ghost mid = self.state;
                    let woken = self.check();
                    assert(old(self).state().releases(old(self).outcomes()[j as int].outcome->Ok_0, mid));
                    woken
                },
                Err(_params) => Vec::new(),
            };
            proof {
                lemma_gone_if_unused(self.waiters@, self.finished@, ticket);
            }
            woken
        } else {
            Vec::new()
        }
    }

    /// Where `ticket` is first found among the waiting tasks (their number if it
    /// is not there).
    fn find_waiting(&self, ticket: u64) -> (i: usize)
        ensures
            i <= self.waiting().len(),
            i < self.waiting().len() ==> queued_at(self.waiting(), ticket, i as int),
            i == self.waiting().len() ==> !is_queued(self.waiting(), ticket),
    {
        let mut i: usize = 0;
        while i < self.waiters.len()
            invariant
                i <= self.waiters@.len(),
                forall|k: int| 0 <= k < i ==> (#[trigger] self.waiters@[k]).ticket != ticket,
            decreases self.waiters@.len() - i,
        {
            if self.waiters[i].ticket == ticket {
                return i;
            }
            i = i + 1;
        }
        i
    }

    /// Where `ticket` is first found among the uncollected outcomes (their number
    /// if it is not there).
    fn find_finished(&self, ticket: u64) -> (j: usize)
        ensures
            j <= self.outcomes().len(),
            j < self.outcomes().len() ==> finished_at(self.outcomes(), ticket, j as int),
            j == self.outcomes().len() ==> !is_finished(self.outcomes(), ticket),
    {
        let mut j: usize = 0;
        while j < self.finished.len()
            invariant
                j <= self.finished@.len(),
                forall|k: int| 0 <= k < j ==> (#[trigger] self.finished@[k]).ticket != ticket,
            decreases self.finished@.len() - j,
        {
            if self.finished[j].ticket == ticket {
                return j;
            }
            j = j + 1;
        }
        j
    }
}

impl<S: SemaphoreState, C: IsCloseable, O: Order, W> SemaphoreQueue<S, C, O, W> {
    /// Grant a permit if we may, otherwise report which end the caller should queue
    /// at. Consults the [`Order`] exactly once when `fair` (an unfair caller always
    /// goes to the front), so a stateful order draws once per acquisition.
    fn acquire_or_enqueue(&mut self, params: S::Params, fair: bool) -> (r: Outcome<
        S::Permit,
        S::Params,
    >)
        requires
            old(self).wf(),
        ensures
            final(self).wf(),
            final(self).closed_flag() == old(self).closed_flag(),
            final(self).poisoned_flag() == old(self).poisoned_flag(),
            final(self).ticket_counter() == old(self).ticket_counter(),
            final(self).waiting() == old(self).waiting(),
            final(self).outcomes() == old(self).outcomes(),
            refusal::<S::Permit, S::Params>(
                old(self).poisoned_flag(),
                old(self).closed_flag(),
                params,
            ) matches Some(o) ==> {
                &&& r == o
                &&& final(self).state() == old(self).state()
                &&& final(self).order() == old(self).order()
            },
            refusal::<S::Permit, S::Params>(
                old(self).poisoned_flag(),
                old(self).closed_flag(),
                params,
            ) is None ==> {
                &&& r is Acquired || r is Enqueue
                &&& r is Enqueue ==> r->params == params
                &&& !fair ==> (r is Enqueue ==> r->front) && final(self).order() == old(self).order()
                &&& fair ==> (old(self).order().predicts(old(self).waiting().len() as usize) matches Some(
                    b,
                ) ==> (r is Enqueue ==> r->front == b) && final(self).order() == old(self).order())
                &&& (r is Enqueue && !r->front && old(self).waiting().len() > 0) ==> final(self).state() == old(self).state()
                &&& fair && old(self).order().predicts(old(self).waiting().len() as usize) == Some(
                    false,
                ) && old(self).waiting().len() > 0 ==> {
                    &&& r == Outcome::<S::Permit, S::Params>::Enqueue { front: false, params }
                    &&& final(self).state() == old(self).state()
                }
                &&& fair ==> exists|front: bool|
                    #![trigger old(self).order().answers(old(self).waiting().len() as usize, final(self).order(), front)]
                    old(self).order().answers(
                        old(self).waiting().len() as usize,
                        final(self).order(),
                        front,
                    ) && attempted(
                        old(self).state(),
                        old(self).waiting().len(),
                        params,
                        front,
                        final(self).state(),
                        r,
                    )
                &&& !fair ==> attempted(
                    old(self).state(),
                    old(self).waiting().len(),
                    params,
                    true,
                    final(self).state(),
                    r,
                )
            },
    {
        if self.poisoned {
            return Outcome::Poisoned(params);
        }
        if self.closed {
            return Outcome::Closed(AcquireError::new(params));
        }
        // A single ordering decision: would we go to the front? Unfair callers
        // always try.
        let ghost order0 = self.order;
        let front = if fair {
            self.order.enqueue_front(self.waiters.len())
        } else {
            true
        };
        let r = self.attempt(params, front);
        proof {
            if fair {
                assert(old(self).order().answers(
                    old(self).waiting().len() as usize,
                    self.order(),
                    front,
                ));
                assert(attempted(
                    old(self).state(),
                    old(self).waiting().len(),
                    params,
                    front,
                    self.state(),
                    r,
                ));
            }
        }
        r
    }

    /// Try to acquire a permit without joining the queue.
    ///
    /// When `fair`, the queue's [`Order`] decides whether this caller may take a
    /// permit ahead of any waiters — it can if the order would place it at the
    /// front (e.g. LIFO), or if the queue is empty. When not `fair`, it always tries.
    pub fn try_acquire(&mut self, params: S::Params, fair: bool) -> (r: Result<
        S::Permit,
        TryAcquireError<S::Params>,
    >)
        requires
            old(self).wf(),
        ensures
            final(self).wf(),
            final(self).closed_flag() == old(self).closed_flag(),
            final(self).poisoned_flag() == old(self).poisoned_flag(),
            final(self).ticket_counter() == old(self).ticket_counter(),
            final(self).waiting() == old(self).waiting(),
            final(self).outcomes() == old(self).outcomes(),
            refusal::<S::Permit, S::Params>(
                old(self).poisoned_flag(),
                old(self).closed_flag(),
                params,
            ) matches Some(o) ==> {
                &&& r == try_result(o)
                &&& final(self).state() == old(self).state()
                &&& final(self).order() == old(self).order()
            },
            refusal::<S::Permit, S::Params>(
                old(self).poisoned_flag(),
                old(self).closed_flag(),
                params,
            ) is None ==> {
                &&& r is Ok || r == Err::<S::Permit, _>(TryAcquireError::NoPermits(params))
                &&& fair && old(self).order().predicts(old(self).waiting().len() as usize) == Some(
                    false,
                ) && old(self).waiting().len() > 0 ==> {
                    &&& r == Err::<S::Permit, _>(TryAcquireError::NoPermits(params))
                    &&& final(self).state() == old(self).state()
                }
                &&& exists|front: bool, o: Outcome<S::Permit, S::Params>|
                    #![trigger attempted(old(self).state(), old(self).waiting().len(), params, front, final(self).state(), o)]
                    (if fair {
                        old(self).order().answers(
                            old(self).waiting().len() as usize,
                            final(self).order(),
                            front,
                        )
                    } else {
                        front && final(self).order() == old(self).order()
                    }) && attempted(
                        old(self).state(),
                        old(self).waiting().len(),
                        params,
                        front,
                        final(self).state(),
                        o,
                    ) && r == try_result(o)
            },
    {
        let ghost s0 = self.state();
        let ghost queued = self.waiting().len();
        let o = self.acquire_or_enqueue(params, fair);
        let ghost go = o;
        let r = match o {
            Outcome::Acquired(permit) => Ok(permit),
            Outcome::Closed(err) => Err(TryAcquireError::Closed(err)),
            Outcome::Poisoned(params) => Err(TryAcquireError::Poisoned(params)),
            Outcome::Enqueue { params, .. } => Err(TryAcquireError::NoPermits(params)),
        };
        proof {
            if !old(self).poisoned_flag() && !old(self).closed_flag() {
                assert(r == try_result(go));
                if fair {
                    let front = choose|front: bool|
                        #![trigger old(self).order().answers(queued as usize, self.order(), front)]
                        old(self).order().answers(queued as usize, self.order(), front) && attempted(
                            s0,
                            queued,
                            params,
                            front,
                            self.state(),
                            go,
                        );
                    assert(attempted(s0, queued, params, front, self.state(), go));
                } else {
                    assert(attempted(s0, queued, params, true, self.state(), go));
                }
            }
        }
        r
    }

    /// The first poll of an acquisition: acquire a permit now, or join the queue
    /// under a new ticket with `waker`. The queue's [`Order`] decides which end a
    /// new waiter joins; permits are always handed out from the front.
    pub fn start_acquire(&mut self, params: S::Params, waker: W) -> (r: Start<S::Permit, S::Params>)
        requires
            old(self).wf(),
            old(self).ticket_counter() < u64::MAX,
        ensures
            final(self).wf(),
            final(self).closed_flag() == old(self).closed_flag(),
            final(self).poisoned_flag() == old(self).poisoned_flag(),
            final(self).outcomes() == old(self).outcomes(),
            old(self).poisoned_flag() ==> r == Start::<S::Permit, S::Params>::Poisoned(params),
            !old(self).poisoned_flag() && old(self).closed_flag() ==> r == Start::<
                S::Permit,
                S::Params,
            >::Closed(AcquireError { params }),
            old(self).poisoned_flag() || old(self).closed_flag() ==> {
                &&& final(self).waiting() == old(self).waiting()
                &&& final(self).state() == old(self).state()
                &&& final(self).order() == old(self).order()
                &&& final(self).ticket_counter() == old(self).ticket_counter()
            },
            !old(self).poisoned_flag() && !old(self).closed_flag() ==> {
                &&& r is Acquired || r is Queued
                &&& r is Acquired ==> final(self).waiting() == old(self).waiting()
                    && final(self).ticket_counter() == old(self).ticket_counter()
                &&& r is Queued ==> {
                    &&& r->ticket == old(self).ticket_counter()
                    &&& final(self).ticket_counter() == old(self).ticket_counter() + 1
                    &&& final(self).waiting() == enqueued(
                        old(self).waiting(),
                        Waiter { ticket: r->ticket, params: Some(params), waker },
                        r->front,
                    )
                }
                &&& old(self).order().predicts(old(self).waiting().len() as usize) matches Some(b)
                    ==> (r is Queued ==> r->front == b) && final(self).order() == old(self).order()
                &&& (r is Queued && !r->front && old(self).waiting().len() > 0) ==> final(self).state() == old(self).state()
                &&& old(self).order().predicts(old(self).waiting().len() as usize) == Some(false)
                    && old(self).waiting().len() > 0 ==> {
                    &&& r is Queued && !r->front
                    &&& final(self).state() == old(self).state()
                }
                &&& exists|front: bool, o: Outcome<S::Permit, S::Params>|
                    #![trigger attempted(old(self).state(), old(self).waiting().len(), params, front, final(self).state(), o)]
                    old(self).order().answers(
                        old(self).waiting().len() as usize,
                        final(self).order(),
                        front,
                    ) && attempted(
                        old(self).state(),
                        old(self).waiting().len(),
                        params,
                        front,
                        final(self).state(),
                        o,
                    ) && started(o, r)
            },
    {
        let ghost s0 = self.state();
        let ghost queued = self.waiting().len();
        let o = self.acquire_or_enqueue(params, true);
        let ghost go = o;
        let ghost order1 = self.order();
        let r = match o {
            Outcome::Acquired(permit) => Start::Acquired(permit),
            Outcome::Closed(err) => Start::Closed(err),
            Outcome::Poisoned(params) => Start::Poisoned(params),
            Outcome::Enqueue { front, params } => {
                let ticket = self.join(params, front, waker);
                Start::Queued { ticket, front }
            },
        };
        proof {
            if !old(self).poisoned_flag() && !old(self).closed_flag() {
                let front = choose|front: bool|
                    #![trigger old(self).order().answers(queued as usize, order1, front)]
                    old(self).order().answers(queued as usize, order1, front) && attempted(
                        s0,
                        queued,
                        params,
                        front,
                        self.state(),
                        go,
                    );
                assert(attempted(s0, queued, params, front, self.state(), go));
                assert(started(go, r));
            }
        }
        r
    }

}

impl<S: SemaphoreState, O, W> SemaphoreQueue<S, Closeable, O, W> {
    /// Close the semaphore queue.
    ///
    /// All tasks currently waiting to acquire a token will immediately stop: each
    /// leaves the queue with its params back, and their wakers are returned, front
    /// first. No new acquire attempts will succeed.
    pub fn close(&mut self) -> (woken: Vec<W>)
        requires
            old(self).wf(),
        ensures
            final(self).wf(),
            final(self).closed_flag(),
            final(self).waiting() == Seq::<Waiter<S::Params, W>>::empty(),
            final(self).poisoned_flag() == old(self).poisoned_flag(),
            final(self).ticket_counter() == old(self).ticket_counter(),
            final(self).order() == old(self).order(),
            final(self).state() == old(self).state(),
            final(self).outcomes() == old(self).outcomes() + closings(old(self).waiting()),
            woken@ == wakers_of(old(self).waiting()),
    {
        let ghost before = self.waiters@;
        let ghost done_before = self.finished@;
        let mut woken: Vec<W> = Vec::new();
        let ghost mut k: int = 0;
        assert(before.skip(0) =~= before);
        assert(closings::<S::Permit, S::Params, W>(before.take(0)) =~= Seq::empty());
        assert(wakers_of(before.take(0)) =~= Seq::<W>::empty());
        assert(done_before + closings::<S::Permit, S::Params, W>(before.take(0)) =~= done_before);
        while self.waiters.len() > 0
            invariant
                0 <= k <= before.len(),
                self.waiters@ == before.skip(k),
                self.finished@ == done_before + closings::<S::Permit, S::Params, W>(before.take(k)),
                woken@ == wakers_of(before.take(k)),
                tickets_below(before, done_before, self.next_ticket),
                tickets_below(self.waiters@, self.finished@, self.next_ticket),
                self.poisoned == old(self).poisoned,
                self.next_ticket == old(self).next_ticket,
                self.order == old(self).order,
                self.state == old(self).state,
                self.closed == old(self).closed,
            decreases self.waiters@.len(),
        {
            let waiter = self.waiters.pop_front().unwrap();
            let Waiter { ticket, params, waker } = waiter;
            self.finished.push(Finished { ticket, outcome: Err(params) });
            woken.push(waker);
            proof {
                assert(before.take(k + 1) =~= before.take(k).push(before[k]));
                assert(closings::<S::Permit, S::Params, W>(before.take(k + 1)) =~= closings::<
                    S::Permit,
                    S::Params,
                    W,
                >(before.take(k)).push(Finished { ticket, outcome: Err(params) }));
                assert(self.finished@ =~= done_before + closings::<S::Permit, S::Params, W>(
                    before.take(k + 1),
                ));
                assert(woken@ =~= wakers_of(before.take(k + 1)));
                assert(self.waiters@ =~= before.skip(k + 1));
                k = k + 1;
            }
        }
        // It's important that we only mark the queue as closed when we have ensured
        // that all waiters are removed.
        self.closed = true;
        assert(before.take(k) =~= before);
        proof {
            lemma_close_keeps_tickets(before, done_before);
            assert(self.waiters@ =~= Seq::<Waiter<S::Params, W>>::empty());
            assert forall|t: u64| #[trigger] ticket_bag(self.waiters@, self.finished@).count(t) <= 1 by {
                assert(ticket_bag(before, done_before).count(t) <= 1);
            }
        }
        woken
    }
}

impl<S: SemaphoreState, O, W> SemaphoreQueue<S, Uncloseable, O, W> {
    /// The first poll of a conditional acquisition (where the caller waits only
    /// while `f` lets it): acquire a permit now as a task joining at the front
    /// (`front`) or the back; failing that, ask `f`, which sees the state and the
    /// params and may give up with a value; otherwise join the queue at that end.
    pub fn start_acquire_while<E, F: FnOnce(&mut S, &S::Params) -> Option<E>>(
        &mut self,
        params: S::Params,
        front: bool,
        waker: W,
        f: F,
    ) -> (r: WhileStart<S::Permit, S::Params, E>)
        requires
            old(self).wf(),
            old(self).ticket_counter() < u64::MAX,
            forall|s: &mut S, p: &S::Params| call_requires(f, (s, p)),
        ensures
            final(self).wf(),
            final(self).closed_flag() == old(self).closed_flag(),
            final(self).poisoned_flag() == old(self).poisoned_flag(),
            final(self).order() == old(self).order(),
            final(self).outcomes() == old(self).outcomes(),
            old(self).poisoned_flag() ==> {
                &&& r == WhileStart::<S::Permit, S::Params, E>::Poisoned(params)
                &&& final(self).waiting() == old(self).waiting()
                &&& final(self).state() == old(self).state()
                &&& final(self).ticket_counter() == old(self).ticket_counter()
            },
            !old(self).poisoned_flag() ==> {
                &&& !(r is Poisoned)
                &&& !(front || old(self).waiting().len() == 0) ==> !(r is Acquired)
                &&& !(r is Queued) ==> final(self).waiting() == old(self).waiting()
                    && final(self).ticket_counter() == old(self).ticket_counter()
                &&& r is Queued ==> {
                    &&& r->Queued_0 == old(self).ticket_counter()
                    &&& final(self).ticket_counter() == old(self).ticket_counter() + 1
                    &&& final(self).waiting() == enqueued(
                        old(self).waiting(),
                        Waiter { ticket: r->Queued_0, params: Some(params), waker },
                        front,
                    )
                }
                &&& exists|o: Outcome<S::Permit, S::Params>, mid: S|
                    #![trigger attempted(old(self).state(), old(self).waiting().len(), params, front, mid, o)]
                    attempted(old(self).state(), old(self).waiting().len(), params, front, mid, o)
                        && (o matches Outcome::Acquired(permit) ==> r
                        == WhileStart::<S::Permit, S::Params, E>::Acquired(permit)
                        && final(self).state() == mid) && (o is Enqueue ==> exists|
                        s: &mut S,
                        a: Option<E>,
                    |
                        #![trigger call_ensures(f, (s, &params), a)]
                        *s == mid && *final(s) == final(self).state() && call_ensures(
                            f,
                            (s, &params),
                            a,
                        ) && while_answered(a, r))
            },
    {
        proof {
            if self.closed {
                assert(Uncloseable::can_close());
            }
        }
        if self.poisoned {
            return WhileStart::Poisoned(params);
        }
        let ghost p0 = params;
        let o = self.attempt(params, front);
        let ghost go = o;
        let ghost mid = self.state;
        match o {
            Outcome::Acquired(permit) => {
                WhileStart::Acquired(permit)
            },
            Outcome::Enqueue { params, .. } => {
                let answer = run_with(&mut self.state, &params, f);
                let ghost after = self.state;
                let r = self.settle_while(params, front, waker, answer);
                proof {
                    let s = choose|s: &mut S|
                        #![trigger call_ensures(f, (s, &p0), answer)]
                        *s == mid && *final(s) == after && call_ensures(f, (s, &p0), answer);
                    assert(*s == mid && *final(s) == self.state() && call_ensures(f, (s, &p0), answer)
                        && while_answered(answer, r));
                    assert(attempted(old(self).state(), old(self).waiting().len(), p0, front, mid, go));
                }
                r
            },
            Outcome::Closed(e) => {
                proof {
                    assert(false);
                }
                WhileStart::Poisoned(e.params)
            },
            Outcome::Poisoned(params) => WhileStart::Poisoned(params),
        }
    }

    /// Settle a conditional acquisition that the state could not serve at once,
    /// given the condition's `answer`: give up with its value, leaving the queue
    /// as it was, or join the queue at the front (`front`) or the back under a new
    /// ticket, with the request `params` and `waker`.
    pub fn settle_while<E>(&mut self, params: S::Params, front: bool, waker: W, answer: Option<E>) -> (r:
        WhileStart<S::Permit, S::Params, E>)
        requires
            old(self).wf(),
            old(self).ticket_counter() < u64::MAX,
        ensures
            final(self).wf(),
            final(self).closed_flag() == old(self).closed_flag(),
            final(self).poisoned_flag() == old(self).poisoned_flag(),
            final(self).order() == old(self).order(),
            final(self).outcomes() == old(self).outcomes(),
            final(self).state() == old(self).state(),
            while_answered(answer, r),
            answer is Some ==> {
                &&& final(self).waiting() == old(self).waiting()
                &&& final(self).ticket_counter() == old(self).ticket_counter()
            },
            answer is None ==> {
                &&& r == WhileStart::<S::Permit, S::Params, E>::Queued(old(self).ticket_counter())
                &&& final(self).ticket_counter() == old(self).ticket_counter() + 1
                &&& final(self).waiting() == enqueued(
                    old(self).waiting(),
                    Waiter { ticket: old(self).ticket_counter(), params: Some(params), waker },
                    front,
                )
            },
    {
        proof {
            if self.closed {
                assert(Uncloseable::can_close());
            }
        }
        match answer {
            Some(e) => WhileStart::Gave(e),
            None => {
                let ticket = self.join(params, front, waker);
                WhileStart::Queued(ticket)
            },
        }
    }

    /// A later poll of the conditional acquisition queued under `ticket`.
    ///
    /// While it is queued, `f` is asked first, seeing the state and the params:
    /// if it gives up with a value, that is returned and the task stays queued;
    /// otherwise its waker is replaced by `waker` and it keeps waiting. Once it
    /// left the queue, it collects its permit, which the queue then forgets.
    pub fn poll_while<E, F: FnOnce(&mut S, &S::Params) -> Option<E>>(
        &mut self,
        ticket: u64,
        waker: W,
        f: F,
    ) -> (r: WhilePoll<S::Permit, E>)
        requires
            old(self).wf(),
            forall|s: &mut S, p: &S::Params| call_requires(f, (s, p)),
        ensures
            final(self).wf(),
            final(self).same_setup(*old(self)),
            forall|i: int|
                #[trigger] queued_at(old(self).waiting(), ticket, i) ==> {
                    &&& final(self).outcomes() == old(self).outcomes()
                    &&& old(self).waiting()[i].params is None ==> {
                        &&& r is ParamsLost
                        &&& final(self).waiting() == old(self).waiting()
                        &&& final(self).state() == old(self).state()
                    }
                    &&& old(self).waiting()[i].params is Some ==> {
                        &&& exists|s: &mut S, a: Option<E>|
                            #![trigger call_ensures(f, (s, &old(self).waiting()[i].params->0), a)]
                            *s == old(self).state() && *final(s) == final(self).state()
                                && call_ensures(f, (s, &old(self).waiting()[i].params->0), a)
                                && poll_answered(a, r)
                        &&& r is Gave ==> final(self).waiting() == old(self).waiting()
                        &&& r is Pending ==> final(self).waiting() == old(self).waiting().update(
                            i,
                            Waiter { ticket, params: old(self).waiting()[i].params, waker },
                        )
                    }
                },
            forall|j: int|
                !is_queued(old(self).waiting(), ticket) && #[trigger] finished_at(
                    old(self).outcomes(),
                    ticket,
                    j,
                ) ==> {
                    &&& old(self).outcomes()[j].outcome matches Ok(permit)
                        && r == WhilePoll::<S::Permit, E>::Granted(permit)
                    &&& final(self).waiting() == old(self).waiting()
                    &&& final(self).outcomes() == old(self).outcomes().remove(j)
                    &&& final(self).state() == old(self).state()
                },
            !is_queued(old(self).waiting(), ticket) && !is_finished(old(self).outcomes(), ticket)
                ==> {
                &&& r is Unknown
                &&& final(self).waiting() == old(self).waiting()
                &&& final(self).outcomes() == old(self).outcomes()
                &&& final(self).state() == old(self).state()
            },
    {
        let i = self.find_waiting(ticket);
        if i < self.waiters.len() {
            let answer = {
                let waiter = &self.waiters[i];
                match &waiter.params {
                    None => {
                        return WhilePoll::ParamsLost;
                    },
                    Some(params) => run_with(&mut self.state, params, f),
                }
            };
            let ghost after = self.state;
            let r = self.settle_poll_while(i, waker, answer);
            proof {
                let p = old(self).waiting()[i as int].params->0;
                let s = choose|s: &mut S|
                    #![trigger call_ensures(f, (s, &p), answer)]
                    *s == old(self).state() && *final(s) == after && call_ensures(f, (s, &p), answer);
                assert(*s == old(self).state() && *final(s) == self.state() && call_ensures(
                    f,
                    (s, &p),
                    answer,
                ) && poll_answered(answer, r));
            }
            return r;
        }
        let j = self.find_finished(ticket);
        if j < self.finished.len() {
            let done = self.finished.remove(j);
            proof {
                lemma_remove_outcome_tickets(self.waiters@, old(self).finished@, j as int);
                lemma_distinct_after_remove(
                    self.waiters@,
                    old(self).finished@,
                    self.waiters@,
                    self.finished@,
                    old(self).finished@[j as int].ticket,
                );
            }
            match done.outcome {
                Ok(permit) => WhilePoll::Granted(permit),
                Err(_) => {
                    proof {
                        assert(old(self).finished@[j as int].outcome is Ok);
                    }
                    WhilePoll::Unknown
                },
            }
        } else {
            WhilePoll::Unknown
        }
    }

    /// Settle a later poll of the queued conditional acquisition at `i`, given
    /// the condition's `answer`: give up with its value, the task staying queued
    /// as it was; or keep waiting, its waker replaced by `waker`.
    pub fn settle_poll_while<E>(&mut self, i: usize, waker: W, answer: Option<E>) -> (r: WhilePoll<
        S::Permit,
        E,
    >)
        requires
            old(self).wf(),
            i < old(self).waiting().len(),
        ensures
            final(self).wf(),
            final(self).same_setup(*old(self)),
            final(self).outcomes() == old(self).outcomes(),
            final(self).state() == old(self).state(),
            poll_answered(answer, r),
            answer is Some ==> final(self).waiting() == old(self).waiting(),
            answer is None ==> final(self).waiting() == old(self).waiting().update(
                i as int,
                Waiter {
                    ticket: old(self).waiting()[i as int].ticket,
                    params: old(self).waiting()[i as int].params,
                    waker,
                },
            ),
    {
        if let Some(e) = answer {
            return WhilePoll::Gave(e);
        }
        let Waiter { ticket, params, waker: _stale } = self.waiters.remove(i).unwrap();
        self.waiters.insert(i, Waiter { ticket, params, waker });
        assert(self.waiters@ =~= old(self).waiters@.update(i as int, Waiter { ticket, params, waker }));
        proof {
            lemma_update_waiter_tickets(
                old(self).waiters@,
                self.finished@,
                i as int,
                Waiter { ticket, params, waker },
            );
        }
        WhilePoll::Pending
    }

    /// The conditional acquisition queued under `ticket` gives up (its future is
    /// dropped): if it is still queued it leaves the queue; if it was granted a
    /// permit it never collected, the permit is returned to the state and the
    /// waiters that can now be served are.
    pub fn withdraw(&mut self, ticket: u64) -> (woken: Vec<W>)
        requires
            old(self).wf(),
        ensures
            final(self).wf(),
            final(self).same_setup(*old(self)),
            forall|i: int|
                queued_at(old(self).waiting(), ticket, i) ==> {
                    &&& final(self).waiting() == old(self).waiting().remove(i)
                    &&& final(self).outcomes() == old(self).outcomes()
                    &&& final(self).state() == old(self).state()
                    &&& woken@ == Seq::<W>::empty()
                },
            forall|j: int|
                !is_queued(old(self).waiting(), ticket) && #[trigger] finished_at(
                    old(self).outcomes(),
                    ticket,
                    j,
                ) ==> {
                    &&& checked(
                        old(self).poisoned_flag(),
                        old(self).closed_flag(),
                        old(self).waiting(),
                        old(self).outcomes().remove(j),
                        final(self).waiting(),
                        final(self).outcomes(),
                        woken@,
                    )
                    &&& exists|mid: S|
                        #![trigger old(self).state().releases(old(self).outcomes()[j].outcome->Ok_0, mid)]
                        old(self).state().releases(old(self).outcomes()[j].outcome->Ok_0, mid)
                            && checked_from(
                            old(self).poisoned_flag(),
                            old(self).closed_flag(),
                            mid,
                            old(self).waiting(),
                            old(self).outcomes().remove(j),
                            final(self).state(),
                            final(self).waiting(),
                            final(self).outcomes(),
                            woken@,
                        )
                },
            !is_queued(old(self).waiting(), ticket) && !is_finished(old(self).outcomes(), ticket)
                ==> {
                &&& final(self).waiting() == old(self).waiting()
                &&& final(self).outcomes() == old(self).outcomes()
                &&& final(self).state() == old(self).state()
                &&& woken@ == Seq::<W>::empty()
            },
    {
        let i = self.find_waiting(ticket);
        if i < self.waiters.len() {
            let _gone = self.waiters.remove(i);
            proof {
                lemma_remove_waiter_tickets(old(self).waiters@, self.finished@, i as int);
                lemma_distinct_after_remove(
                    old(self).waiters@,
                    self.finished@,
                    self.waiters@,
                    self.finished@,
                    old(self).waiters@[i as int].ticket,
                );
            }
            return Vec::new();
        }
        let j = self.find_finished(ticket);
        if j < self.finished.len() {
            let done = self.finished.remove(j);
            proof {
                lemma_remove_outcome_tickets(self.waiters@, old(self).finished@, j as int);
                lemma_distinct_after_remove(
                    self.waiters@,
                    old(self).finished@,
                    self.waiters@,
                    self.finished@,
                    old(self).finished@[j as int].ticket,
                );
            }
            match done.outcome {
                Ok(permit) => {
                    self.state.release(permit);
                    let ghost mid = self.state;
                    let woken = self.check();
                    assert(old(self).state().releases(old(self).outcomes()[j as int].outcome->Ok_0, mid));
                    woken
                },
                Err(_) => {
                    proof {
                        assert(old(self).finished@[j as int].outcome is Ok);
                    }
                    Vec::new()
                },
            }
        } else {
            Vec::new()
        }
    }
}

/// An uncloseable queue is never closed, and every outcome it holds is a granted
/// permit: its tasks can never see a closed error.
pub proof fn law_uncloseable_never_closes<S: SemaphoreState, O, W>(
    q: SemaphoreQueue<S, Uncloseable, O, W>,
)
    requires
        q.wf(),
    ensures
        !q.closed_flag(),
        forall|j: int| 0 <= j < q.outcomes().len() ==> (#[trigger] q.outcomes()[j]).outcome is Ok,
{
}

/// A closed queue holds no waiters: closing let every one of them go, and
/// nobody can join it after.
pub proof fn law_closed_queue_is_empty<S: SemaphoreState, C: IsCloseable, O, W>(
    q: SemaphoreQueue<S, C, O, W>,
)
    requires
        q.wf(),
        q.closed_flag(),
    ensures
        q.waiting().len() == 0,
{
}

/// Closing a queue that is already closed changes nothing: there is nobody left
/// to hand params back to or to wake.
pub proof fn law_close_twice<S: SemaphoreState, C: IsCloseable, O, W>(
    q: SemaphoreQueue<S, C, O, W>,
)
    requires
        q.wf(),
        q.closed_flag(),
    ensures
        q.outcomes() + closings::<S::Permit, S::Params, W>(q.waiting()) == q.outcomes(),
        wakers_of(q.waiting()) == Seq::<W>::empty(),
{
    assert(closings::<S::Permit, S::Params, W>(q.waiting()) =~= Seq::empty());
    assert(q.outcomes() + closings::<S::Permit, S::Params, W>(q.waiting()) =~= q.outcomes());
    assert(wakers_of(q.waiting()) =~= Seq::<W>::empty());
}

/// A new waiter gets a ticket nobody in the queue holds, waiting or finished,
/// and above that of every waiting task.
pub proof fn law_new_ticket_is_fresh<S: SemaphoreState, C: IsCloseable, O, W>(
    q: SemaphoreQueue<S, C, O, W>,
)
    requires
        q.wf(),
    ensures
        !is_queued(q.waiting(), q.ticket_counter()),
        !is_finished(q.outcomes(), q.ticket_counter()),
        forall|i: int| 0 <= i < q.waiting().len() ==> (#[trigger] q.waiting()[i]).ticket < q.ticket_counter(),
{
}

/// Once closed, a queue refuses every new acquisition: with a closed error
/// carrying the params back, or by reporting poison if it is also poisoned.
pub proof fn law_closed_refuses<S: SemaphoreState, C: IsCloseable, O, W>(
    q: SemaphoreQueue<S, C, O, W>,
    params: S::Params,
)
    requires
        q.closed_flag(),
    ensures
        refusal::<S::Permit, S::Params>(q.poisoned_flag(), q.closed_flag(), params) == if q.poisoned_flag() {
            Some(Outcome::<S::Permit, S::Params>::Poisoned(params))
        } else {
            Some(Outcome::<S::Permit, S::Params>::Closed(AcquireError { params }))
        },
{
}

/// A poisoned queue refuses every new acquisition, handing the params back
/// unused, whether or not it is closed.
pub proof fn law_poisoned_refuses<P, T>(closed: bool, params: P)
    ensures
        refusal::<T, P>(true, closed, params) == Some(Outcome::<T, P>::Poisoned(params)),
{
}

} // verus!
