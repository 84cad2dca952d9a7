use vstd::prelude::*;
use vstd::multiset::Multiset;

use super::laws::law_serving_conserves_waiters;
use crate::state::SemaphoreState;

verus! {

/// A task waiting in the queue for a permit.
pub struct Waiter<P, W> {
    /// Identifies the task to the queue.
    pub ticket: u64,
    /// The request. `None` only if it was lost to a panic in
    /// `SemaphoreState::acquire`: such a waiter can never be served.
    pub params: Option<P>,
    /// Woken when the task should poll again.
    pub waker: W,
}

/// What a task that left the queue is owed, until it collects it.
pub struct Finished<T, P> {
    /// The ticket of the task.
    pub ticket: u64,
    /// `Ok(permit)`: it was granted a permit.
    /// `Err(params)`: the queue closed while it waited.
    pub outcome: Result<T, Option<P>>,
}

/// The waiters of `ws` whose request was lost, in queue order.
pub open spec fn dead_of<P, W>(ws: Seq<Waiter<P, W>>) -> Seq<Waiter<P, W>>
    decreases ws.len(),
{
    if ws.len() == 0 {
        Seq::empty()
    } else if ws.last().params is None {
        dead_of(ws.drop_last()).push(ws.last())
    } else {
        dead_of(ws.drop_last())
    }
}

/// The waiters of `ws` that still hold their request, in queue order.
pub open spec fn live_of<P, W>(ws: Seq<Waiter<P, W>>) -> Seq<Waiter<P, W>>
    decreases ws.len(),
{
    if ws.len() == 0 {
        Seq::empty()
    } else if ws.last().params is Some {
        live_of(ws.drop_last()).push(ws.last())
    } else {
        live_of(ws.drop_last())
    }
}

/// The wakers of `ws`, in queue order.
pub open spec fn wakers_of<P, W>(ws: Seq<Waiter<P, W>>) -> Seq<W> {
    ws.map_values(|w: Waiter<P, W>| w.waker)
}

/// The tickets of `ws`, in queue order.
pub open spec fn tickets_of<P, W>(ws: Seq<Waiter<P, W>>) -> Seq<u64> {
    ws.map_values(|w: Waiter<P, W>| w.ticket)
}

/// `gs` grants a permit to each of `ls`, in that order.
pub open spec fn grants<T, P, W>(gs: Seq<Finished<T, P>>, ls: Seq<Waiter<P, W>>) -> bool {
    &&& gs.len() == ls.len()
    &&& forall|j: int|
        0 <= j < gs.len() ==> (#[trigger] gs[j]).ticket == ls[j].ticket && gs[j].outcome is Ok
}

/// What closing the queue leaves each of `ws`: its params back.
pub open spec fn closings<T, P, W>(ws: Seq<Waiter<P, W>>) -> Seq<Finished<T, P>> {
    ws.map_values(|w: Waiter<P, W>| Finished { ticket: w.ticket, outcome: Err(w.params) })
}

/// The queue `ws` after a new waiter `w` joined it, at the front or at the back.
pub open spec fn enqueued<P, W>(ws: Seq<Waiter<P, W>>, w: Waiter<P, W>, front: bool) -> Seq<
    Waiter<P, W>,
> {
    if front {
        seq![w] + ws
    } else {
        ws.push(w)
    }
}

/// Serving the queue `before` from its front went through its first `n` waiters:
/// each of them that held a request was granted a permit (in queue order, appended
/// to the outcomes), the dead ones stay queued, and if it stopped early it stopped
/// at a waiter that holds its request and stays queued with it.
pub open spec fn served<T, P, W>(
    before: Seq<Waiter<P, W>>,
    done_before: Seq<Finished<T, P>>,
    after: Seq<Waiter<P, W>>,
    done_after: Seq<Finished<T, P>>,
    woken: Seq<W>,
    n: int,
) -> bool {
    &&& 0 <= n <= before.len()
    &&& after == dead_of(before.take(n)) + before.skip(n)
    &&& n < before.len() ==> before[n].params is Some
    &&& done_after.len() == done_before.len() + live_of(before.take(n)).len()
    &&& done_after.take(done_before.len() as int) == done_before
    &&& grants(done_after.skip(done_before.len() as int), live_of(before.take(n)))
    &&& woken == wakers_of(live_of(before.take(n)))
}

/// What serving the queue from its front leaves: nothing changes on a poisoned or
/// closed queue; otherwise the queue is `served` for some number of waiters.
pub open spec fn checked<T, P, W>(
    poisoned: bool,
    closed: bool,
    before: Seq<Waiter<P, W>>,
    done_before: Seq<Finished<T, P>>,
    after: Seq<Waiter<P, W>>,
    done_after: Seq<Finished<T, P>>,
    woken: Seq<W>,
) -> bool {
    if poisoned || closed {
        &&& after == before
        &&& done_after == done_before
        &&& woken == Seq::<W>::empty()
    } else {
        exists|n: int| served(before, done_before, after, done_after, woken, n)
    }
}

/// The semaphore state went through `trace` granting the requests of `live`, in
/// order: from `trace[k]`, the request of `live[k]` was answered with the permit
/// of the outcome `gs[k]`, leaving `trace[k + 1]`.
pub open spec fn granted_through<S: SemaphoreState, W>(
    trace: Seq<S>,
    live: Seq<Waiter<S::Params, W>>,
    gs: Seq<Finished<S::Permit, S::Params>>,
) -> bool {
    &&& trace.len() == live.len() + 1
    &&& forall|k: int|
        #![trigger live[k]]
        0 <= k < live.len() ==> trace[k].acquires(
            live[k].params->0,
            trace[k + 1],
            Ok::<S::Permit, S::Params>(gs[k].outcome->Ok_0),
        )
}

/// Serving from the state `s0` went through the first `n` waiters of `before`:
/// the state granted, one after the other, the request of each of them that held
/// one, with the permits of the outcomes `gs`. Then it stopped: at the end of the
/// queue, with the state the last grant left; or at `before[n]`, whose request the
/// state refused, leaving `s_end`.
pub open spec fn tried<S: SemaphoreState, W>(
    s0: S,
    trace: Seq<S>,
    s_end: S,
    before: Seq<Waiter<S::Params, W>>,
    n: int,
    gs: Seq<Finished<S::Permit, S::Params>>,
) -> bool {
    &&& trace.len() > 0
    &&& trace[0] == s0
    &&& granted_through(trace, live_of(before.take(n)), gs)
    &&& n == before.len() ==> s_end == trace.last()
    &&& n < before.len() ==> trace.last().acquires(
        before[n].params->0,
        s_end,
        Err::<S::Permit, S::Params>(before[n].params->0),
    )
}

/// What serving the queue from its front leaves, with the semaphore state: on a
/// poisoned or closed queue nothing changes; otherwise the state is asked for the
/// waiters' requests from the front, each grant lets a waiter go, and serving
/// stops only at the end of the queue or at the first refused request.
pub open spec fn checked_from<S: SemaphoreState, W>(
    poisoned: bool,
    closed: bool,
    s0: S,
    before: Seq<Waiter<S::Params, W>>,
    done_before: Seq<Finished<S::Permit, S::Params>>,
    s_end: S,
    after: Seq<Waiter<S::Params, W>>,
    done_after: Seq<Finished<S::Permit, S::Params>>,
    woken: Seq<W>,
) -> bool {
    if poisoned || closed {
        &&& after == before
        &&& done_after == done_before
        &&& woken == Seq::<W>::empty()
        &&& s_end == s0
    } else {
        exists|n: int, trace: Seq<S>|
            served(before, done_before, after, done_after, woken, n) && tried(
                s0,
                trace,
                s_end,
                before,
                n,
                done_after.skip(done_before.len() as int),
            )
    }
}

/// `ticket` is first found in `ws` at position `i`.
pub open spec fn queued_at<P, W>(ws: Seq<Waiter<P, W>>, ticket: u64, i: int) -> bool {
    &&& 0 <= i < ws.len()
    &&& ws[i].ticket == ticket
    &&& forall|k: int| 0 <= k < i ==> (#[trigger] ws[k]).ticket != ticket
}

/// `ticket` is in `ws`.
pub open spec fn is_queued<P, W>(ws: Seq<Waiter<P, W>>, ticket: u64) -> bool {
    exists|i: int| 0 <= i < ws.len() && (#[trigger] ws[i]).ticket == ticket
}

/// `ticket` is first found in `fs` at position `j`.
pub open spec fn finished_at<T, P>(fs: Seq<Finished<T, P>>, ticket: u64, j: int) -> bool {
    &&& 0 <= j < fs.len()
    &&& fs[j].ticket == ticket
    &&& forall|k: int| 0 <= k < j ==> (#[trigger] fs[k]).ticket != ticket
}

/// `ticket` is in `fs`.
pub open spec fn is_finished<T, P>(fs: Seq<Finished<T, P>>, ticket: u64) -> bool {
    exists|j: int| 0 <= j < fs.len() && (#[trigger] fs[j]).ticket == ticket
}

/// The tickets of the outcomes `fs`, in order.
pub open spec fn outcome_tickets<T, P>(fs: Seq<Finished<T, P>>) -> Seq<u64> {
    fs.map_values(|f: Finished<T, P>| f.ticket)
}

/// All tickets in use, waiting or finished, counted with their multiplicity.
pub open spec fn ticket_bag<T, P, W>(ws: Seq<Waiter<P, W>>, fs: Seq<Finished<T, P>>) -> Multiset<
    u64,
> {
    tickets_of(ws).to_multiset().add(outcome_tickets(fs).to_multiset())
}

/// No ticket is in use twice.
pub open spec fn tickets_distinct<T, P, W>(ws: Seq<Waiter<P, W>>, fs: Seq<Finished<T, P>>) -> bool {
    forall|t: u64| #[trigger] ticket_bag(ws, fs).count(t) <= 1
}

/// Every ticket in use is below `bound`.
pub open spec fn tickets_below<T, P, W>(
    ws: Seq<Waiter<P, W>>,
    fs: Seq<Finished<T, P>>,
    bound: u64,
) -> bool {
    &&& forall|i: int| 0 <= i < ws.len() ==> (#[trigger] ws[i]).ticket < bound
    &&& forall|j: int| 0 <= j < fs.len() ==> (#[trigger] fs[j]).ticket < bound
}

/// One more waiter examined: the split into dead and live grows by it.
pub proof fn lemma_take_step<P, W>(s: Seq<Waiter<P, W>>, n: int)
    requires
        0 <= n < s.len(),
    ensures
        dead_of(s.take(n + 1)) == (if s[n].params is None {
            dead_of(s.take(n)).push(s[n])
        } else {
            dead_of(s.take(n))
        }),
        live_of(s.take(n + 1)) == (if s[n].params is Some {
            live_of(s.take(n)).push(s[n])
        } else {
            live_of(s.take(n))
        }),
{
    assert(s.take(n + 1).drop_last() =~= s.take(n));
    assert(s.take(n + 1).last() == s[n]);
}

/// Splitting a queue into its dead and its live waiters loses and duplicates
/// nobody: the tickets of both together are those of the queue.
pub proof fn lemma_split_tickets<P, W>(s: Seq<Waiter<P, W>>)
    ensures
        tickets_of(dead_of(s)).to_multiset().add(tickets_of(live_of(s)).to_multiset())
            == tickets_of(s).to_multiset(),
    decreases s.len(),
{
    broadcast use vstd::seq_lib::group_to_multiset_ensures;

    if s.len() == 0 {
        assert(tickets_of(dead_of(s)) =~= Seq::<u64>::empty());
        assert(tickets_of(live_of(s)) =~= Seq::<u64>::empty());
        assert(tickets_of(s) =~= Seq::<u64>::empty());
        assert(Seq::<u64>::empty().to_multiset().add(Seq::<u64>::empty().to_multiset())
            =~= Seq::<u64>::empty().to_multiset());
    } else {
        let rest = s.drop_last();
        lemma_split_tickets(rest);
        assert(tickets_of(s) =~= tickets_of(rest).push(s.last().ticket));
        if s.last().params is None {
            assert(tickets_of(dead_of(s)) =~= tickets_of(dead_of(rest)).push(s.last().ticket));
            assert(tickets_of(live_of(s)) =~= tickets_of(live_of(rest)));
        } else {
            assert(tickets_of(live_of(s)) =~= tickets_of(live_of(rest)).push(s.last().ticket));
            assert(tickets_of(dead_of(s)) =~= tickets_of(dead_of(rest)));
        }
        assert(tickets_of(dead_of(s)).to_multiset().add(tickets_of(live_of(s)).to_multiset())
            =~= tickets_of(s).to_multiset());
    }
}


/// Serving the queue keeps exactly the same tickets in use.
pub proof fn lemma_served_keeps_tickets<T, P, W>(
    before: Seq<Waiter<P, W>>,
    done_before: Seq<Finished<T, P>>,
    after: Seq<Waiter<P, W>>,
    done_after: Seq<Finished<T, P>>,
    woken: Seq<W>,
    n: int,
)
    requires
        served(before, done_before, after, done_after, woken, n),
    ensures
        ticket_bag(after, done_after) == ticket_bag(before, done_before),
{
    broadcast use vstd::multiset::group_multiset_axioms;

    law_serving_conserves_waiters(before, done_before, after, done_after, woken, n);
    let k = done_before.len() as int;
    assert(done_after =~= done_after.take(k) + done_after.skip(k));
    assert(outcome_tickets(done_after) =~= outcome_tickets(done_before) + outcome_tickets(
        done_after.skip(k),
    ));
    vstd::seq_lib::lemma_multiset_commutative(
        outcome_tickets(done_before),
        outcome_tickets(done_after.skip(k)),
    );
    assert(ticket_bag(after, done_after) =~= ticket_bag(before, done_before));
}

/// Taking the waiter at `i` out of the queue drops its ticket from those in use.
pub proof fn lemma_remove_waiter_tickets<T, P, W>(
    ws: Seq<Waiter<P, W>>,
    fs: Seq<Finished<T, P>>,
    i: int,
)
    requires
        0 <= i < ws.len(),
    ensures
        ticket_bag(ws.remove(i), fs) == ticket_bag(ws, fs).remove(ws[i].ticket),
{
    broadcast use vstd::multiset::group_multiset_axioms;
    broadcast use vstd::seq_lib::group_to_multiset_ensures;

    assert(tickets_of(ws.remove(i)) =~= tickets_of(ws).remove(i));
    assert(ticket_bag(ws.remove(i), fs) =~= ticket_bag(ws, fs).remove(ws[i].ticket));
}

/// Forgetting the outcome at `j` drops its ticket from those in use.
pub proof fn lemma_remove_outcome_tickets<T, P, W>(
    ws: Seq<Waiter<P, W>>,
    fs: Seq<Finished<T, P>>,
    j: int,
)
    requires
        0 <= j < fs.len(),
    ensures
        ticket_bag(ws, fs.remove(j)) == ticket_bag(ws, fs).remove(fs[j].ticket),
{
    broadcast use vstd::multiset::group_multiset_axioms;
    broadcast use vstd::seq_lib::group_to_multiset_ensures;

    assert(outcome_tickets(fs.remove(j)) =~= outcome_tickets(fs).remove(j));
    assert(ticket_bag(ws, fs.remove(j)) =~= ticket_bag(ws, fs).remove(fs[j].ticket));
}

/// Replacing a waiter by one with the same ticket keeps the tickets in use.
pub proof fn lemma_update_waiter_tickets<T, P, W>(
    ws: Seq<Waiter<P, W>>,
    fs: Seq<Finished<T, P>>,
    i: int,
    w: Waiter<P, W>,
)
    requires
        0 <= i < ws.len(),
        w.ticket == ws[i].ticket,
    ensures
        ticket_bag(ws.update(i, w), fs) == ticket_bag(ws, fs),
{
    assert(tickets_of(ws.update(i, w)) =~= tickets_of(ws));
}

/// A new waiter joining adds its ticket to those in use.
pub proof fn lemma_join_tickets<T, P, W>(
    ws: Seq<Waiter<P, W>>,
    fs: Seq<Finished<T, P>>,
    w: Waiter<P, W>,
    front: bool,
)
    ensures
        ticket_bag(enqueued(ws, w, front), fs) == ticket_bag(ws, fs).insert(w.ticket),
{
    broadcast use vstd::multiset::group_multiset_axioms;
    broadcast use vstd::seq_lib::group_to_multiset_ensures;

    if front {
        assert(tickets_of(enqueued(ws, w, front)) =~= tickets_of(ws).insert(0, w.ticket));
    } else {
        assert(tickets_of(enqueued(ws, w, front)) =~= tickets_of(ws).push(w.ticket));
    }
    assert(ticket_bag(enqueued(ws, w, front), fs) =~= ticket_bag(ws, fs).insert(w.ticket));
}

/// Closing moves every waiter's ticket to the outcomes: the same tickets stay in
/// use.
pub proof fn lemma_close_keeps_tickets<T, P, W>(ws: Seq<Waiter<P, W>>, fs: Seq<Finished<T, P>>)
    ensures
        ticket_bag(Seq::<Waiter<P, W>>::empty(), fs + closings::<T, P, W>(ws)) == ticket_bag(ws, fs),
{
    broadcast use vstd::multiset::group_multiset_axioms;

    broadcast use vstd::seq_lib::group_to_multiset_ensures;

    assert(tickets_of(Seq::<Waiter<P, W>>::empty()) =~= Seq::<u64>::empty());
    assert(Seq::<u64>::empty().to_multiset().len() == 0);
    assert(Seq::<u64>::empty().to_multiset() =~= Multiset::<u64>::empty());
    assert(outcome_tickets(fs + closings::<T, P, W>(ws)) =~= outcome_tickets(fs) + tickets_of(ws));
    vstd::seq_lib::lemma_multiset_commutative(outcome_tickets(fs), tickets_of(ws));
    assert(ticket_bag(Seq::<Waiter<P, W>>::empty(), fs + closings::<T, P, W>(ws)) =~= ticket_bag(
        ws,
        fs,
    ));
}

/// A ticket that no waiter and no outcome holds is not in use.
pub proof fn lemma_unused_ticket<T, P, W>(ws: Seq<Waiter<P, W>>, fs: Seq<Finished<T, P>>, t: u64)
    requires
        forall|i: int| 0 <= i < ws.len() ==> (#[trigger] ws[i]).ticket != t,
        forall|j: int| 0 <= j < fs.len() ==> (#[trigger] fs[j]).ticket != t,
    ensures
        ticket_bag(ws, fs).count(t) == 0,
{
    broadcast use vstd::multiset::group_multiset_axioms;
    broadcast use vstd::seq_lib::group_to_multiset_ensures;

    assert(!tickets_of(ws).contains(t));
    assert(!outcome_tickets(fs).contains(t));
}

/// A ticket that a waiter or an outcome holds is in use.
pub proof fn lemma_used_ticket<T, P, W>(ws: Seq<Waiter<P, W>>, fs: Seq<Finished<T, P>>, t: u64)
    requires
        is_queued(ws, t) || is_finished(fs, t),
    ensures
        ticket_bag(ws, fs).count(t) >= 1,
{
    broadcast use vstd::multiset::group_multiset_axioms;
    broadcast use vstd::seq_lib::group_to_multiset_ensures;

    if is_queued(ws, t) {
        let i = choose|i: int| 0 <= i < ws.len() && (#[trigger] ws[i]).ticket == t;
        assert(tickets_of(ws)[i] == t);
        assert(tickets_of(ws).contains(t));
    } else {
        let j = choose|j: int| 0 <= j < fs.len() && (#[trigger] fs[j]).ticket == t;
        assert(outcome_tickets(fs)[j] == t);
        assert(outcome_tickets(fs).contains(t));
    }
}

/// Dropping a ticket from a distinct set of tickets in use keeps it distinct.
pub proof fn lemma_distinct_after_remove<T, P, W>(
    ws: Seq<Waiter<P, W>>,
    fs: Seq<Finished<T, P>>,
    ws2: Seq<Waiter<P, W>>,
    fs2: Seq<Finished<T, P>>,
    t: u64,
)
    requires
        tickets_distinct(ws, fs),
        ticket_bag(ws2, fs2) == ticket_bag(ws, fs).remove(t),
    ensures
        tickets_distinct(ws2, fs2),
{
    broadcast use vstd::multiset::group_multiset_axioms;

    assert forall|u: u64| #[trigger] ticket_bag(ws2, fs2).count(u) <= 1 by {
        assert(ticket_bag(ws, fs).count(u) <= 1);
    }
}

/// Adding a ticket not in use to a distinct set of tickets keeps it distinct.
pub proof fn lemma_distinct_after_insert<T, P, W>(
    ws: Seq<Waiter<P, W>>,
    fs: Seq<Finished<T, P>>,
    ws2: Seq<Waiter<P, W>>,
    fs2: Seq<Finished<T, P>>,
    t: u64,
)
    requires
        tickets_distinct(ws, fs),
        ticket_bag(ws, fs).count(t) == 0,
        ticket_bag(ws2, fs2) == ticket_bag(ws, fs).insert(t),
    ensures
        tickets_distinct(ws2, fs2),
{
    broadcast use vstd::multiset::group_multiset_axioms;

    assert forall|u: u64| #[trigger] ticket_bag(ws2, fs2).count(u) <= 1 by {
        assert(ticket_bag(ws, fs).count(u) <= 1);
    }
}

/// No tickets in use at all are distinct.
pub proof fn lemma_distinct_empty<T, P, W>()
    ensures
        tickets_distinct(Seq::<Waiter<P, W>>::empty(), Seq::<Finished<T, P>>::empty()),
{
    assert forall|u: u64|
        #[trigger] ticket_bag(Seq::<Waiter<P, W>>::empty(), Seq::<Finished<T, P>>::empty()).count(
            u,
        ) <= 1 by {
        lemma_unused_ticket(Seq::<Waiter<P, W>>::empty(), Seq::<Finished<T, P>>::empty(), u);
    }
}

/// A ticket not in use is held by no waiter and no outcome.
pub proof fn lemma_gone_if_unused<T, P, W>(ws: Seq<Waiter<P, W>>, fs: Seq<Finished<T, P>>, t: u64)
    requires
        ticket_bag(ws, fs).count(t) == 0,
    ensures
        !is_queued(ws, t),
        !is_finished(fs, t),
{
    if is_queued(ws, t) || is_finished(fs, t) {
        lemma_used_ticket(ws, fs, t);
    }
}

/// Taking out the one entry of a ticket leaves the ticket unused.
pub proof fn lemma_last_use<T, P, W>(
    ws: Seq<Waiter<P, W>>,
    fs: Seq<Finished<T, P>>,
    ws2: Seq<Waiter<P, W>>,
    fs2: Seq<Finished<T, P>>,
    t: u64,
)
    requires
        tickets_distinct(ws, fs),
        is_queued(ws, t) || is_finished(fs, t),
        ticket_bag(ws2, fs2) == ticket_bag(ws, fs).remove(t),
    ensures
        ticket_bag(ws2, fs2).count(t) == 0,
{
    broadcast use vstd::multiset::group_multiset_axioms;

    lemma_used_ticket(ws, fs, t);
    assert(ticket_bag(ws, fs).count(t) <= 1);
}

/// A new outcome adds its ticket to those in use.
pub proof fn lemma_push_outcome_tickets<T, P, W>(
    ws: Seq<Waiter<P, W>>,
    fs: Seq<Finished<T, P>>,
    f: Finished<T, P>,
)
    ensures
        ticket_bag(ws, fs.push(f)) == ticket_bag(ws, fs).insert(f.ticket),
{
    broadcast use vstd::multiset::group_multiset_axioms;
    broadcast use vstd::seq_lib::group_to_multiset_ensures;

    assert(outcome_tickets(fs.push(f)) =~= outcome_tickets(fs).push(f.ticket));
    assert(ticket_bag(ws, fs.push(f)) =~= ticket_bag(ws, fs).insert(f.ticket));
}

/// A waiter leaving the queue for an outcome under the same ticket keeps the
/// tickets in use.
pub proof fn lemma_waiter_to_outcome_tickets<T, P, W>(
    ws: Seq<Waiter<P, W>>,
    fs: Seq<Finished<T, P>>,
    i: int,
    f: Finished<T, P>,
)
    requires
        0 <= i < ws.len(),
        f.ticket == ws[i].ticket,
    ensures
        ticket_bag(ws.remove(i), fs.push(f)) == ticket_bag(ws, fs),
{
    broadcast use vstd::multiset::group_multiset_axioms;

    lemma_remove_waiter_tickets(ws, fs, i);
    lemma_push_outcome_tickets(ws.remove(i), fs, f);
    assert(is_queued(ws, f.ticket));
    lemma_used_ticket(ws, fs, f.ticket);
    assert(ticket_bag(ws.remove(i), fs.push(f)) =~= ticket_bag(ws, fs));
}

} // verus!
