use vstd::prelude::*;

use super::model::{
    Finished, Waiter, checked, closings, dead_of, enqueued, finished_at, grants, is_finished,
    is_queued, lemma_remove_outcome_tickets, lemma_remove_waiter_tickets, lemma_split_tickets,
    lemma_take_step, lemma_used_ticket, live_of, outcome_tickets, queued_at, served, ticket_bag,
    tickets_distinct, tickets_of, checked_from, tried,
};
use crate::state::SemaphoreState;

verus! {

/// Serving the queue never loses or duplicates a waiter: each waiter that was
/// queued is, afterwards, either still queued or among the newly granted.
pub proof fn law_serving_conserves_waiters<T, P, W>(
    before: Seq<Waiter<P, W>>,
    done_before: Seq<Finished<T, P>>,
    after: Seq<Waiter<P, W>>,
    done_after: Seq<Finished<T, P>>,
    woken: Seq<W>,
    n: int,
)
    requires
        served(before, done_before, after, done_after, woken, n),
    ensures
        tickets_of(after).to_multiset().add(
            outcome_tickets(done_after.skip(done_before.len() as int)).to_multiset(),
        ) == tickets_of(before).to_multiset(),
        woken.len() == done_after.len() - done_before.len(),
{
    broadcast use vstd::seq_lib::group_to_multiset_ensures;

    let head = before.take(n);
    let tail = before.skip(n);
    let gs = done_after.skip(done_before.len() as int);
    lemma_split_tickets(head);
    assert(outcome_tickets(gs) =~= tickets_of(live_of(head)));
    assert(tickets_of(after) =~= tickets_of(dead_of(head)) + tickets_of(tail));
    assert(tickets_of(before) =~= tickets_of(head) + tickets_of(tail));
    vstd::seq_lib::lemma_multiset_commutative(tickets_of(dead_of(head)), tickets_of(tail));
    vstd::seq_lib::lemma_multiset_commutative(tickets_of(head), tickets_of(tail));
    assert(tickets_of(after).to_multiset().add(outcome_tickets(gs).to_multiset())
        =~= tickets_of(before).to_multiset());
}

/// In first-in-first-out order, permits are given out in the order they were
/// requested: a task that joined at the back is served only once every earlier
/// task still holding its request was, and right after them.
pub proof fn law_fifo_serves_in_request_order<T, P, W>(
    ws: Seq<Waiter<P, W>>,
    w: Waiter<P, W>,
    done_before: Seq<Finished<T, P>>,
    after: Seq<Waiter<P, W>>,
    done_after: Seq<Finished<T, P>>,
    woken: Seq<W>,
    n: int,
)
    requires
        served(enqueued(ws, w, false), done_before, after, done_after, woken, n),
        w.params is Some,
    ensures
        n <= ws.len() ==> {
            &&& after.last() == w
            &&& grants(done_after.skip(done_before.len() as int), live_of(ws.take(n)))
        },
        n > ws.len() ==> {
            &&& n == ws.len() + 1
            &&& grants(done_after.skip(done_before.len() as int), live_of(ws).push(w))
        },
{
    let q = enqueued(ws, w, false);
    assert(q =~= ws.push(w));
    if n <= ws.len() {
        assert(q.take(n) =~= ws.take(n));
        assert(q.skip(n).last() == w);
    } else {
        assert(q.take(n) =~= ws.push(w));
        assert(ws.push(w).drop_last() =~= ws);
    }
}

/// In last-in-first-out order, the task that joined last is served first: if
/// anybody is served, it is, before anyone else.
pub proof fn law_lifo_serves_newest_first<T, P, W>(
    ws: Seq<Waiter<P, W>>,
    w: Waiter<P, W>,
    done_before: Seq<Finished<T, P>>,
    after: Seq<Waiter<P, W>>,
    done_after: Seq<Finished<T, P>>,
    woken: Seq<W>,
    n: int,
)
    requires
        served(enqueued(ws, w, true), done_before, after, done_after, woken, n),
        w.params is Some,
    ensures
        n == 0 ==> after == enqueued(ws, w, true) && done_after == done_before && woken
            == Seq::<W>::empty(),
        n > 0 ==> {
            &&& done_after.len() > done_before.len()
            &&& done_after[done_before.len() as int].ticket == w.ticket
            &&& done_after[done_before.len() as int].outcome is Ok
            &&& woken[0] == w.waker
        },
{
    let q = enqueued(ws, w, true);
    if n == 0 {
        assert(q.take(0) =~= Seq::<Waiter<P, W>>::empty());
        assert(q.skip(0) =~= q);
        assert(dead_of(q.take(0)) + q.skip(0) =~= q);
        assert(done_after =~= done_after.take(done_before.len() as int));
        assert(woken =~= Seq::<W>::empty());
    } else {
        lemma_live_prefix_starts_with(q, n);
        assert(done_after.skip(done_before.len() as int)[0] == done_after[done_before.len() as int]);
    }
}

/// The live waiters of a prefix of a queue whose front holds its request start
/// with that front.
pub proof fn lemma_live_prefix_starts_with<P, W>(q: Seq<Waiter<P, W>>, n: int)
    requires
        0 < n <= q.len(),
        q[0].params is Some,
    ensures
        live_of(q.take(n)).len() > 0,
        live_of(q.take(n))[0] == q[0],
    decreases n,
{
    if n == 1 {
        lemma_take_step(q, 0);
        assert(live_of(q.take(0)) =~= Seq::<Waiter<P, W>>::empty());
    } else {
        lemma_live_prefix_starts_with(q, n - 1);
        lemma_take_step(q, n - 1);
    }
}

/// Closing hands every waiter its params back: a waiting task collects a closed
/// error with its params, or learns that they were lost.
pub proof fn law_close_returns_params<T, P, W>(ws: Seq<Waiter<P, W>>)
    ensures
        closings::<T, P, W>(ws).len() == ws.len(),
        forall|i: int|
            0 <= i < ws.len() ==> {
                &&& (#[trigger] closings::<T, P, W>(ws)[i]).ticket == ws[i].ticket
                &&& closings::<T, P, W>(ws)[i].outcome == Err::<T, Option<P>>(ws[i].params)
            },
{
}

/// Serving the queue serves nobody while it is poisoned or closed.
pub proof fn law_poisoned_or_closed_serves_nobody<T, P, W>(
    poisoned: bool,
    closed: bool,
    before: Seq<Waiter<P, W>>,
    done_before: Seq<Finished<T, P>>,
    after: Seq<Waiter<P, W>>,
    done_after: Seq<Finished<T, P>>,
    woken: Seq<W>,
)
    requires
        poisoned || closed,
        checked(poisoned, closed, before, done_before, after, done_after, woken),
    ensures
        after == before,
        done_after == done_before,
        woken.len() == 0,
{
}

/// A waiter whose request was lost never gets a permit: serving keeps it queued.
pub proof fn law_dead_waiters_stay<T, P, W>(
    before: Seq<Waiter<P, W>>,
    done_before: Seq<Finished<T, P>>,
    after: Seq<Waiter<P, W>>,
    done_after: Seq<Finished<T, P>>,
    woken: Seq<W>,
    n: int,
    i: int,
)
    requires
        served(before, done_before, after, done_after, woken, n),
        0 <= i < before.len(),
        before[i].params is None,
    ensures
        after.contains(before[i]),
    decreases i,
{
    if i >= n {
        assert(after[dead_of(before.take(n)).len() + (i - n)] == before[i]);
    } else {
        lemma_dead_prefix_keeps(before, n, i);
        let k = choose|k: int|
            0 <= k < dead_of(before.take(n)).len() && #[trigger] dead_of(before.take(n))[k]
                == before[i];
        assert(after[k] == before[i]);
    }
}

/// A dead waiter of a prefix is kept by `dead_of` of that prefix.
pub proof fn lemma_dead_prefix_keeps<P, W>(s: Seq<Waiter<P, W>>, n: int, i: int)
    requires
        0 <= i < n <= s.len(),
        s[i].params is None,
    ensures
        exists|k: int| 0 <= k < dead_of(s.take(n)).len() && #[trigger] dead_of(s.take(n))[k] == s[i],
    decreases n,
{
    lemma_take_step(s, n - 1);
    if i == n - 1 {
        let k = dead_of(s.take(n - 1)).len() as int;
        assert(dead_of(s.take(n))[k] == s[i]);
    } else {
        lemma_dead_prefix_keeps(s, n - 1, i);
        let k = choose|k: int|
            0 <= k < dead_of(s.take(n - 1)).len() && #[trigger] dead_of(s.take(n - 1))[k] == s[i];
        assert(dead_of(s.take(n))[k] == s[i]);
    }
}

/// With distinct tickets, a task collects its outcome exactly once: once the
/// outcome of a ticket that is no longer queued is taken, no trace of the ticket
/// is left.
pub proof fn law_outcome_collected_once<T, P, W>(
    ws: Seq<Waiter<P, W>>,
    fs: Seq<Finished<T, P>>,
    ticket: u64,
    j: int,
)
    requires
        tickets_distinct(ws, fs),
        finished_at(fs, ticket, j),
    ensures
        !is_queued(ws, ticket),
        !is_finished(fs.remove(j), ticket),
{
    broadcast use vstd::multiset::group_multiset_axioms;

    lemma_remove_outcome_tickets(ws, fs, j);
    assert(ticket_bag(ws, fs).count(ticket) <= 1);
    if is_queued(ws, ticket) {
        lemma_used_ticket(ws, fs.remove(j), ticket);
        assert(false);
    }
    if is_finished(fs.remove(j), ticket) {
        lemma_used_ticket(ws, fs.remove(j), ticket);
        assert(false);
    }
}

/// With distinct tickets, a queued task is queued in one place only, and has no
/// outcome waiting for it.
pub proof fn law_waiter_queued_once<T, P, W>(
    ws: Seq<Waiter<P, W>>,
    fs: Seq<Finished<T, P>>,
    ticket: u64,
    i: int,
)
    requires
        tickets_distinct(ws, fs),
        queued_at(ws, ticket, i),
    ensures
        !is_queued(ws.remove(i), ticket),
        !is_finished(fs, ticket),
{
    broadcast use vstd::multiset::group_multiset_axioms;

    lemma_remove_waiter_tickets(ws, fs, i);
    assert(ticket_bag(ws, fs).count(ticket) <= 1);
    if is_queued(ws.remove(i), ticket) || is_finished(fs, ticket) {
        lemma_used_ticket(ws.remove(i), fs, ticket);
        assert(false);
    }
}

/// Serving is fair to requests that cannot be met yet: when it stops at a waiter
/// whose request fails (say one asking for more permits than are free), that
/// waiter and everyone behind it stay queued, in the same order, and none of them
/// is granted anything, even if a later request could have been met.
pub proof fn law_head_of_line_blocks<T, P, W>(
    before: Seq<Waiter<P, W>>,
    done_before: Seq<Finished<T, P>>,
    after: Seq<Waiter<P, W>>,
    done_after: Seq<Finished<T, P>>,
    woken: Seq<W>,
    n: int,
)
    requires
        served(before, done_before, after, done_after, woken, n),
        n < before.len(),
    ensures
        after.skip(dead_of(before.take(n)).len() as int) == before.skip(n),
        after[dead_of(before.take(n)).len() as int] == before[n],
        done_after.len() - done_before.len() == live_of(before.take(n)).len(),
{
    let k = dead_of(before.take(n)).len() as int;
    assert(after.skip(k) =~= before.skip(n));
}

/// The waiters of `ws` are in the order of their tickets, front first: the
/// order in which they joined, when every one of them joined at the back.
pub open spec fn in_arrival_order<P, W>(ws: Seq<Waiter<P, W>>) -> bool {
    forall|i: int, j: int| 0 <= i < j < ws.len() ==> (#[trigger] ws[i]).ticket < (#[trigger] ws[j]).ticket
}

/// Every waiter kept by `dead_of` is one of the queue's.
proof fn lemma_dead_members<P, W>(s: Seq<Waiter<P, W>>)
    ensures
        forall|k: int|
            0 <= k < dead_of(s).len() ==> exists|m: int| 0 <= m < s.len() && #[trigger] dead_of(s)[k] == s[m],
    decreases s.len(),
{
    if s.len() > 0 {
        let r = s.drop_last();
        lemma_dead_members(r);
        assert forall|k: int| 0 <= k < dead_of(s).len() implies exists|m: int|
            0 <= m < s.len() && #[trigger] dead_of(s)[k] == s[m] by {
            if k < dead_of(r).len() {
                let m = choose|m: int| 0 <= m < r.len() && #[trigger] dead_of(r)[k] == r[m];
                assert(dead_of(s)[k] == s[m]);
            } else {
                assert(dead_of(s)[k] == s[s.len() - 1]);
            }
        }
    }
}

/// Keeping the dead waiters of a queue in arrival order keeps them in arrival
/// order.
proof fn lemma_dead_in_order<P, W>(s: Seq<Waiter<P, W>>)
    requires
        in_arrival_order(s),
    ensures
        in_arrival_order(dead_of(s)),
    decreases s.len(),
{
    if s.len() > 0 {
        let r = s.drop_last();
        assert(in_arrival_order(r));
        lemma_dead_in_order(r);
        lemma_dead_members(r);
        if s.last().params is None {
            assert forall|i: int, j: int| 0 <= i < j < dead_of(s).len() implies (
            #[trigger] dead_of(s)[i]).ticket < (#[trigger] dead_of(s)[j]).ticket by {
                if j == dead_of(r).len() {
                    let m = choose|m: int| 0 <= m < r.len() && #[trigger] dead_of(r)[i] == r[m];
                    assert(s[m] == r[m]);
                }
            }
        }
    }
}

/// In first-in-first-out order a new waiter joins at the back under a ticket
/// above all the others, so the queue stays in arrival order.
pub proof fn law_fifo_join_keeps_arrival_order<P, W>(ws: Seq<Waiter<P, W>>, w: Waiter<P, W>)
    requires
        in_arrival_order(ws),
        forall|i: int| 0 <= i < ws.len() ==> (#[trigger] ws[i]).ticket < w.ticket,
    ensures
        in_arrival_order(enqueued(ws, w, false)),
{
}

/// Serving a queue in arrival order leaves it in arrival order, so waiters are
/// served in the order they joined.
pub proof fn law_serving_keeps_arrival_order<T, P, W>(
    before: Seq<Waiter<P, W>>,
    done_before: Seq<Finished<T, P>>,
    after: Seq<Waiter<P, W>>,
    done_after: Seq<Finished<T, P>>,
    woken: Seq<W>,
    n: int,
)
    requires
        served(before, done_before, after, done_after, woken, n),
        in_arrival_order(before),
    ensures
        in_arrival_order(after),
{
    let head = before.take(n);
    let tail = before.skip(n);
    assert(in_arrival_order(head));
    lemma_dead_in_order(head);
    lemma_dead_members(head);
    let d = dead_of(head);
    assert forall|i: int, j: int| 0 <= i < j < after.len() implies (#[trigger] after[i]).ticket < (
    #[trigger] after[j]).ticket by {
        if j < d.len() {
            assert(after[i] == d[i] && after[j] == d[j]);
        } else if i < d.len() {
            let m = choose|m: int| 0 <= m < head.len() && #[trigger] d[i] == head[m];
            assert(after[i] == before[m]);
            assert(after[j] == before[n + (j - d.len())]);
        } else {
            assert(after[i] == before[n + (i - d.len())]);
            assert(after[j] == before[n + (j - d.len())]);
        }
    }
}

/// A waiter leaving the queue leaves it in arrival order.
pub proof fn law_leaving_keeps_arrival_order<P, W>(ws: Seq<Waiter<P, W>>, i: int)
    requires
        in_arrival_order(ws),
        0 <= i < ws.len(),
    ensures
        in_arrival_order(ws.remove(i)),
{
    assert forall|a: int, b: int| 0 <= a < b < ws.remove(i).len() implies (#[trigger] ws.remove(
        i,
    )[a]).ticket < (#[trigger] ws.remove(i)[b]).ticket by {
        let ma = if a < i { a } else { a + 1 };
        let mb = if b < i { b } else { b + 1 };
        assert(ws.remove(i)[a] == ws[ma]);
        assert(ws.remove(i)[b] == ws[mb]);
    }
}

/// A freed permit goes to the waiting task: when the queue is served and the
/// state grants the request of the front waiter, that waiter leaves the queue
/// first, with the permit the state granted it.
pub proof fn law_serving_grants_front<S: SemaphoreState, W>(
    s0: S,
    before: Seq<Waiter<S::Params, W>>,
    done_before: Seq<Finished<S::Permit, S::Params>>,
    s_end: S,
    after: Seq<Waiter<S::Params, W>>,
    done_after: Seq<Finished<S::Permit, S::Params>>,
    woken: Seq<W>,
)
    requires
        checked_from(false, false, s0, before, done_before, s_end, after, done_after, woken),
        before.len() > 0,
        before[0].params is Some,
        forall|s1: S, r: Result<S::Permit, S::Params>|
            #[trigger] s0.acquires(before[0].params->0, s1, r) ==> r is Ok,
    ensures
        done_after.len() > done_before.len(),
        done_after[done_before.len() as int].ticket == before[0].ticket,
        done_after[done_before.len() as int].outcome is Ok,
        woken.len() > 0,
        woken[0] == before[0].waker,
        exists|s1: S|
            s0.acquires(
                before[0].params->0,
                s1,
                Ok::<S::Permit, S::Params>(done_after[done_before.len() as int].outcome->Ok_0),
            ),
{
    let (n, trace) = choose|n: int, trace: Seq<S>|
        served(before, done_before, after, done_after, woken, n) && tried(
            s0,
            trace,
            s_end,
            before,
            n,
            done_after.skip(done_before.len() as int),
        );
    let gs = done_after.skip(done_before.len() as int);
    if n == 0 {
        assert(before.take(0) =~= Seq::<Waiter<S::Params, W>>::empty());
        assert(live_of(before.take(0)) =~= Seq::<Waiter<S::Params, W>>::empty());
        assert(trace.len() == 1);
        assert(s0.acquires(before[0].params->0, s_end, Err::<S::Permit, S::Params>(before[0].params->0)));
        assert(false);
    }
    lemma_live_prefix_starts_with(before, n);
    let live = live_of(before.take(n));
    assert(live[0] == before[0]);
    assert(gs[0] == done_after[done_before.len() as int]);
    assert(s0.acquires(live[0].params->0, trace[1], Ok::<S::Permit, S::Params>(gs[0].outcome->Ok_0)));
}

} // verus!
