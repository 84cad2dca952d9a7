use flag_bearer::builder::SemaphoreBuilder;
use flag_bearer::closeable::{Closeable, Uncloseable};
use flag_bearer::order::FairOrder;
use flag_bearer::pool::PoolState;
use flag_bearer::queue::{
    leader_outcome, Outcome, SemaphoreQueue, Start, WaiterPoll, WhilePoll, WhileStart,
};
use flag_bearer::state::SemaphoreState;

#[derive(Debug)]
struct Counter(usize);

impl SemaphoreState for Counter {
    type Params = usize;
    type Permit = usize;

    fn acquire(&mut self, n: usize) -> Result<usize, usize> {
        if n <= self.0 {
            self.0 -= n;
            Ok(n)
        } else {
            Err(n)
        }
    }

    fn release(&mut self, n: usize) {
        self.0 += n;
    }
}

type Queue = SemaphoreQueue<Counter, Uncloseable, FairOrder, &'static str>;

#[test]
fn leader_outcomes() {
    assert!(matches!(leader_outcome::<u8, u8>(Ok(3), true), Outcome::Acquired(3)));
    assert!(matches!(
        leader_outcome::<u8, u8>(Err(4), false),
        Outcome::Enqueue { front: false, params: 4 }
    ));
    assert!(matches!(
        leader_outcome::<u8, u8>(Err(4), true),
        Outcome::Enqueue { front: true, params: 4 }
    ));
}

#[test]
fn settle_the_leader_by_hand() {
    let mut q: Queue = SemaphoreBuilder::fifo().with_state(Counter(0));
    let Start::Queued { ticket, .. } = q.start_acquire(2, "a") else { panic!() };

    // Its params come out; it stays queued without them.
    assert_eq!(q.take_params(0), 2);
    // A failed attempt puts them back, and nobody is woken.
    assert!(q.settle_leader(0, Err(2)).is_none());
    assert!(matches!(q.poll_waiter(ticket, "a"), WaiterPoll::Pending));

    // A successful one lets it go with the permit, and hands back its waker.
    assert_eq!(q.take_params(0), 2);
    assert_eq!(q.settle_leader(0, Ok(2)), Some("a"));
    assert!(matches!(q.poll_waiter(ticket, "a"), WaiterPoll::Granted(2)));
}

#[test]
fn dead_waiter_is_skipped() {
    // A waiter whose params are gone (as after a panic in `acquire`) can never be
    // served; the live waiter behind it is.
    let mut q: Queue = SemaphoreBuilder::fifo().with_state(Counter(0));
    let Start::Queued { ticket: dead, .. } = q.start_acquire(1, "dead") else { panic!() };
    let Start::Queued { ticket: live, .. } = q.start_acquire(1, "live") else { panic!() };
    assert_eq!(q.take_params(0), 1);

    let (_, woken) = q.with_state(|c| c.0 = 2);
    assert_eq!(woken, vec!["live"]);
    assert!(matches!(q.poll_waiter(live, "live"), WaiterPoll::Granted(1)));
    assert!(matches!(q.poll_waiter(dead, "dead"), WaiterPoll::Pending));
    // Its request cannot be collected after a close either; cancelling it
    // removes it.
    assert!(q.cancel_waiter(dead).is_empty());
    assert!(matches!(q.poll_waiter(dead, "dead"), WaiterPoll::Unknown));
    assert!(q.can_enqueue());
}

#[test]
fn pool_state_without_connections() {
    let mut p = PoolState::new(2);
    assert_eq!(p.len(), 0);
    assert!(p.empty());

    // Nothing idle: acquiring finds no connection.
    assert!(p.acquire(()).is_err());

    // An empty pool reserves a new connection without asking whether it is time.
    assert!(p.reserve_new(|| panic!("not asked when the pool is empty")));
    assert_eq!(p.len(), 1);
    // Otherwise it asks.
    assert!(!p.reserve_new(|| false));
    assert!(p.reserve_new(|| true));
    assert_eq!(p.len(), 2);
    // At the limit it refuses, without asking.
    assert!(!p.reserve_new(|| panic!("not asked at the limit")));
    // Handed out at the limit: acquiring fails.
    assert!(p.acquire(()).is_err());

    p.set_capacity(5);
    assert_eq!(p.len(), 2);
    assert!(p.reserve_new(|| true));
    assert_eq!(p.len(), 3);
}

#[test]
fn lost_params_after_close() {
    let mut q: SemaphoreQueue<Counter, Closeable, FairOrder, ()> =
        SemaphoreBuilder::fifo().closeable().with_state(Counter(0));
    let Start::Queued { ticket, .. } = q.start_acquire(1, ()) else { panic!() };
    assert_eq!(q.take_params(0), 1);
    assert_eq!(q.close().len(), 1);
    assert!(matches!(q.poll_waiter(ticket, ()), WaiterPoll::ParamsLost));
}

#[test]
fn lost_params_while_waiting_conditionally() {
    let mut q: SemaphoreQueue<Counter, Uncloseable, FairOrder, ()> =
        SemaphoreBuilder::fifo().with_state(Counter(0));
    let WhileStart::Queued(ticket) = q.start_acquire_while(1, false, (), |_, _| None::<()>) else {
        panic!()
    };
    assert_eq!(q.take_params(0), 1);
    assert!(matches!(q.poll_while(ticket, (), |_, _| None::<()>), WhilePoll::ParamsLost));
    // A task behind others does not get to try the state first.
    let _ = q.with_state(|c| c.0 = 5);
    assert!(matches!(
        q.start_acquire_while(1, false, (), |_, _| Some(7)),
        WhileStart::Gave(7)
    ));
    assert_eq!(q.with_state(|c| c.0).0, 5);
}

#[test]
fn settle_conditional_answers() {
    let mut q: SemaphoreQueue<Counter, Uncloseable, FairOrder, &'static str> =
        SemaphoreBuilder::fifo().with_state(Counter(0));
    // Giving up leaves the queue as it was.
    assert!(matches!(q.settle_while(1, false, "a", Some(9u8)), WhileStart::Gave(9)));
    assert!(matches!(q.poll_waiter(0, "x"), WaiterPoll::Unknown));
    // Otherwise the task joins the queue under the next ticket.
    let WhileStart::Queued(first) = q.settle_while(1, false, "a", None::<u8>) else { panic!() };
    assert_eq!(first, 0);
    let WhileStart::Queued(second) = q.settle_while(2, true, "b", None::<u8>) else { panic!() };
    assert_eq!(second, 1);
    // Later polls: giving up keeps the task queued; waiting swaps its waker.
    assert!(matches!(q.settle_poll_while(0, "c", Some(3u8)), WhilePoll::Gave(3)));
    assert!(matches!(q.settle_poll_while(0, "c", None::<u8>), WhilePoll::Pending));
    // The task joined at the front is served first, and wakes with the new waker.
    let (_, woken) = q.with_state(|c| c.0 = 2);
    assert_eq!(woken, vec!["c"]);
    assert!(matches!(q.poll_while(second, "y", |_, _| None::<u8>), WhilePoll::Granted(2)));
    assert!(matches!(q.poll_while(first, "y", |_, _| None::<u8>), WhilePoll::Pending));
}

#[test]
fn serving_stops_at_the_first_refusal() {
    let mut q: Queue = SemaphoreBuilder::fifo().with_state(Counter(0));
    let Start::Queued { ticket: a, .. } = q.start_acquire(2, "a") else { panic!() };
    let Start::Queued { ticket: b, .. } = q.start_acquire(3, "b") else { panic!() };
    let Start::Queued { ticket: c, .. } = q.start_acquire(1, "c") else { panic!() };
    // Four permits: `a` takes two, `b` is refused, and `c` behind it waits.
    let (_, woken) = q.with_state(|s| s.0 = 4);
    assert_eq!(woken, vec!["a"]);
    assert_eq!(q.with_state(|s| s.0).0, 2);
    assert!(matches!(q.poll_waiter(a, "a"), WaiterPoll::Granted(2)));
    assert!(matches!(q.poll_waiter(b, "b"), WaiterPoll::Pending));
    assert!(matches!(q.poll_waiter(c, "c"), WaiterPoll::Pending));
}
