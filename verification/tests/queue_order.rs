use flag_bearer::builder::SemaphoreBuilder;
use flag_bearer::closeable::{Closeable, Uncloseable};
use flag_bearer::error::TryAcquireError;
use flag_bearer::order::{FairOrder, Order};
use flag_bearer::queue::{SemaphoreQueue, Start, WaiterPoll, WhilePoll, WhileStart};
use flag_bearer::state::SemaphoreState;

#[derive(Debug)]
struct Counter(usize);

impl SemaphoreState for Counter {
    type Params = usize;
    type Permit = usize;

    fn acquire(&mut self, n: usize) -> Result<usize, usize> {
        if n <= self.0 {
            self.0 -= n;
            Ok(n)
        } else {
            Err(n)
        }
    }

    fn release(&mut self, n: usize) {
        self.0 += n;
    }
}

type Queue<W> = SemaphoreQueue<Counter, Uncloseable, FairOrder, W>;

fn queued<T, P>(s: Start<T, P>) -> (u64, bool) {
    match s {
        Start::Queued { ticket, front } => (ticket, front),
        _ => panic!("expected to queue"),
    }
}

#[test]
fn fair_order_decisions() {
    let mut fifo = FairOrder::Fifo;
    let mut lifo = FairOrder::Lifo;
    assert!(!fifo.enqueue_front(0));
    assert!(!fifo.enqueue_front(7));
    assert!(lifo.enqueue_front(0));
    assert!(lifo.enqueue_front(7));
    assert!(lifo.is_lifo());
    assert!(!fifo.is_lifo());
}

#[test]
fn lifo_serves_newest_first() {
    let mut s: Queue<u32> = SemaphoreBuilder::lifo().with_state(Counter(0));
    let (a1, f1) = queued(s.start_acquire(1, 1));
    let (a2, f2) = queued(s.start_acquire(1, 2));
    let (a3, f3) = queued(s.start_acquire(1, 3));
    assert!(f1 && f2 && f3);
    // Tickets are handed out in order, each new.
    assert_eq!((a1, a2, a3), (0, 1, 2));

    // One permit: the newest waiter gets it, and only its waker is returned.
    let (_, woken) = s.with_state(|c| c.0 += 1);
    assert_eq!(woken, vec![3]);
    assert!(matches!(s.poll_waiter(a3, 3), WaiterPoll::Granted(1)));
    assert!(matches!(s.poll_waiter(a1, 1), WaiterPoll::Pending));

    // Two more: a2 then a1.
    let (_, woken) = s.with_state(|c| c.0 += 2);
    assert_eq!(woken, vec![2, 1]);
}

#[test]
fn fifo_serves_in_request_order() {
    let mut s: Queue<u32> = SemaphoreBuilder::fifo().with_state(Counter(0));
    let (_, f1) = queued(s.start_acquire(2, 1));
    let (_, f2) = queued(s.start_acquire(1, 2));
    assert!(!f1 && !f2);
    // One permit is not enough for the head, so nobody is served.
    let (_, woken) = s.with_state(|c| c.0 += 1);
    assert!(woken.is_empty());
    // Two more: the head takes two, then the second its one.
    let (_, woken) = s.with_state(|c| c.0 += 2);
    assert_eq!(woken, vec![1, 2]);
    assert_eq!(s.with_state(|c| c.0).0, 0);
}

#[test]
fn fair_try_acquire_respects_waiters() {
    // FIFO: a waiter ahead means a fair try fails without touching the state.
    let mut s: Queue<()> = SemaphoreBuilder::fifo().with_state(Counter(1));
    let _ = queued(s.start_acquire(3, ()));
    assert!(matches!(s.try_acquire(1, true), Err(TryAcquireError::NoPermits(1))));
    assert_eq!(s.with_state(|c| c.0).0, 1);
    // Unfair: it tries anyway.
    assert!(matches!(s.try_acquire(1, false), Ok(1)));

    // LIFO: a new caller goes ahead of the waiters.
    let mut s: Queue<()> = SemaphoreBuilder::lifo().with_state(Counter(1));
    let _ = queued(s.start_acquire(3, ()));
    assert!(matches!(s.try_acquire(1, true), Ok(1)));
    assert!(matches!(s.try_acquire(1, true), Err(TryAcquireError::NoPermits(1))));
}

#[test]
fn unknown_tickets() {
    let mut s: Queue<()> = SemaphoreBuilder::fifo().with_state(Counter(0));
    assert!(matches!(s.poll_waiter(42, ()), WaiterPoll::Unknown));
    assert!(s.cancel_waiter(42).is_empty());
    assert!(!s.is_poisoned());
    s.clear_poison();
    assert!(!s.is_poisoned());
}

#[test]
fn cancel_forgets_uncollected_close() {
    let mut s: SemaphoreQueue<Counter, Closeable, FairOrder, ()> =
        SemaphoreBuilder::fifo().closeable().with_state(Counter(0));
    let (a, _) = queued(s.start_acquire(1, ()));
    s.close();
    assert!(s.cancel_waiter(a).is_empty());
    assert!(matches!(s.poll_waiter(a, ()), WaiterPoll::Unknown));
}

#[test]
fn acquire_while_flows() {
    let mut s: Queue<()> = SemaphoreBuilder::fifo().with_state(Counter(1));
    // Served at once.
    assert!(matches!(s.start_acquire_while(1, false, (), |_, _| None::<()>), WhileStart::Acquired(1)));
    // No permit: the condition gives up.
    assert!(matches!(
        s.start_acquire_while(1, false, (), |_, p: &usize| Some(*p * 10)),
        WhileStart::Gave(10)
    ));
    // No permit: the condition lets it wait.
    let WhileStart::Queued(t) = s.start_acquire_while(2, false, (), |_, _| None::<()>) else {
        panic!("should queue")
    };
    // While queued, the condition is asked again; it may give up.
    assert!(matches!(s.poll_while(t, (), |_, p: &usize| Some(*p)), WhilePoll::Gave(2)));
    assert!(matches!(s.poll_while(t, (), |_, _| None::<usize>), WhilePoll::Pending));
    // Permits come back: it is served and collects.
    let (_, woken) = s.with_state(|c| c.0 += 2);
    assert_eq!(woken.len(), 1);
    assert!(matches!(s.poll_while(t, (), |_, _| None::<usize>), WhilePoll::Granted(2)));
    assert!(matches!(s.poll_while(t, (), |_, _| None::<usize>), WhilePoll::Unknown));

    // Withdrawing a queued conditional acquisition just removes it.
    let WhileStart::Queued(t) = s.start_acquire_while(5, false, (), |_, _| None::<()>) else {
        panic!("should queue")
    };
    assert!(s.withdraw(t).is_empty());
    assert!(matches!(s.poll_while(t, (), |_, _| None::<usize>), WhilePoll::Unknown));
}

struct Conn(usize);

#[derive(Default)]
struct Pool {
    objects: Vec<Conn>,
}

impl SemaphoreState for Pool {
    type Params = ();
    type Permit = Conn;

    fn acquire(&mut self, params: Self::Params) -> Result<Self::Permit, Self::Params> {
        self.objects.pop().ok_or(params)
    }

    fn release(&mut self, permit: Self::Permit) {
        self.objects.push(permit);
    }
}

#[test]
fn pool() {
    let mut pool: SemaphoreQueue<Pool, Uncloseable, FairOrder, ()> =
        SemaphoreBuilder::lifo().with_state(Pool::default());

    pool.with_state(|s| {
        s.objects.push(Conn(0));
        s.objects.push(Conn(1));
    });

    let Start::Acquired(mut conn1) = pool.start_acquire((), ()) else { panic!() };
    assert_eq!(conn1.0, 1);
    conn1.0 = 11;

    let Start::Acquired(mut conn0) = pool.start_acquire((), ()) else { panic!() };
    assert_eq!(conn0.0, 0);
    conn0.0 = 10;

    pool.release(conn1);
    pool.release(conn0);

    let Start::Acquired(conn0) = pool.start_acquire((), ()) else { panic!() };
    assert_eq!(conn0.0, 10);
}
