use flag_bearer::builder::SemaphoreBuilder;
use flag_bearer::closeable::{Closeable, Uncloseable};
use flag_bearer::error::{AcquireError, TryAcquireError};
use flag_bearer::order::FairOrder;
use flag_bearer::queue::{SemaphoreQueue, Start, WaiterPoll};
use flag_bearer::state::SemaphoreState;

#[derive(Debug)]
struct Dummy;

impl SemaphoreState for Dummy {
    type Params = ();
    type Permit = ();

    fn acquire(&mut self, _params: Self::Params) -> Result<Self::Permit, Self::Params> {
        Ok(())
    }

    fn release(&mut self, _permit: Self::Permit) {}
}

#[derive(Debug)]
struct Counter(usize);

impl SemaphoreState for Counter {
    type Params = usize;
    type Permit = usize;

    fn acquire(&mut self, n: usize) -> Result<usize, usize> {
        if n <= self.0 {
            self.0 -= n;
            Ok(n)
        } else {
            Err(n)
        }
    }

    fn release(&mut self, n: usize) {
        self.0 += n;
    }
}

#[test]
fn is_closed() {
    let s: SemaphoreQueue<Dummy, Uncloseable, FairOrder, ()> =
        SemaphoreBuilder::fifo().with_state(Dummy);
    assert!(!s.is_closed());

    let mut s: SemaphoreQueue<Dummy, Closeable, FairOrder, ()> =
        SemaphoreBuilder::fifo().closeable().with_state(Dummy);
    assert!(!s.is_closed());
    s.close();
    assert!(s.is_closed());
}

#[test]
fn close_hands_params_back_to_every_waiter() {
    let mut s: SemaphoreQueue<Counter, Closeable, FairOrder, &'static str> =
        SemaphoreBuilder::fifo().closeable().with_state(Counter(0));
    let Start::Queued { ticket: a, front: false } = s.start_acquire(3, "a") else { panic!() };
    let Start::Queued { ticket: b, front: false } = s.start_acquire(5, "b") else { panic!() };

    // Closing wakes everyone who waited, front first.
    let woken = s.close();
    assert_eq!(woken, vec!["a", "b"]);
    assert!(s.is_closed());

    match s.poll_waiter(b, "b") {
        WaiterPoll::Closed(AcquireError { params, .. }) => assert_eq!(params, 5),
        _ => panic!("b should see the close"),
    }
    match s.poll_waiter(a, "a") {
        WaiterPoll::Closed(AcquireError { params, .. }) => assert_eq!(params, 3),
        _ => panic!("a should see the close"),
    }
    // Collected outcomes are forgotten.
    assert!(matches!(s.poll_waiter(a, "a"), WaiterPoll::Unknown));

    // New acquisitions fail with their params back.
    match s.try_acquire(7, true) {
        Err(TryAcquireError::Closed(AcquireError { params, .. })) => assert_eq!(params, 7),
        _ => panic!("a closed semaphore refuses"),
    }
    match s.start_acquire(9, "c") {
        Start::Closed(AcquireError { params, .. }) => assert_eq!(params, 9),
        _ => panic!("a closed semaphore refuses"),
    }
    // Closing twice changes nothing.
    assert!(s.close().is_empty());
}

#[test]
fn error_messages() {
    let e: TryAcquireError<u8> = TryAcquireError::NoPermits(1);
    assert_eq!(e.message(), "no permits available");
    let e: TryAcquireError<u8> = TryAcquireError::Closed(AcquireError::new(1));
    assert_eq!(e.message(), "semaphore closed");
    let e: TryAcquireError<u8> = TryAcquireError::Poisoned(1);
    assert_eq!(e.message(), "semaphore poisoned");
    assert_eq!(AcquireError::new(2u8).message(), "semaphore closed");
    assert_eq!(AcquireError::new(2u8).params, 2);
}
