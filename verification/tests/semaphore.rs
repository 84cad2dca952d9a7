use std::cell::RefCell;

use flag_bearer::builder::SemaphoreBuilder;
use flag_bearer::closeable::Uncloseable;
use flag_bearer::error::TryAcquireError as QueueTryAcquireError;
use flag_bearer::order::FairOrder;
use flag_bearer::queue::{SemaphoreQueue, Start, WaiterPoll};
use flag_bearer::state::SemaphoreState;

#[derive(Debug)]
struct SemaphoreCounter(usize);

impl SemaphoreState for SemaphoreCounter {
    /// Number of permits to acquire
    type Params = usize;

    /// Number of permits that have been acquired
    type Permit = usize;

    fn acquire(&mut self, params: Self::Params) -> Result<Self::Permit, Self::Params> {
        if params <= self.0 {
            self.0 -= params;
            Ok(params)
        } else {
            Err(params)
        }
    }

    fn release(&mut self, permit: Self::Permit) {
        self.0 = self.0.checked_add(permit).unwrap()
    }
}

type Queue = SemaphoreQueue<SemaphoreCounter, Uncloseable, FairOrder, ()>;

pub struct Semaphore(RefCell<Queue>);

pub struct Permit<'a> {
    sem: &'a Semaphore,
    permits: Option<usize>,
}

pub struct Acquire<'a> {
    sem: &'a Semaphore,
    params: Option<usize>,
    ticket: Option<u64>,
}

#[derive(Debug)]
pub enum TryAcquireError {
    NoPermits,
    Closed,
}

impl Semaphore {
    pub const MAX_PERMITS: usize = usize::MAX;

    pub fn new(count: usize) -> Self {
        Self(RefCell::new(SemaphoreBuilder::fifo().with_state(SemaphoreCounter(count))))
    }

    pub fn acquire(&self) -> Acquire<'_> {
        self.acquire_many(1)
    }

    pub fn acquire_many(&self, n: usize) -> Acquire<'_> {
        Acquire { sem: self, params: Some(n), ticket: None }
    }

    pub fn try_acquire(&self) -> Result<Permit<'_>, TryAcquireError> {
        self.try_acquire_many(1)
    }

    fn try_acquire_with(&self, n: usize, fair: bool) -> Result<Permit<'_>, TryAcquireError> {
        match self.0.borrow_mut().try_acquire(n, fair) {
            Ok(permits) => Ok(Permit { sem: self, permits: Some(permits) }),
            Err(QueueTryAcquireError::NoPermits(_)) => Err(TryAcquireError::NoPermits),
            Err(QueueTryAcquireError::Closed(_)) => Err(TryAcquireError::Closed),
            Err(QueueTryAcquireError::Poisoned(_)) => panic!("poisoned"),
        }
    }

    pub fn try_acquire_many(&self, n: usize) -> Result<Permit<'_>, TryAcquireError> {
        self.try_acquire_with(n, true)
    }

    pub fn try_acquire_many_unfair(&self, n: usize) -> Result<Permit<'_>, TryAcquireError> {
        self.try_acquire_with(n, false)
    }

    pub fn add_permits(&self, n: usize) {
        self.0.borrow_mut().with_state(|s| s.0 = s.0.checked_add(n).unwrap());
    }

    pub fn available_permits(&self) -> usize {
        self.0.borrow_mut().with_state(|s| s.0).0
    }
}

impl<'a> Acquire<'a> {
    /// One poll of the acquisition: `Some` once it holds its permit.
    pub fn poll(&mut self) -> Option<Permit<'a>> {
        let mut q = self.sem.0.borrow_mut();
        match self.ticket {
            None => match q.start_acquire(self.params.take().unwrap(), ()) {
                Start::Acquired(permits) => Some(Permit { sem: self.sem, permits: Some(permits) }),
                Start::Queued { ticket, .. } => {
                    self.ticket = Some(ticket);
                    None
                }
                _ => panic!("the semaphore can be neither closed nor poisoned"),
            },
            Some(ticket) => match q.poll_waiter(ticket, ()) {
                WaiterPoll::Pending => None,
                WaiterPoll::Granted(permits) => {
                    self.ticket = None;
                    Some(Permit { sem: self.sem, permits: Some(permits) })
                }
                _ => panic!("the waiter should be known and the semaphore open"),
            },
        }
    }
}

impl Drop for Acquire<'_> {
    fn drop(&mut self) {
        if let Some(ticket) = self.ticket.take() {
            self.sem.0.borrow_mut().cancel_waiter(ticket);
        }
    }
}

impl Permit<'_> {
    pub fn num_permits(&self) -> usize {
        self.permits.unwrap()
    }

    pub fn split(&mut self, n: usize) -> Option<Self> {
        let this = self.permits.unwrap().checked_sub(n)?;
        self.permits = Some(this);
        Some(Permit { sem: self.sem, permits: Some(n) })
    }

    pub fn merge(&mut self, mut other: Self) {
        assert!(
            std::ptr::eq(self.sem, other.sem),
            "semaphores of each permit should match"
        );

        self.permits = Some(self.permits.unwrap() + other.permits.take().unwrap());
    }

    pub fn forget(mut self) {
        self.permits.take();
    }
}

impl Drop for Permit<'_> {
    fn drop(&mut self) {
        if let Some(permits) = self.permits.take() {
            self.sem.0.borrow_mut().release(permits);
        }
    }
}

#[test]
fn no_permits() {
    // this should not panic
    Semaphore::new(0);
}

#[test]
fn try_acquire() {
    let sem = Semaphore::new(1);
    {
        let p1 = sem.try_acquire();
        assert!(p1.is_ok());
        let p2 = sem.try_acquire();
        assert!(p2.is_err());
    }
    let p3 = sem.try_acquire();
    assert!(p3.is_ok());
}

#[test]
fn forget() {
    let sem = Semaphore::new(1);
    {
        let p = sem.try_acquire().unwrap();
        assert_eq!(sem.available_permits(), 0);
        p.forget();
        assert_eq!(sem.available_permits(), 0);
    }
    assert_eq!(sem.available_permits(), 0);
    assert!(sem.try_acquire().is_err());
}

#[test]
fn merge() {
    let sem = Semaphore::new(3);
    {
        let mut p1 = sem.try_acquire().unwrap();
        assert_eq!(sem.available_permits(), 2);
        let p2 = sem.try_acquire_many(2).unwrap();
        assert_eq!(sem.available_permits(), 0);
        p1.merge(p2);
        assert_eq!(sem.available_permits(), 0);
    }
    assert_eq!(sem.available_permits(), 3);
}

#[test]
#[should_panic]
fn merge_unrelated_permits() {
    let sem1 = Semaphore::new(3);
    let sem2 = Semaphore::new(3);
    let mut p1 = sem1.try_acquire().unwrap();
    let p2 = sem2.try_acquire().unwrap();
    p1.merge(p2);
}

#[test]
fn split() {
    let sem = Semaphore::new(5);
    let mut p1 = sem.try_acquire_many(3).unwrap();
    assert_eq!(sem.available_permits(), 2);
    assert_eq!(p1.num_permits(), 3);
    let mut p2 = p1.split(1).unwrap();
    assert_eq!(sem.available_permits(), 2);
    assert_eq!(p1.num_permits(), 2);
    assert_eq!(p2.num_permits(), 1);
    let p3 = p1.split(0).unwrap();
    assert_eq!(p3.num_permits(), 0);
    drop(p1);
    assert_eq!(sem.available_permits(), 4);
    let p4 = p2.split(1).unwrap();
    assert_eq!(p2.num_permits(), 0);
    assert_eq!(p4.num_permits(), 1);
    assert!(p2.split(1).is_none());
    drop(p2);
    assert_eq!(sem.available_permits(), 4);
    drop(p3);
    assert_eq!(sem.available_permits(), 4);
    drop(p4);
    assert_eq!(sem.available_permits(), 5);
}

#[test]
#[should_panic]
fn add_more_than_max_amount_permits2() {
    let s = Semaphore::new(Semaphore::MAX_PERMITS - 1);
    s.add_permits(1);
    s.add_permits(1);
}

#[test]
fn no_panic_at_maxpermits() {
    let _ = Semaphore::new(Semaphore::MAX_PERMITS);
    let s = Semaphore::new(Semaphore::MAX_PERMITS - 1);
    s.add_permits(1);
}

#[test]
fn fifo_order() {
    let s = Semaphore::new(0);
    let mut a1 = s.acquire_many(3);
    let mut a2 = s.acquire_many(2);
    let mut a3 = s.acquire_many(1);

    assert!(a1.poll().is_none());
    assert!(a2.poll().is_none());
    assert!(a3.poll().is_none());

    s.add_permits(1);
    assert!(a1.poll().is_none());
    assert!(a2.poll().is_none());
    assert!(a3.poll().is_none());

    s.add_permits(1);
    assert!(a1.poll().is_none());
    assert!(a2.poll().is_none());
    assert!(a3.poll().is_none());

    s.add_permits(1);
    assert!(a2.poll().is_none());
    assert!(a3.poll().is_none());
    let Some(p1) = a1.poll() else { panic!() };

    assert!(a2.poll().is_none());
    assert!(a3.poll().is_none());

    drop(p1);
    let Some(_p3) = a3.poll() else { panic!() };
    let Some(_p2) = a2.poll() else { panic!() };
}

#[test]
fn fifo_unfair() {
    let s = Semaphore::new(1);
    let mut a1 = s.acquire_many(3);

    assert!(a1.poll().is_none());

    assert!(s.try_acquire_many(1).is_err());
    assert!(s.try_acquire_many_unfair(1).is_ok());
}

#[test]
fn fifo_cancel_head_of_line_blocker() {
    // A waiter that cannot be served blocks the one behind it; once it gives up,
    // the one behind it is served.
    let s = Semaphore::new(1);
    let mut big = s.acquire_many(2);
    let mut small = s.acquire_many(1);
    // `big` cannot be served, so `small` queues behind it even though a permit is free.
    assert!(big.poll().is_none());
    assert!(small.poll().is_none());
    assert_eq!(s.available_permits(), 1);
    drop(big);
    let Some(p) = small.poll() else { panic!("small should be served") };
    assert_eq!(p.num_permits(), 1);
    assert_eq!(s.available_permits(), 0);
}

#[test]
fn cancel_after_grant_returns_permit() {
    // A waiter granted a permit that it never collected gives it back when it is
    // dropped.
    let s = Semaphore::new(0);
    let mut a = s.acquire_many(2);
    assert!(a.poll().is_none());
    s.add_permits(2);
    assert_eq!(s.available_permits(), 0);
    drop(a);
    assert_eq!(s.available_permits(), 2);
}

