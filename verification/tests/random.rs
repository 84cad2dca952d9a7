//! `Random` is an external order (defined here) that enqueues each waiter at the
//! front with a logistic (sigmoid) probability in the queue length — FIFO below the
//! midpoint, LIFO above.

use flag_bearer::builder::SemaphoreBuilder;
use flag_bearer::closeable::Uncloseable;
use flag_bearer::order::Order;
use flag_bearer::queue::{SemaphoreQueue, Start, WaiterPoll};
use flag_bearer::state::SemaphoreState;
use rand::{RngExt, SeedableRng};
use rand_xoshiro::Xoshiro256PlusPlus;

/// A randomized FIFO↔LIFO blend that owns its RNG.
pub struct Random<R = Xoshiro256PlusPlus> {
    /// Queue length at which P(front) = 0.5.
    pub midpoint: f64,
    /// Logistic steepness (per unit of queue length).
    pub steepness: f64,
    pub rng: R,
}

impl Random {
    /// 50% point at `midpoint`, with a default steepness that spreads the bulk of
    /// the transition over roughly `midpoint/2 ..= 3*midpoint/2`. Fixed seed, so
    /// tests are reproducible.
    pub fn new(midpoint: usize) -> Self {
        let midpoint = midpoint as f64;
        Self {
            midpoint,
            steepness: if midpoint > 0.0 { 4.0 / midpoint } else { 1.0 },
            rng: Xoshiro256PlusPlus::seed_from_u64(0x9E37_79B9_7F4A_7C15),
        }
    }
}

impl<R: rand::Rng> Order for Random<R> {
    fn enqueue_front(&mut self, queued: usize) -> bool {
        // Logistic: P(front) = 1 / (1 + e^{-steepness·(queued - midpoint)}).
        let x = self.steepness * (queued as f64 - self.midpoint);
        let p_front = 1.0 / (1.0 + (-x).exp());
        self.rng.random_bool(p_front)
    }
}

#[derive(Debug)]
struct Counter(usize);

impl SemaphoreState for Counter {
    type Params = usize;
    type Permit = usize;

    fn acquire(&mut self, n: usize) -> Result<usize, usize> {
        if n <= self.0 {
            self.0 -= n;
            Ok(n)
        } else {
            Err(n)
        }
    }

    fn release(&mut self, n: usize) {
        self.0 += n;
    }
}

#[test]
fn random_sigmoid_leans_by_queue_length() {
    // The logistic curve should keep new arrivals at the back (FIFO) well below the
    // midpoint, and send them to the front (LIFO) well above it.
    let mut order = Random::new(10);
    let trials = 1000;
    let front_when_short = (0..trials).filter(|_| order.enqueue_front(1)).count();
    let front_when_long = (0..trials).filter(|_| order.enqueue_front(100)).count();
    assert!(
        front_when_short < trials / 5,
        "queue well below midpoint should be mostly FIFO; got {front_when_short}/{trials} front",
    );
    assert!(
        front_when_long > trials * 4 / 5,
        "queue well above midpoint should be mostly LIFO; got {front_when_long}/{trials} front",
    );
}

#[test]
fn random_serves_all_waiters() {
    // Whatever sides it picks, the queue stays consistent and every waiter is
    // served once permits exist.
    let mut s: SemaphoreQueue<Counter, Uncloseable, Random, ()> =
        SemaphoreBuilder::with_order(Random::new(4)).with_state(Counter(0));

    let mut waiters = Vec::new();
    for _ in 0..20 {
        match s.start_acquire(1, ()) {
            Start::Queued { ticket, .. } => waiters.push(ticket),
            _ => panic!("every waiter should have to wait"),
        }
    }
    for &w in &waiters {
        assert!(matches!(s.poll_waiter(w, ()), WaiterPoll::Pending));
    }

    // One permit per waiter; check() drains the whole (randomly-ordered) queue.
    s.with_state(|c| c.0 += 20);

    let mut permits = Vec::new();
    for &w in &waiters {
        let WaiterPoll::Granted(p) = s.poll_waiter(w, ()) else {
            panic!("every waiter should be served once enough permits exist");
        };
        permits.push(p);
    }
    assert_eq!(permits.len(), 20);
}
