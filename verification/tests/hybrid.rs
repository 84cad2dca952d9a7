//! `SemaphoreBuilder::hybrid(lifo_above)` enqueues FIFO while the queue is short
//! and LIFO once it grows past the threshold.

use flag_bearer::builder::SemaphoreBuilder;
use flag_bearer::closeable::Uncloseable;
use flag_bearer::order::{Hybrid, Order};
use flag_bearer::queue::{SemaphoreQueue, Start, WaiterPoll};
use flag_bearer::state::SemaphoreState;

#[derive(Debug)]
struct Counter(usize);

impl SemaphoreState for Counter {
    type Params = usize;
    type Permit = usize;

    fn acquire(&mut self, n: usize) -> Result<usize, usize> {
        if n <= self.0 {
            self.0 -= n;
            Ok(n)
        } else {
            Err(n)
        }
    }

    fn release(&mut self, n: usize) {
        self.0 += n;
    }
}

type Queue = SemaphoreQueue<Counter, Uncloseable, Hybrid, ()>;

/// The first poll of an acquisition: its ticket if it had to wait.
fn start(q: &mut Queue, n: usize) -> Option<u64> {
    match q.start_acquire(n, ()) {
        Start::Queued { ticket, .. } => Some(ticket),
        Start::Acquired(_) => None,
        _ => panic!("neither closed nor poisoned"),
    }
}

fn is_pending(q: &mut Queue, ticket: u64) -> bool {
    matches!(q.poll_waiter(ticket, ()), WaiterPoll::Pending)
}

fn is_ready(q: &mut Queue, ticket: u64) -> bool {
    matches!(q.poll_waiter(ticket, ()), WaiterPoll::Granted(_))
}

#[test]
fn hybrid_switches_to_lifo_above_threshold() {
    // FIFO while <= 2 are waiting, LIFO beyond that. Starts with no permits.
    let mut s: Queue = SemaphoreBuilder::hybrid(2).with_state(Counter(0));

    // Four waiters queue up. a1/a2/a3 join while the queue is within the FIFO
    // regime (0, 1, 2 already waiting), so they line up at the back in order.
    // a4 arrives with 3 already waiting (> 2) and jumps to the front (LIFO).
    let a1 = start(&mut s, 1).expect("a1 waits");
    let a2 = start(&mut s, 1).expect("a2 waits");
    let a3 = start(&mut s, 1).expect("a3 waits");
    let a4 = start(&mut s, 1).expect("a4 waits");
    assert!(is_pending(&mut s, a1));
    assert!(is_pending(&mut s, a2));
    assert!(is_pending(&mut s, a3));
    assert!(is_pending(&mut s, a4));

    // a4 is served first, ahead of the older waiters.
    s.with_state(|c| c.0 += 1);
    assert!(is_pending(&mut s, a1));
    assert!(is_pending(&mut s, a2));
    assert!(is_pending(&mut s, a3));
    assert!(is_ready(&mut s, a4), "a4 should jump the queue under the LIFO regime");

    // Then the backlog drains in FIFO order: a1, a2, a3.
    s.with_state(|c| c.0 += 1);
    assert!(is_ready(&mut s, a1), "a1 should be served next (FIFO backlog)");

    s.with_state(|c| c.0 += 1);
    assert!(is_pending(&mut s, a3), "a2 comes before a3");
    assert!(is_ready(&mut s, a2), "a2 should be served before a3");

    s.with_state(|c| c.0 += 1);
    assert!(is_ready(&mut s, a3), "a3 should be served last");
}

#[test]
fn hybrid_decides_by_queue_length() {
    let mut h = Hybrid { lifo_above: 2 };
    assert!(!h.enqueue_front(0));
    assert!(!h.enqueue_front(2));
    assert!(h.enqueue_front(3));
    assert_eq!(h, Hybrid { lifo_above: 2 });
}
