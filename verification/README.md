# flag_bearer

A generic semaphore: the permits are whatever a user-supplied `SemaphoreState`
says they are (a counter, a pool of connections, several limits at once), and
tasks that cannot get one wait in a fair queue, first-in-first-out,
last-in-first-out, or in a custom `Order`. A queue can be closed, and is
poisoned when user code panics while it holds the state.

## Layout

- `src/` — the library, verified with Verus.
  - `state.rs`: the `SemaphoreState` trait. Its spec functions `acquires` and
    `releases` let a state say what its methods do; the queue's contracts are
    stated over them (which requests are put to the state, in what order, and
    what its answers lead to).
  - `order.rs`: the `Order` trait, `FairOrder` and `Hybrid`; `answers` lets a
    policy say what `enqueue_front` does.
  - `closeable.rs`: `Closeable` / `Uncloseable` semaphores.
  - `error.rs`: `AcquireError`, `TryAcquireError`.
  - `queue.rs`: `SemaphoreQueue`, the waiting queue and every decision about
    it (who is served, where a new task waits, closing, poisoning, cancelling);
    `queue/model.rs` holds its mathematical model and `queue/laws.rs` the
    properties proved of it.
  - `builder.rs`: `SemaphoreBuilder`.
  - `drop_wrapper.rs`: the value-consuming drop helper behind permit guards.
  - `pool.rs`: the state of a `tokio-postgres` connection pool.
- `app/` — what surrounds the queue: the lock, the futures and wakers, the
  permit guards, the futex mutex and the Postgres pool.
- `tests/` — tests of the library.
