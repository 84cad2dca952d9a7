use vstd::prelude::*;

use tokio_postgres::Client;

use crate::state::SemaphoreState;

verus! {

#[verifier::external_type_specification]
#[verifier::external_body]
pub struct ExClient(Client);

/// `tokio_postgres::Client::is_closed`: whether the connection to the server has
/// already closed. That depends on the connection's life, not on anything passed
/// in, so nothing is stated of the answer.
#[verifier::external_body]
fn client_is_closed(conn: &Client) -> bool {
    conn.is_closed()
}

/// The state of a connection pool: at most `max` connections are handed out at
/// once, and idle ones are kept for reuse.
pub struct PoolState {
    max: usize,
    taken: usize,
    conns: Vec<Client>,
}

impl PoolState {
    /// At most `max` connections idle, and the count of all of them fits in a
    /// `usize`.
    pub closed spec fn wf(self) -> bool {
        &&& self.conns@.len() <= self.max
        &&& self.conns@.len() + self.taken <= usize::MAX
    }

    /// The most connections handed out at once.
    pub closed spec fn limit(self) -> usize {
        self.max
    }

    /// How many connections are handed out.
    pub closed spec fn in_use(self) -> usize {
        self.taken
    }

    /// The idle connections, the next to be handed out last.
    pub closed spec fn idle(self) -> Seq<Client> {
        self.conns@
    }

    /// A pool handing out at most `max` connections, with none yet.
    pub fn new(max: usize) -> (p: Self)
        ensures
            p.wf(),
            p.limit() == max,
            p.in_use() == 0,
            p.idle() == Seq::<Client>::empty(),
    {
        PoolState { max, taken: 0, conns: Vec::new() }
    }

    /// The connections of the pool: idle ones and those handed out.
    pub fn len(&self) -> (n: usize)
        requires
            self.wf(),
        ensures
            n == self.idle().len() + self.in_use(),
    {
        self.conns.len() + self.taken
    }

    /// Whether the pool has no connection at all.
    pub fn empty(&self) -> (b: bool)
        requires
            self.wf(),
        ensures
            b == (self.idle().len() + self.in_use() == 0),
    {
        self.len() == 0
    }

    /// Change the most connections handed out at once, dropping idle ones beyond
    /// it.
    pub fn set_capacity(&mut self, capacity: usize)
        ensures
            old(self).wf() ==> final(self).wf(),
            final(self).limit() == capacity,
            final(self).in_use() == old(self).in_use(),
            final(self).idle() == old(self).idle().take(
                if old(self).idle().len() > capacity {
                    capacity as int
                } else {
                    old(self).idle().len() as int
                },
            ),
    {
        while self.conns.len() > capacity
            invariant
                old(self).wf() ==> self.conns@.len() + self.taken <= usize::MAX,
                self.taken == old(self).taken,
                self.max == old(self).max,
                self.conns@.len() <= old(self).conns@.len(),
                old(self).conns@.len() > capacity ==> self.conns@ == old(self).conns@.take(
                    self.conns@.len() as int,
                ) && self.conns@.len() >= capacity,
                old(self).conns@.len() <= capacity ==> self.conns@ == old(self).conns@,
            decreases self.conns@.len(),
        {
            let ghost prev = self.conns@;
            self.conns.pop();
            assert(old(self).conns@.len() > capacity);
            assert(prev == old(self).conns@.take(prev.len() as int));
            assert(self.conns@ =~= old(self).conns@.take(self.conns@.len() as int));
        }
        self.max = capacity;
        assert(old(self).conns@.len() <= capacity ==> self.conns@ =~= old(self).conns@.take(
            old(self).conns@.len() as int,
        ));
    }

    /// Reserve room for a new connection when there is room below the limit and
    /// either the pool has no connection at all or `ready()` (asked only then)
    /// says it is time to open one. Returns whether room was reserved.
    pub fn reserve_new<F: FnOnce() -> bool>(&mut self, ready: F) -> (reserved: bool)
        requires
            old(self).wf(),
            call_requires(ready, ()),
        ensures
            final(self).wf(),
            final(self).limit() == old(self).limit(),
            final(self).idle() == old(self).idle(),
            reserved ==> old(self).idle().len() + old(self).in_use() < old(self).limit()
                && final(self).in_use() == old(self).in_use() + 1,
            !reserved ==> final(self).in_use() == old(self).in_use(),
            old(self).idle().len() + old(self).in_use() < old(self).limit() && old(self).idle().len()
                + old(self).in_use() == 0 ==> reserved,
            old(self).idle().len() + old(self).in_use() >= old(self).limit() ==> !reserved,
            reserved && old(self).idle().len() + old(self).in_use() > 0 ==> call_ensures(
                ready,
                (),
                true,
            ),
            !reserved && 0 < old(self).idle().len() + old(self).in_use() < old(self).limit()
                ==> call_ensures(ready, (), false),
    {
        if self.len() < self.max && (self.empty() || ready()) {
            self.taken = self.taken + 1;
            true
        } else {
            false
        }
    }
}

impl PoolState {
    /// Hand out `conn`, just taken from the idle ones, if it is still open
    /// (`open`): one more connection is then in use. A closed one is dropped.
    pub fn take_if_open(&mut self, conn: Client, open: bool) -> (r: Option<Client>)
        requires
            old(self).in_use() < old(self).limit(),
        ensures
            final(self).limit() == old(self).limit(),
            final(self).idle() == old(self).idle(),
            open ==> r == Some(conn) && final(self).in_use() == old(self).in_use() + 1,
            !open ==> r is None && final(self).in_use() == old(self).in_use(),
    {
        if open {
            self.taken = self.taken + 1;
            Some(conn)
        } else {
            None
        }
    }

    /// Take `conn` back: one fewer connection is in use (never below none), and
    /// it joins the idle ones if it is still open (`open`) and there is room.
    pub fn return_conn(&mut self, conn: Client, open: bool)
        ensures
            old(self).wf() ==> final(self).wf(),
            final(self).limit() == old(self).limit(),
            final(self).in_use() == if old(self).in_use() > 0 {
                old(self).in_use() - 1
            } else {
                0
            },
            open && old(self).idle().len() < old(self).limit() ==> final(self).idle() == old(
                self,
            ).idle().push(conn),
            !(open && old(self).idle().len() < old(self).limit()) ==> final(self).idle() == old(
                self,
            ).idle(),
    {
        if self.taken > 0 {
            self.taken = self.taken - 1;
        }
        if self.conns.len() < self.max && open {
            self.conns.push(conn);
        }
    }
}

impl SemaphoreState for PoolState {
    type Params = ();

    type Permit = Client;

    /// Below the limit, idle connections are taken from the most recently
    /// returned one back: the first open one is handed out, the closed ones met
    /// before it are dropped, and with none open nothing is handed out. At the
    /// limit nothing changes and nothing is handed out.
    open spec fn acquires(&self, params: (), after: Self, r: Result<Client, ()>) -> bool {
        &&& after.limit() == self.limit()
        &&& self.in_use() >= self.limit() ==> r is Err && after == *self
        &&& self.in_use() < self.limit() ==> {
            &&& after.idle().len() <= self.idle().len()
            &&& after.idle() == self.idle().take(after.idle().len() as int)
            &&& r matches Ok(c) ==> {
                &&& after.idle().len() < self.idle().len()
                &&& c == self.idle()[after.idle().len() as int]
                &&& after.in_use() == self.in_use() + 1
            }
            &&& r is Err ==> after.idle().len() == 0 && after.in_use() == self.in_use()
        }
    }

    /// One fewer connection is in use (never below none), and the connection
    /// joins the idle ones if it is still open and there is room.
    open spec fn releases(&self, conn: Client, after: Self) -> bool {
        &&& after.limit() == self.limit()
        &&& after.in_use() == if self.in_use() > 0 {
            self.in_use() - 1
        } else {
            0
        }
        &&& after.idle() == self.idle() || (self.idle().len() < self.limit() && after.idle()
            == self.idle().push(conn))
        &&& self.idle().len() >= self.limit() ==> after.idle() == self.idle()
    }

    /// Hand out the most recently returned connection that is still open, while
    /// fewer than the limit are handed out. Closed idle connections met on the way
    /// are dropped.
    fn acquire(&mut self, params: ()) -> (r: Result<Client, ()>)
        ensures
            old(self).wf() ==> final(self).wf(),
            final(self).limit() == old(self).limit(),
            old(self).in_use() >= old(self).limit() ==> r is Err && *final(self) == *old(self),
            old(self).in_use() < old(self).limit() ==> {
                &&& final(self).idle().len() <= old(self).idle().len()
                &&& final(self).idle() == old(self).idle().take(final(self).idle().len() as int)
                &&& r matches Ok(c) ==> {
                    &&& final(self).idle().len() < old(self).idle().len()
                    &&& c == old(self).idle()[final(self).idle().len() as int]
                    &&& final(self).in_use() == old(self).in_use() + 1
                }
                &&& r is Err ==> final(self).idle().len() == 0 && final(self).in_use()
                    == old(self).in_use()
            },
    {
        if self.taken >= self.max {
            return Err(());
        }
        while self.conns.len() > 0
            invariant
                self.taken == old(self).taken,
                self.max == old(self).max,
                self.taken < self.max,
                self.conns@.len() <= old(self).conns@.len(),
                self.conns@ == old(self).conns@.take(self.conns@.len() as int),
            decreases self.conns@.len(),
        {
            let ghost prev = self.conns@;
            let conn = self.conns.pop().unwrap();
            assert(self.conns@ =~= prev.take(prev.len() - 1));
            assert(self.conns@ =~= old(self).conns@.take(self.conns@.len() as int));
            let open = !client_is_closed(&conn);
            if let Some(conn) = self.take_if_open(conn, open) {
                return Ok(conn);
            }
        }
        Err(())
    }

    /// Take a connection back: one fewer is handed out (never below none), and it
    /// joins the idle ones if it is still open and there is room.
    fn release(&mut self, conn: Client)
        ensures
            old(self).wf() ==> final(self).wf(),
            final(self).limit() == old(self).limit(),
            final(self).in_use() == if old(self).in_use() > 0 {
                old(self).in_use() - 1
            } else {
                0
            },
            final(self).idle() == old(self).idle() || (old(self).idle().len() < old(self).limit()
                && final(self).idle() == old(self).idle().push(conn)),
            old(self).idle().len() >= old(self).limit() ==> final(self).idle() == old(self).idle(),
    {
        let open = !client_is_closed(&conn);
        self.return_conn(conn, open);
    }
}

} // verus!
