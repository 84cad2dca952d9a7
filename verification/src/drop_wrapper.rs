use vstd::prelude::*;

verus! {

/// Something that consumes a value when it is done with it, the way a drop
/// guard hands a permit back.
pub trait Drop2: Sized {
    /// The value consumed.
    type T;

    /// Consume the value.
    fn drop(&mut self, t: Self::T)
        ensures
            old(self).consumes(t, *final(self)),
    ;

    /// What [`drop`](Drop2::drop) may do: consume `t`, leaving the consumer
    /// `after`. A consumer whose behaviour is fixed states it here (a permit
    /// guard: the permit is back in the semaphore); by default nothing is known
    /// of it.
    open spec fn consumes(&self, t: Self::T, after: Self) -> bool {
        true
    }
}

/// Keeps a value together with what consumes it when the holder is done.
pub struct DropWrapper<S: Drop2> {
    /// The value.
    pub t: S::T,
    /// What consumes it.
    pub s: S,
}

impl<S: Drop2> DropWrapper<S> {
    /// Pair `t` with what consumes it.
    pub fn new(s: S, t: S::T) -> (w: Self)
        ensures
            w.t == t,
            w.s == s,
    {
        DropWrapper { t, s }
    }

    /// Keep the value for yourself: it is not consumed.
    pub fn take(self) -> (t: S::T)
        ensures
            t == self.t,
    {
        let DropWrapper { t, s: _s } = self;
        t
    }

    /// Done: hand the value to what consumes it.
    pub fn finish(self)
        ensures
            exists|after: S| #[trigger] self.s.consumes(self.t, after),
    {
        let DropWrapper { t, mut s } = self;
        s.drop(t);
        assert(self.s.consumes(self.t, s));
    }
}

} // verus!
