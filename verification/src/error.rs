use vstd::prelude::*;

use crate::closeable::Uncloseable;

verus! {

/// The error returned when acquiring from a closed semaphore queue.
///
/// Closing the semaphore makes all current and new acquire calls return this
/// error, carrying the params of the request back.
#[non_exhaustive]
#[derive(Debug, PartialEq, Eq)]
pub struct AcquireError<P> {
    /// The params that was used in the acquire request
    pub params: P,
}

impl<P> AcquireError<P> {
    /// The error for a request made with `params`.
    pub fn new(params: P) -> (e: Self)
        ensures
            e.params == params,
    {
        AcquireError { params }
    }
}

impl<P> AcquireError<P> {
    /// The text the error is shown with.
    pub fn message(&self) -> (s: &'static str)
        ensures
            s@ == "semaphore closed"@,
    {
        "semaphore closed"
    }
}

impl AcquireError<Uncloseable> {
    /// Since an [`Uncloseable`] semaphore can never be closed, there can
    /// never be such an error. This allows for unwrapping with type-safety.
    ///
    /// It never returns: a call would need a value of [`Uncloseable`], and none
    /// can exist.
    pub fn never<T>(self) -> (t: T)
        ensures
            self.params.inhabited(),
    {
        proof {
            use_type_invariant(&self.params);
        }
        vstd::pervasive::unreached()
    }
}

/// The error returned by `try_acquire`.
#[derive(Debug, PartialEq, Eq)]
pub enum TryAcquireError<P> {
    /// The semaphore had no permits to give out right now.
    NoPermits(P),
    /// The semaphore is closed.
    Closed(AcquireError<P>),
    /// The semaphore is poisoned: a previous `SemaphoreState::acquire`
    /// call panicked. The params are handed back unused.
    Poisoned(P),
}

impl<P> TryAcquireError<P> {
    /// The text the error is shown with.
    pub fn message(&self) -> (s: &'static str)
        ensures
            match self {
                TryAcquireError::Closed(_) => s@ == "semaphore closed"@,
                TryAcquireError::NoPermits(_) => s@ == "no permits available"@,
                TryAcquireError::Poisoned(_) => s@ == "semaphore poisoned"@,
            },
    {
        match self {
            TryAcquireError::Closed(_) => "semaphore closed",
            TryAcquireError::NoPermits(_) => "no permits available",
            TryAcquireError::Poisoned(_) => "semaphore poisoned",
        }
    }
}

} // verus!
