use vstd::prelude::*;

verus! {

/// The trait defining how semaphores behave.
///
/// The usage of this state is as follows: lock the semaphore, call
/// [`acquire`](SemaphoreState::acquire); on `Err(params)` wait and try again
/// later with the params handed back; return permits with
/// [`release`](SemaphoreState::release).
pub trait SemaphoreState: Sized {
    /// What type is used to request permits.
    ///
    /// An example of this could be `usize` for a counting semaphore,
    /// if you want to support `acquire_many` type requests.
    type Params;

    /// The type representing the current permit allocation.
    ///
    /// If you have a counting semaphore, this could be the number
    /// of permits acquired. If this is more like a connection pool,
    /// this could be a specific object allocation.
    type Permit;

    /// Acquire a permit given the params.
    ///
    /// If a permit could not be acquired with the given params,
    /// return an error with the params handed back unchanged.
    fn acquire(&mut self, params: Self::Params) -> (r: Result<Self::Permit, Self::Params>)
        ensures
            r matches Err(p) ==> p == params,
            old(self).acquires(params, *final(self), r),
    ;

    /// Return the permit back to the semaphore.
    ///
    /// Note: This is not guaranteed to be called for every acquire call.
    /// Permits can be modified or forgotten, or created at will.
    fn release(&mut self, permit: Self::Permit)
        ensures
            old(self).releases(permit, *final(self)),
    ;

    /// What [`acquire`](SemaphoreState::acquire) may do: from this state, with
    /// `params`, answer `r` and leave the state `after`. A state whose behaviour
    /// is fixed states it here; by default nothing is known of it.
    open spec fn acquires(&self, params: Self::Params, after: Self, r: Result<Self::Permit, Self::Params>) -> bool {
        true
    }

    /// What [`release`](SemaphoreState::release) may do: from this state, take
    /// `permit` back and leave the state `after`. By default nothing is known of
    /// it.
    open spec fn releases(&self, permit: Self::Permit, after: Self) -> bool {
        true
    }
}

} // verus!
