use vstd::prelude::*;

mod private;

verus! {

/// Whether the semaphore is closeable.
///
/// Only [`Closeable`] semaphores offer `close`; an [`Uncloseable`] one can never
/// report that it is closed.
pub trait IsCloseable: private::Sealed {
    /// Whether semaphores of this kind can ever be closed.
    spec fn can_close() -> bool;

    /// Executable form of [`IsCloseable::can_close`].
    fn closes() -> (b: bool)
        ensures
            b == Self::can_close(),
    ;
}

/// Controls whether a semaphore is closeable.
///
/// This is a marker: no value of it is ever made.
pub struct Closeable {
    unconstructible: (),
}

/// Controls whether a semaphore is not closeable.
///
/// No value of this type can exist, so an
/// [`AcquireError<Uncloseable>`](crate::error::AcquireError) cannot either.
pub struct Uncloseable {
    unconstructible: (),
}

impl Uncloseable {
    /// Whether a value of this type can exist: it cannot.
    #[verifier::type_invariant]
    pub open spec fn inhabited(self) -> bool {
        false
    }
}

impl private::Sealed for Closeable {
}

impl private::Sealed for Uncloseable {
}

impl IsCloseable for Closeable {
    open spec fn can_close() -> bool {
        true
    }

    fn closes() -> (b: bool) {
        true
    }
}

impl IsCloseable for Uncloseable {
    open spec fn can_close() -> bool {
        false
    }

    fn closes() -> (b: bool) {
        false
    }
}

} // verus!
