use vstd::prelude::*;

verus! {

/// Seals [`IsCloseable`](super::IsCloseable): only this crate names its kinds.
pub trait Sealed {
}

} // verus!
