use vstd::prelude::*;

verus! {

/// Closes [`crate::CacheMode`] to the modes of this crate: the trait is public
/// but lives in a private module, so no other crate can implement it.
pub trait Sealed {}

} // verus!
