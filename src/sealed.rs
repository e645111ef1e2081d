//! The closed sets of the crate: permission tags and register integer types.
use vstd::prelude::*;

verus! {

/// Implemented only inside this crate, so that the permission tags and the register integer
/// types form closed sets.
pub trait Sealed {}

} // verus!
