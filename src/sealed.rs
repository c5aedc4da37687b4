use vstd::prelude::*;

verus! {

/// Closes [`crate::relin_key_gen::Round`] to the three rounds of this crate.
pub trait Sealed {}

} // verus!
