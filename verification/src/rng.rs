//! The pool's source of randomness.

use vstd::prelude::*;

verus! {

/// Relies on rand::random: draws a 64-bit value from the thread-local
/// generator. Nothing is promised of the value.
#[verifier::external_body]
pub(crate) fn random_usize() -> usize {
    rand::random::<u64>() as usize
}

} // verus!
