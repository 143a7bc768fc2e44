//! The engine's only source of randomness.

use vstd::prelude::*;

verus! {

/// Relies on `rand::random`: draws one machine-word integer from the
/// thread-local generator. Nothing is promised of the value; callers must
/// reduce it to the range they need and cope with every outcome.
#[verifier::external_body]
pub(crate) fn random_usize() -> usize {
    rand::random::<usize>()
}

} // verus!
