use vstd::prelude::*;

verus! {

/// Relies on `rand::random`: a uniformly drawn `u64` from the thread's
/// generator; nothing is promised of its value.
#[verifier::external_body]
pub(crate) fn random_u64() -> u64 {
    rand::random::<u64>()
}

} // verus!
