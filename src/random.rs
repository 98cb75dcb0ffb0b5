use vstd::prelude::*;

verus! {

/// Relies on `rand::random`: a number from the thread-local generator. Nothing is known of it.
#[verifier::external_body]
pub fn random_draw() -> (r: u64) {
    rand::random::<u64>()
}

} // verus!
