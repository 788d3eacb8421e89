use vstd::prelude::*;

verus! {

/// Calls `rand::random` for one byte. Nothing is known of the byte.
#[verifier::external_body]
pub(crate) fn random_byte() -> u8 {
    rand::random()
}

} // verus!
