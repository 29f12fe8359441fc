//! Random numbers for names that must not collide.
use vstd::prelude::*;

verus! {

/// Calls `rand::random::<u64>`. Nothing is claimed of the number: any may come.
#[verifier::external_body]
pub(crate) fn random_u64() -> (number: u64) {
    rand::random::<u64>()
}

/// Calls `rand::random::<u128>`. Nothing is claimed of the number: any may come.
#[verifier::external_body]
pub(crate) fn random_u128() -> (number: u128) {
    rand::random::<u128>()
}

} // verus!
