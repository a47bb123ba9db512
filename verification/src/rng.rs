//! Random numbers drawn from the thread-local generator of `rand`.
use vstd::prelude::*;

verus! {

/// `rand::random::<u32>()`: a number drawn at random; any value may come.
#[verifier::external_body]
pub(crate) fn random_u32() -> u32 {
    rand::random::<u32>()
}

/// `rand::random::<u64>()`: a number drawn at random; any value may come.
#[verifier::external_body]
pub(crate) fn random_u64() -> u64 {
    rand::random::<u64>()
}

} // verus!
