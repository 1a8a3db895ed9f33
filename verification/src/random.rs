//! The random source: the thread-local generator of the `rand` crate.

use vstd::prelude::*;

verus! {

/// Draws a byte with `rand::random::<u8>()`. The value depends on chance, so
/// nothing is claimed of it: every byte may come back. The generator is seeded
/// from the operating system on its first use in a thread, and the call fails
/// only where the system has no entropy to give.
#[verifier::external_body]
pub(crate) fn random_u8() -> (r: u8) {
    rand::random::<u8>()
}

/// Draws a machine word with `rand::random::<usize>()`. The value depends on
/// chance, so nothing is claimed of it: every word may come back. It shares
/// its generator with the draw of a byte.
#[verifier::external_body]
pub(crate) fn random_usize() -> (r: usize) {
    rand::random::<usize>()
}

} // verus!
