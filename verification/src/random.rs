//! The library's single source of randomness.

use crate::fixed::{scale, Fixed};
use rand::Rng;
use vstd::prelude::*;

verus! {

/// Thirty-two bits from `rand::thread_rng().gen::<u32>()`.
///
/// Trusted: the call is made as it stands and nothing is claimed of the bits,
/// which differ from call to call. The generator is the thread-local one of the
/// `rand` crate, which seeds itself from the operating system on first use
/// and panics if the operating system gives it no seed.
#[verifier::external_body]
fn random_bits() -> (bits: u32) {
    rand::thread_rng().gen::<u32>()
}

/// A random number in `[0, 1)`: thirty-two random bits read as a binary
/// fraction.
pub fn random_fraction() -> (r: Fixed)
    ensures
        0 <= r@ < scale(),
{
    Fixed::from_fraction_bits(random_bits())
}

} // verus!
