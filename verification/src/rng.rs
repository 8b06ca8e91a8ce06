//! The random source: the thread-local generator of the `rand` crate.

use rand::rngs::ThreadRng;
use rand::Rng;
use vstd::prelude::*;

verus! {

/// Makes `rand::rngs::ThreadRng`, the handle to the random generator of the
/// current thread, known as an opaque type. Nothing is claimed about its
/// values.
#[verifier::external_type_specification]
#[verifier::external_body]
pub struct ExThreadRng(rand::rngs::ThreadRng);

/// Calls `Rng::gen_range` of `rand` on the half-open range from `low` to
/// `high`.
///
/// Trusted, not proved: the number returned lies in the range. Nothing is
/// claimed about which number of the range it is; `rand` draws it uniformly.
/// `gen_range` panics on an empty range, so `low` must be below `high`. The
/// generator itself stops the program only if the operating system fails to
/// supply entropy when it reseeds.
#[verifier::external_body]
pub(crate) fn gen_range(rng: &mut ThreadRng, low: u32, high: u32) -> (number: u32)
    requires
        low < high,
    ensures
        low <= number < high,
{
    rng.gen_range(low..high)
}

/// Calls `rand::thread_rng`, which hands out the generator of the current
/// thread.
///
/// Nothing is claimed about the generator. `rand` seeds it from the operating
/// system on first use in a thread and stops the program if that fails.
#[verifier::external_body]
pub(crate) fn thread_rng() -> ThreadRng {
    rand::thread_rng()
}

} // verus!
