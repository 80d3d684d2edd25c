//! Calls into outside crates: the random number generator and the clock.

use vstd::prelude::*;
use rand::Rng;

verus! {

/// A random position below `len`, drawn with `rand::Rng::gen_range` from
/// the thread's generator. The documentation of `gen_range` promises a value
/// inside the half-open range and a panic on an empty one; which value comes
/// back is left to chance and is not stated.
#[verifier::external_body]
pub fn random_index(len: usize) -> (r: usize)
    requires
        len > 0,
    ensures
        r < len,
{
    rand::thread_rng().gen_range(0..len)
}

/// The local time in milliseconds since the Unix epoch, from
/// `chrono::Local::now` and `DateTime::timestamp_millis`. Nothing is stated
/// of the value: it is the time.
#[verifier::external_body]
pub fn now_millis() -> (r: i64) {
    chrono::Local::now().timestamp_millis()
}

} // verus!
