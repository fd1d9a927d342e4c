//! The random source behind fresh user ids and generated names.
//!
//! Nothing here is proved: each item states what the `rand` crate promises of
//! one of its functions, and the rest of the library is verified against that.

use rand::distributions::Alphanumeric;
use rand::distributions::DistString;
use rand::Rng;
use rand::rngs::ThreadRng;
use vstd::prelude::*;

verus! {

/// `rand::rngs::ThreadRng`, the handle on the thread-local generator. Its state
/// is hidden: a value is only carried from `thread_rng` to the draws.
#[verifier::external_type_specification]
#[verifier::external_body]
pub struct ExThreadRng(ThreadRng);

/// `rand::thread_rng` hands out the calling thread's generator. Nothing is
/// claimed of it.
pub assume_specification[ rand::thread_rng ]() -> (rng: ThreadRng)
;

/// `Rng::gen_range` on the half-open range `0..bound`: the value drawn lies in
/// the range. The range must not be empty, so `bound` is positive. Which value
/// comes out is left open.
#[verifier::external_body]
pub(crate) fn draw_below(rng: &mut ThreadRng, bound: u128) -> (value: u128)
    requires
        bound > 0,
    ensures
        value < bound,
{
    rng.gen_range(0..bound)
}

/// Whether `c` is an ASCII letter or digit.
pub open spec fn is_alphanumeric(c: char) -> bool {
    ('0' <= c && c <= '9') || ('a' <= c && c <= 'z') || ('A' <= c && c <= 'Z')
}

/// `DistString::sample_string` of the `Alphanumeric` distribution: a string of
/// exactly `len` characters, each an ASCII letter or digit. Which ones is left
/// open.
#[verifier::external_body]
pub(crate) fn draw_name(rng: &mut ThreadRng, len: usize) -> (name: String)
    ensures
        name@.len() == len,
        forall|i: int| 0 <= i < name@.len() ==> is_alphanumeric(#[trigger] name@[i]),
{
    Alphanumeric.sample_string(rng, len)
}

} // verus!
