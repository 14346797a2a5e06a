//! The process-wide random source that seeds the automaton.

use rand::Rng;
use vstd::prelude::*;

verus! {

/// `rand::rngs::ThreadRng`, the handle to the generator that `rand` keeps for
/// each thread and seeds from the operating system. Nothing inside it is
/// visible to the verifier.
#[verifier::external_type_specification]
#[verifier::external_body]
pub struct ExThreadRng(rand::rngs::ThreadRng);

/// `rand::thread_rng` hands out the calling thread's generator. Nothing is
/// claimed of the handle. The first call on a thread sets the generator up;
/// it panics if the operating system yields no entropy for the seed or
/// refuses the fork handler that `rand` registers.
pub assume_specification[ rand::thread_rng ]() -> (rng: rand::rngs::ThreadRng);

/// Draws one boolean with `Rng::gen`, which takes the top bit of the
/// generator's next 32-bit word. Nothing is claimed of the outcome: callers
/// are verified for both values. The generator reseeds itself after every
/// 64 KiB of output and after a fork, and a draw panics if the operating
/// system yields no entropy at that moment.
#[verifier::external_body]
pub(crate) fn draw(rng: &mut rand::rngs::ThreadRng) -> (bit: bool) {
    rng.gen()
}

} // verus!
