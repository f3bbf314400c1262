//! Random values from the rand crate, behind trusted declarations.

use vstd::prelude::*;
use rand::Rng;
use rand::seq::IteratorRandom;

verus! {

/// The thread-local random number generator of the rand crate, opaque
/// to the verifier.
#[verifier::external_type_specification]
#[verifier::external_body]
pub struct ExThreadRng(rand::rngs::ThreadRng);

/// Relies on rand::thread_rng: a handle to the thread-local
/// cryptographically secure generator.
#[verifier::external_body]
pub(crate) fn new_rng() -> rand::rngs::ThreadRng {
    rand::thread_rng()
}

/// Relies on rand::Rng::gen_range over 0..=255: one byte drawn
/// uniformly at random. Nothing is promised of the value.
#[verifier::external_body]
pub(crate) fn random_byte(rng: &mut rand::rngs::ThreadRng) -> u8 {
    rng.gen_range(0..=255)
}

/// Relies on rand's IteratorRandom::choose_multiple over the range
/// 1..=255: it returns exactly `amount` elements whenever the range
/// holds at least that many, sampled at distinct positions of the
/// range, so the returned bytes are pairwise distinct and, since the
/// range starts at 1, all nonzero.
#[verifier::external_body]
pub(crate) fn choose_distinct_nonzero(rng: &mut rand::rngs::ThreadRng, amount: usize) -> (r: Vec<
    u8,
>)
    requires
        amount <= 255,
    ensures
        r@.len() == amount,
        forall|i: int| 0 <= i < r@.len() ==> r@[i] != 0,
        forall|i: int, j: int| 0 <= i < j < r@.len() ==> r@[i] != r@[j],
{
    (1u8..=255u8).choose_multiple(rng, amount)
}

} // verus!
