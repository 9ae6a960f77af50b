//! The random source: a ChaCha20 generator that the caller creates and
//! hands in, so that a run can be repeated from a seed.

use rand::Rng;
use rand_chacha::ChaCha20Rng;
use vstd::prelude::*;

verus! {

/// `rand_chacha::ChaCha20Rng`: the state of the generator, of which
/// nothing is known.
#[verifier::external_type_specification]
#[verifier::external_body]
pub struct ExChaCha20Rng(ChaCha20Rng);

/// `rand::Rng::gen_range` on the range `0..bound`: some index below
/// `bound`.  Nothing more is known of the draw.  The range must not be
/// empty, or `gen_range` panics.
#[verifier::external_body]
pub(crate) fn random_index(rng: &mut ChaCha20Rng, bound: usize) -> (r: usize)
    requires
        bound > 0,
    ensures
        r < bound,
{
    rng.gen_range(0..bound)
}

} // verus!
