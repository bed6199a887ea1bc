use vstd::prelude::*;

verus! {

/// rand's small, fast pseudo-random generator, which the players draw from.
#[verifier::external_type_specification]
#[verifier::external_body]
pub struct ExSmallRng(rand::rngs::SmallRng);

/// Relies on rand's `Rng::gen_range` over `0..n`: the draw lies in that
/// range, so it is strictly below `n`.  Nothing is assumed about the
/// distribution, and two draws from equal states may differ.
#[verifier::external_body]
pub(crate) fn rand_below(rng: &mut rand::rngs::SmallRng, n: usize) -> (r: usize)
    requires
        n >= 1,
    ensures
        r < n,
{
    rand::Rng::gen_range(rng, 0..n)
}

} // verus!
