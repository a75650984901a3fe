//! The pseudo-random generator that draws Zobrist keys and candidate magic
//! numbers: the xorshift generator of `rand_xorshift`.

use vstd::prelude::*;
use rand_core::{Rng, SeedableRng};
use rand_xorshift::XorShiftRng;

verus! {

/// The xorshift generator; its state is hidden.
#[verifier::external_type_specification]
#[verifier::external_body]
pub struct ExXorShiftRng(XorShiftRng);

/// The values the generator `rng` will draw, in order: its `i`-th next draw
/// at key `i`. The generator's output is a function of its state alone.
pub uninterp spec fn draws(rng: XorShiftRng) -> Map<nat, u64>;

/// The values the generator seeded with `seed` draws, in order: its `i`-th
/// draw at key `i`.
pub uninterp spec fn seeded_draws(seed: u64) -> Map<nat, u64>;

/// Calls `SeedableRng::seed_from_u64` of `XorShiftRng`: a generator whose
/// draws are those of the generator seeded with `seed`.
#[verifier::external_body]
pub(crate) fn seeded_rng(seed: u64) -> (r: XorShiftRng)
    ensures
        forall|i: nat| #[trigger] draws(r)[i] == seeded_draws(seed)[i],
{
    XorShiftRng::seed_from_u64(seed)
}

/// Calls `Rng::next_u64` of `XorShiftRng`: the generator's next draw; what
/// it draws afterwards are the draws that were to follow.
#[verifier::external_body]
pub(crate) fn get_random_u64(rng: &mut XorShiftRng) -> (r: u64)
    ensures
        r == draws(*old(rng))[0],
        forall|i: nat| #[trigger] draws(*final(rng))[i] == draws(*old(rng))[i + 1],
{
    rng.next_u64()
}

} // verus!
