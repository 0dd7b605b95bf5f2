//! Trusted boundary to the random-number crates.
//!
//! Every random draw the generators make goes through one of the wrappers
//! below, so reproducibility is a function of the seeder handed in and of
//! nothing else.  Nothing is assumed of the values drawn beyond their range.

use vstd::prelude::*;
use rand::Rng;
use rand::seq::SliceRandom;

verus! {

#[verifier::external_type_specification]
#[verifier::external_body]
pub struct ExSeeder(rand_seeder::Seeder);

#[verifier::external_type_specification]
#[verifier::external_body]
pub struct ExLcg128Xsl64(rand_pcg::Lcg128Xsl64);

#[verifier::external_type_specification]
#[verifier::external_body]
pub struct ExMcg128Xsl64(rand_pcg::Mcg128Xsl64);

/// Relies on `rand_seeder::Seeder::from`, which hashes the string into fresh
/// seeder state.
#[verifier::external_body]
pub(crate) fn seeder_from_str(seed: &str) -> rand_seeder::Seeder {
    rand_seeder::Seeder::from(seed)
}

/// Relies on `rand_seeder::Seeder::make_seed`, which fills the bytes from the
/// seeder's internal generator and advances it.
#[verifier::external_body]
pub(crate) fn seeder_make_seed4(seeder: &mut rand_seeder::Seeder) -> [u8; 4] {
    seeder.make_seed()
}

/// Relies on `rand_seeder::Seeder::make_seed`, as `seeder_make_seed4`.
#[verifier::external_body]
pub(crate) fn seeder_make_seed8(seeder: &mut rand_seeder::Seeder) -> [u8; 8] {
    seeder.make_seed()
}

/// Relies on `rand::Rng::gen_range` over `0..n`: the result lies in the range,
/// and the call panics only on an empty range, which the precondition rules
/// out.
#[verifier::external_body]
pub(crate) fn rng_below(rng: &mut rand_pcg::Pcg64, n: usize) -> (r: usize)
    requires
        n >= 1,
    ensures
        r < n,
{
    rng.gen_range(0..n)
}

/// Relies on `rand::Rng::gen_range`, as `rng_below`.
#[verifier::external_body]
pub(crate) fn rng_below_mcg(rng: &mut rand_pcg::Pcg64Mcg, n: usize) -> (r: usize)
    requires
        n >= 1,
    ensures
        r < n,
{
    rng.gen_range(0..n)
}

/// Relies on `rand::seq::SliceRandom::shuffle`, which permutes the slice in
/// place by element swaps, so the length and the multiset of elements are
/// kept.
#[verifier::external_body]
pub(crate) fn shuffle_indices(rng: &mut rand_pcg::Pcg64, values: &mut Vec<usize>)
    ensures
        final(values)@.len() == old(values)@.len(),
        final(values)@.to_multiset() == old(values)@.to_multiset(),
{
    values.shuffle(rng)
}

} // verus!
