use vstd::prelude::*;
use rand::rngs::StdRng;
use crate::pos::Direction;
use crate::util::Percentage;

verus! {

/// The standard generator of rand, `rand::rngs::StdRng`. Nothing is known of
/// what it holds.
#[verifier::external_type_specification]
#[verifier::external_body]
pub struct ExStdRng(rand::rngs::StdRng);

/// Calls `SeedableRng::seed_from_u64` of rand for its standard generator.
/// Nothing is claimed of the generator that comes back.
#[verifier::external_body]
fn generator(seed: u64) -> StdRng {
    rand::SeedableRng::seed_from_u64(seed)
}

/// Calls `Rng::gen_range` of rand on an inclusive range of `i64`. rand refuses
/// an empty range, so `lo <= hi` is asked for; what comes back lies in the
/// range, and that is all the contract claims.
#[verifier::external_body]
fn sample_range(rng: &mut StdRng, lo: i64, hi: i64) -> (r: i64)
    requires
        lo <= hi,
    ensures
        lo <= r <= hi,
{
    rand::Rng::gen_range(rng, lo..=hi)
}

/// Calls `Rng::gen` of rand for a `bool`. Nothing is claimed of the result.
#[verifier::external_body]
fn sample_bool(rng: &mut StdRng) -> bool {
    rand::Rng::gen::<bool>(rng)
}

/// Calls `SliceRandom::shuffle` of rand, which swaps items of the slice and
/// so keeps what it holds: the contract claims that and nothing of the order.
#[verifier::external_body]
fn shuffle_directions(rng: &mut StdRng, dirs: &mut Vec<Direction>)
    ensures
        final(dirs)@.to_multiset() == old(dirs)@.to_multiset(),
{
    rand::seq::SliceRandom::shuffle(dirs.as_mut_slice(), rng)
}

/// The source of every random decision of the simulation. Two dice made
/// from one seed and asked the same questions give the same answers, but
/// no contract says which.
#[derive(Debug)]
pub struct Dice {
    rng: StdRng,
}

impl Dice {
    pub fn seeded(seed: u64) -> Dice {
        Dice { rng: generator(seed) }
    }

    /// A number from `lo` to `hi`, both included.
    pub fn roll(&mut self, lo: i64, hi: i64) -> (r: i64)
        requires
            lo <= hi,
        ensures
            lo <= r <= hi,
    {
        sample_range(&mut self.rng, lo, hi)
    }

    /// One of two outcomes.
    pub fn coin(&mut self) -> bool {
        sample_bool(&mut self.rng)
    }

    /// A place in a list of `n` items.
    pub fn index(&mut self, n: usize) -> (r: usize)
        requires
            0 < n,
        ensures
            r < n,
    {
        let last: u64 = (n - 1) as u64;
        let top: i64 = if last > 0x7fff_ffff_ffff_ffff {
            0x7fff_ffff_ffff_ffff
        } else {
            last as i64
        };
        let r = sample_range(&mut self.rng, 0, top);
        r as usize
    }

    /// Decides something that should happen `percent` times in a hundred;
    /// never at 0 and always at 100.
    pub fn chance(&mut self, percent: Percentage) -> (r: bool)
        ensures
            percent.0 <= 0 ==> !r,
            percent.0 >= 100 ==> r,
    {
        let r = sample_range(&mut self.rng, 0, 99);
        r < percent.0
    }

    /// Puts the directions in a random order.
    pub fn shuffle(&mut self, dirs: &mut Vec<Direction>)
        ensures
            final(dirs)@.to_multiset() == old(dirs)@.to_multiset(),
    {
        shuffle_directions(&mut self.rng, dirs)
    }
}

} // verus!
