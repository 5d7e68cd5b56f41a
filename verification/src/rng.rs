//! The random source. Draws come from a ChaCha20 generator of the
//! `rand_chacha` crate; nothing is proved of that generator, so what this
//! module states of it is believed, not checked.

use rand::Rng;
use rand::SeedableRng;
use rand_chacha::ChaCha20Rng;
use vstd::prelude::*;

verus! {

/// Declares `ChaCha20Rng` of `rand_chacha` as a type whose inside does not
/// show: a generator is handed on and drawn from, never looked into.
#[verifier::external_type_specification]
#[verifier::external_body]
pub struct ExChaCha20Rng(ChaCha20Rng);

/// The generator that every draw of a grammar comes from.
pub type LRng = ChaCha20Rng;

/// The generator that a seed determines: what `SeedableRng::seed_from_u64`
/// of `rand_core` builds for `ChaCha20Rng`. It fills the key from the seed by
/// a fixed recurrence and starts the stream at its beginning, so the same
/// seed gives the same generator wherever it is built.
pub uninterp spec fn seeded_source(seed: u64) -> ChaCha20Rng;

/// Calls `SeedableRng::seed_from_u64` of `rand_core` for `ChaCha20Rng`. The
/// generator that comes back depends on the seed alone; that is all that is
/// claimed of it.
#[verifier::external_body]
pub(crate) fn seeded(seed: u64) -> (rng: ChaCha20Rng)
    ensures
        rng == seeded_source(seed),
{
    ChaCha20Rng::seed_from_u64(seed)
}

/// Calls `Rng::gen_range` of `rand` on the half-open range `low..high` of
/// `i64`. The call panics on an empty range, which `requires` leaves out; of
/// the value drawn only this is claimed, that it lies in the range.
#[verifier::external_body]
pub(crate) fn draw_between(rng: &mut ChaCha20Rng, low: i64, high: i64) -> (drawn: i64)
    requires
        low < high,
    ensures
        low <= drawn < high,
{
    rng.gen_range(low..high)
}

/// Draws a position in a list of `count` entries, each with equal chance.
pub fn draw_index(rng: &mut ChaCha20Rng, count: usize) -> (index: usize)
    requires
        count > 0,
    ensures
        index < count,
{
    let wide: u64 = count as u64;
    let bound: i64 = if wide <= 0x7fff_ffff_ffff_ffffu64 {
        wide as i64
    } else {
        i64::MAX
    };
    draw_between(rng, 0, bound) as usize
}

} // verus!
