//! The deterministic per-tick spawn draw. A fresh generator is seeded for
//! every tick from `session seed XOR tick`, so any client can reconstruct the
//! draw for any historical tick from the session seed alone.

use vstd::prelude::*;
use rand::Rng;
use rand::SeedableRng;

verus! {

/// The coordinate drawn from a generator freshly seeded with `seed`, uniform
/// over `[lo, hi)`: a fixed function of the arguments, identical on every
/// client and every machine.
pub uninterp spec fn spawn_coord(seed: u64, lo: i64, hi: i64) -> i64;

/// Relies on `rand_chacha::ChaCha8Rng::seed_from_u64` and
/// `rand::Rng::gen_range`: ChaCha seeded from a `u64` is a portable, purely
/// deterministic stream, and `gen_range(lo..hi)` draws from that stream a
/// value in `[lo, hi)` (it panics on an empty range, hence the requires), so
/// the result depends on the arguments alone.
#[verifier::external_body]
pub(crate) fn draw_spawn_coord(seed: u64, lo: i64, hi: i64) -> (r: i64)
    requires
        lo < hi,
    ensures
        r == spawn_coord(seed, lo, hi),
        lo <= r < hi,
{
    let mut rng = rand_chacha::ChaCha8Rng::seed_from_u64(seed);
    rng.gen_range(lo..hi)
}

} // verus!
