//! Random sources.
//!
//! All randomness used by the engine and its operators flows through an
//! explicitly passed [`RandomSource`]: no operator reaches for an ambient
//! global generator, so a run is reproducible from its seed and thread-safe
//! reasoning stays local.
//!
//! A source may additionally expose a deterministic model of itself
//! ([`RandomSource::obeys_model`]): its draws are then pinned, in
//! specifications, to spec-level functions of its state, which is what makes
//! whole runs of the engine provably deterministic. [`Xorshift`] is such a
//! fully modeled source; [`StdRandom`] draws from the `rand` crate's standard
//! generator and promises only that each draw lies below its bound.

use vstd::prelude::*;

verus! {

/// A supplier of range-bounded uniform randomness.
///
/// `draw` and `next` form a spec-level model of the source: the value the
/// next call would return and the state it would leave behind. The model is
/// binding only for sources whose `obeys_model()` is true; for the others the
/// contract of `next_below` promises just the range bound.
pub trait RandomSource: Sized {
    /// True when `next_below` is pinned to `draw`/`next`, so that every
    /// computation driven by this source is a function of its state.
    spec fn obeys_model() -> bool;

    /// The value the next `next_below(n)` call returns.
    spec fn draw(&self, n: u64) -> u64;

    /// The state the source holds after one `next_below(n)` call.
    spec fn next(&self, n: u64) -> Self;

    /// The modeled draw respects its bound.
    proof fn draw_in_range(&self, n: u64)
        requires
            1 <= n,
        ensures
            self.draw(n) < n,
    ;

    /// Draw a value uniformly below `n`.
    fn next_below(&mut self, n: u64) -> (r: u64)
        requires
            1 <= n,
        ensures
            r < n,
            Self::obeys_model() ==> r == old(self).draw(n) && *final(self) == old(self).next(n),
    ;
}

/// One step of the 64-bit xorshift permutation.
pub open spec fn xorshift_step(x: u64) -> u64 {
    let a = x ^ (x << 13u64);
    let b = a ^ (a >> 7u64);
    b ^ (b << 17u64)
}

/// A small, fully modeled xorshift generator. Its whole state is one word,
/// so two sources built from the same seed are equal and every run driven by
/// them is provably identical.
#[derive(Clone, Copy, Debug, PartialEq, Eq, Structural)]
pub struct Xorshift {
    pub state: u64,
}

/// The state a zero seed is mapped to: xorshift fixes the all-zero word, so
/// it would otherwise only ever draw zero.
pub const ZERO_SEED_SUBSTITUTE: u64 = 0x9E3779B97F4A7C15;

impl Xorshift {
    /// Build a source from a seed; a zero seed is mapped to a fixed non-zero
    /// word, as the all-zero state never leaves itself.
    pub fn new(seed: u64) -> (r: Xorshift)
        ensures
            r.state == (if seed == 0 { ZERO_SEED_SUBSTITUTE } else { seed }),
    {
        if seed == 0 {
            Xorshift { state: ZERO_SEED_SUBSTITUTE }
        } else {
            Xorshift { state: seed }
        }
    }
}

impl RandomSource for Xorshift {
    open spec fn obeys_model() -> bool {
        true
    }

    open spec fn draw(&self, n: u64) -> u64 {
        (xorshift_step(self.state) % n) as u64
    }

    open spec fn next(&self, n: u64) -> Xorshift {
        Xorshift { state: xorshift_step(self.state) }
    }

    proof fn draw_in_range(&self, n: u64) {
    }

    fn next_below(&mut self, n: u64) -> (r: u64) {
        let x = self.state;
        let a = x ^ (x << 13u64);
        let b = a ^ (a >> 7u64);
        let stepped = b ^ (b << 17u64);
        self.state = stepped;
        stepped % n
    }
}

/// Relies on rand's `StdRng`: the crate's standard pseudo-random generator,
/// carried here as an opaque value.
#[verifier::external_type_specification]
#[verifier::external_body]
pub struct ExStdRng(rand::rngs::StdRng);

/// Relies on rand's `SeedableRng::seed_from_u64` for `StdRng`: it builds a
/// generator from any `u64` seed and does not panic.
#[verifier::external_body]
fn std_rng_from_seed(seed: u64) -> (r: rand::rngs::StdRng) {
    <rand::rngs::StdRng as rand::SeedableRng>::seed_from_u64(seed)
}

/// Relies on rand's `Rng::gen_range` over the range `0..n`: for a non-empty
/// range it returns a sample inside the range, so the result is below `n`.
#[verifier::external_body]
fn std_rng_below(rng: &mut rand::rngs::StdRng, n: u64) -> (r: u64)
    requires
        1 <= n,
    ensures
        r < n,
{
    rand::Rng::gen_range(rng, 0..n)
}

/// A source drawing from the `rand` crate's standard generator. It is seeded
/// explicitly, never ambient, but its draws are opaque: only the range bound
/// of `next_below` is promised, not a spec-level model.
pub struct StdRandom {
    inner: rand::rngs::StdRng,
}

impl StdRandom {
    /// Build a source from a seed.
    pub fn from_seed(seed: u64) -> (r: StdRandom) {
        StdRandom { inner: std_rng_from_seed(seed) }
    }
}

impl RandomSource for StdRandom {
    open spec fn obeys_model() -> bool {
        false
    }

    open spec fn draw(&self, n: u64) -> u64 {
        0
    }

    open spec fn next(&self, n: u64) -> StdRandom {
        *self
    }

    proof fn draw_in_range(&self, n: u64) {
    }

    fn next_below(&mut self, n: u64) -> (r: u64) {
        std_rng_below(&mut self.inner, n)
    }
}

} // verus!
