//! Stochastic perturbation of single candidates, and the reference
//! operator: rate-conditioned mutation.
//!
//! The reference operator applies the candidate's own mutation capability
//! conditioned on one Bernoulli trial per call, with probability
//! `rate_num / rate_den`. Its `strength` field is wired through to the
//! candidate as the half-width of the perturbation interval.

use vstd::prelude::*;

use crate::individual::{Individual, MAX_HALF_RANGE};
use crate::random::RandomSource;

verus! {

/// A perturber of single candidates, driven by an explicitly passed source.
pub trait MutationOperator<R: RandomSource, I: Individual<R>>: Sized + Send + Sync {
    /// The perturbed candidate view and the source state one operator
    /// application leaves behind.
    spec fn mutate_of(&self, v: I::V, r: R) -> (I::V, R);

    /// The outcome bound one operator application respects whatever the
    /// source returned. Unlike `mutate_of`, this binds `mutate` even for
    /// sources without a spec-level model.
    spec fn mutate_within(&self, pre: I::V, post: I::V) -> bool;

    /// Perturb `individual` in place, drawing only from `rng`.
    fn mutate(&self, individual: &mut I, rng: &mut R)
        ensures
            self.mutate_within(old(individual)@, final(individual)@),
            R::obeys_model() ==> (final(individual)@, *final(rng)) == self.mutate_of(
                old(individual)@,
                *old(rng),
            ),
    ;
}

/// The reference mutation operator: one Bernoulli trial with probability
/// `rate_num / rate_den` per call; on success the candidate perturbs one
/// uniformly chosen gene by a uniform draw from `[-strength, strength]`.
#[derive(Clone, Copy, Debug)]
pub struct GaussianMutation {
    rate_num: u64,
    rate_den: u64,
    strength: u64,
}

impl GaussianMutation {
    #[verifier::type_invariant]
    spec fn wf(self) -> bool {
        1 <= self.rate_den && self.rate_num <= self.rate_den && self.strength <= MAX_HALF_RANGE
    }

    /// The mutation probability, as the exact rational `rate_num / rate_den`.
    pub closed spec fn spec_rate_num(&self) -> u64 {
        self.rate_num
    }

    /// The denominator of the mutation probability.
    pub closed spec fn spec_rate_den(&self) -> u64 {
        self.rate_den
    }

    /// The half-width of the perturbation interval handed to the candidate.
    pub closed spec fn spec_strength(&self) -> u64 {
        self.strength
    }

    /// An operator mutating with probability `rate_num / rate_den` and
    /// perturbation half-width `strength`.
    pub fn new(rate_num: u64, rate_den: u64, strength: u64) -> (r: GaussianMutation)
        requires
            1 <= rate_den,
            rate_num <= rate_den,
            strength <= MAX_HALF_RANGE,
        ensures
            r.spec_rate_num() == rate_num,
            r.spec_rate_den() == rate_den,
            r.spec_strength() == strength,
    {
        GaussianMutation { rate_num, rate_den, strength }
    }
}

impl<R: RandomSource, I: Individual<R>> MutationOperator<R, I> for GaussianMutation {
    open spec fn mutate_of(&self, v: I::V, r: R) -> (I::V, R) {
        let d = r.draw(self.spec_rate_den());
        let r1 = r.next(self.spec_rate_den());
        if d < self.spec_rate_num() {
            I::mutate_of(v, r1, self.spec_strength())
        } else {
            (v, r1)
        }
    }

    open spec fn mutate_within(&self, pre: I::V, post: I::V) -> bool {
        post == pre || I::mutate_within(pre, post, self.spec_strength())
    }

    fn mutate(&self, individual: &mut I, rng: &mut R) {
        proof {
            use_type_invariant(self);
        }
        let d = rng.next_below(self.rate_den);
        if d < self.rate_num {
            individual.mutate(rng, self.strength);
        }
    }
}

/// One operator application performs exactly one Bernoulli trial: the
/// candidate is perturbed — by its own mutation capability, at the
/// operator's strength — exactly when the rate draw falls below `rate_num`
/// out of `rate_den` outcomes, and is left unchanged otherwise. Either way
/// the source advances by that one draw first.
pub proof fn lemma_bernoulli_trial<R: RandomSource, I: Individual<R>>(
    m: GaussianMutation,
    v: I::V,
    r: R,
)
    ensures
        MutationOperator::<R, I>::mutate_of(&m, v, r) == ({
            let d = r.draw(m.spec_rate_den());
            let r1 = r.next(m.spec_rate_den());
            if d < m.spec_rate_num() {
                I::mutate_of(v, r1, m.spec_strength())
            } else {
                (v, r1)
            }
        }),
{
}

} // verus!
