//! A reference individual factory: fresh candidates with uniformly drawn
//! genes.

use vstd::prelude::*;

use crate::individual::{IndividualFactory, VecIndividual, MAX_HALF_RANGE};
use crate::random::RandomSource;

verus! {

/// The gene sequence `count` uniform draws from `[-amplitude, amplitude]`
/// produce, and the source state they leave behind.
pub open spec fn uniform_genes<R: RandomSource>(count: nat, amplitude: u64, r: R) -> (Seq<i64>, R)
    decreases count,
{
    if count == 0 {
        (Seq::empty(), r)
    } else {
        let m = (2 * amplitude + 1) as u64;
        let d = r.draw(m);
        let g = (d as int - amplitude as int) as i64;
        let rest = uniform_genes((count - 1) as nat, amplitude, r.next(m));
        (seq![g] + rest.0, rest.1)
    }
}

/// A factory building [`VecIndividual`] candidates of `gene_count` genes,
/// each drawn uniformly from `[-amplitude, amplitude]`.
#[derive(Clone, Copy, Debug)]
pub struct UniformFactory {
    gene_count: usize,
    amplitude: u64,
}

impl UniformFactory {
    #[verifier::type_invariant]
    spec fn wf(self) -> bool {
        self.amplitude <= MAX_HALF_RANGE
    }

    /// The number of genes of each produced candidate.
    pub closed spec fn spec_gene_count(&self) -> usize {
        self.gene_count
    }

    /// The half-width of the gene interval.
    pub closed spec fn spec_amplitude(&self) -> u64 {
        self.amplitude
    }

    /// A factory for candidates of `gene_count` genes drawn uniformly from
    /// `[-amplitude, amplitude]`.
    pub fn new(gene_count: usize, amplitude: u64) -> (r: UniformFactory)
        requires
            amplitude <= MAX_HALF_RANGE,
        ensures
            r.spec_gene_count() == gene_count,
            r.spec_amplitude() == amplitude,
    {
        UniformFactory { gene_count, amplitude }
    }
}

impl<R: RandomSource> IndividualFactory<R, VecIndividual> for UniformFactory {
    open spec fn generate_of(&self, r: R) -> (Seq<i64>, R) {
        uniform_genes(self.spec_gene_count() as nat, self.spec_amplitude(), r)
    }

    #[verifier::loop_isolation(false)]
    fn generate(&self, rng: &mut R) -> (ind: VecIndividual) {
        proof {
            use_type_invariant(self);
        }
        let ghost r0 = *rng;
        let count = self.gene_count;
        let amplitude = self.amplitude;
        let m = 2 * amplitude + 1;
        let mut genes: Vec<i64> = Vec::new();
        let mut j: usize = 0;
        while j < count
            invariant
                j <= count,
                genes@.len() == j,
                R::obeys_model() ==> {
                    let full = uniform_genes(count as nat, amplitude, r0);
                    let rem = uniform_genes((count - j) as nat, amplitude, *rng);
                    full.0 == genes@ + rem.0 && full.1 == rem.1
                },
            decreases count - j,
        {
            let ghost r_before = *rng;
            let d = rng.next_below(m);
            let g: i64 = if d >= amplitude {
                (d - amplitude) as i64
            } else {
                -((amplitude - d) as i64)
            };
            genes.push(g);
            proof {
                if R::obeys_model() {
                    let rem_before = uniform_genes((count - j) as nat, amplitude, r_before);
                    let rem_after = uniform_genes((count - j - 1) as nat, amplitude, *rng);
                    assert(g as int == d as int - amplitude as int);
                    assert(rem_before.0 == seq![g] + rem_after.0);
                    assert(genes@ =~= genes@.drop_last() + seq![g]);
                    assert(genes@.drop_last() + (seq![g] + rem_after.0) =~= genes@ + rem_after.0);
                }
            }
            j = j + 1;
        }
        proof {
            if R::obeys_model() {
                assert(genes@ + uniform_genes(0nat, amplitude, *rng).0 =~= genes@);
            }
        }
        VecIndividual { genes }
    }
}

} // verus!
