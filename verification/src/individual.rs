//! The candidate-solution capability contract, and a reference candidate.
//!
//! A candidate is opaque to the engine: it produces a fitness score,
//! recombines with another candidate into two children, and perturbs itself
//! in place. Each capability is pinned, at the specification level, to a
//! function of the candidate's view, which is what lets whole evolution runs
//! be described — and proved deterministic — without knowing the concrete
//! candidate type.

use vstd::prelude::*;

use crate::fitness::Fitness;
use crate::random::RandomSource;

verus! {

/// The largest half-width of a symmetric integer interval `[-s, s]` whose
/// point count `2 * s + 1` still fits in a `u64` draw bound.
pub const MAX_HALF_RANGE: u64 = 0x7FFF_FFFF_FFFF_FFFF;

/// A candidate that produces a fitness score: the score is pure — same
/// state, same score, no side effects — and higher is better.
pub trait Scored: Sized + Send + Sync + View {
    /// The fitness score of a candidate with view `v`.
    spec fn fitness_of(v: Self::V) -> Fitness;

    /// Score this candidate.
    fn fitness(&self) -> (f: Fitness)
        ensures
            f == Self::fitness_of(self@),
    ;
}

/// A candidate solution.
///
/// The spec functions are the mathematical model of the capabilities,
/// stated over candidate views so that they can be composed across
/// generations. `fitness` and `crossover` are pure; `mutate` draws from the
/// passed source, and is pinned to its model exactly when the source itself
/// is modeled.
pub trait Individual<R: RandomSource>: Scored {
    /// The two children recombination of `a` and `b` produces.
    spec fn crossover_of(a: Self::V, b: Self::V) -> (Self::V, Self::V);

    /// The perturbed candidate and the source state one mutation with
    /// half-width `strength` leaves behind.
    spec fn mutate_of(v: Self::V, r: R, strength: u64) -> (Self::V, R);

    /// The outcome bound one mutation respects whatever the source
    /// returned: each candidate type defines what a perturbation of at most
    /// `strength` means for it. Unlike `mutate_of`, this binds `mutate`
    /// even for sources without a spec-level model.
    spec fn mutate_within(pre: Self::V, post: Self::V, strength: u64) -> bool;

    /// Recombine with `other` into exactly two children; neither parent is
    /// changed.
    fn crossover(&self, other: &Self) -> (children: (Self, Self))
        ensures
            children.0@ == Self::crossover_of(self@, other@).0,
            children.1@ == Self::crossover_of(self@, other@).1,
    ;

    /// Perturb this candidate in place, drawing only from `rng`, with a
    /// magnitude of at most `strength`.
    fn mutate(&mut self, rng: &mut R, strength: u64)
        requires
            strength <= MAX_HALF_RANGE,
        ensures
            Self::mutate_within(old(self)@, final(self)@, strength),
            R::obeys_model() ==> (final(self)@, *final(rng))
                == Self::mutate_of(old(self)@, *old(rng), strength),
    ;

    /// Produce a fully independent copy of this candidate.
    fn duplicate(&self) -> (copy: Self)
        ensures
            copy@ == self@,
    ;
}

/// A supplier of fresh candidates, used to initialize a population when no
/// initial population is given. A required external collaborator of the
/// engine: it has no default.
pub trait IndividualFactory<R: RandomSource, I: Individual<R>>: Sized {
    /// The candidate one `generate` call builds, and the source state it
    /// leaves behind.
    spec fn generate_of(&self, r: R) -> (I::V, R);

    /// Build one fresh candidate, drawing only from `rng`.
    fn generate(&self, rng: &mut R) -> (ind: I)
        ensures
            R::obeys_model() ==> (ind@, *final(rng)) == self.generate_of(*old(rng)),
    ;
}

/// The views of a sequence of candidates.
pub open spec fn views_of<I: View>(s: Seq<I>) -> Seq<I::V> {
    s.map(|j: int, x: I| x@)
}

/// The views of an optional population.
pub open spec fn opt_views<I: View>(o: Option<Vec<I>>) -> Option<Seq<I::V>> {
    match o {
        Some(v) => Some(views_of(v@)),
        None => None,
    }
}

/// The fitness scores of a population, by view, slot by slot.
pub open spec fn fitness_of_all<I: Scored>(views: Seq<I::V>) -> Seq<Fitness> {
    views.map(|j: int, v: I::V| I::fitness_of(v))
}

/// The sum of a gene sequence.
pub open spec fn gene_sum(s: Seq<i64>) -> int
    decreases s.len(),
{
    if s.len() == 0 {
        0
    } else {
        gene_sum(s.drop_last()) + s.last()
    }
}

/// A gene sum is bounded by the sequence length times the gene magnitude
/// bound, so it always fits an `i128` score.
pub proof fn lemma_gene_sum_bound(s: Seq<i64>)
    ensures
        -(s.len() * 0x8000_0000_0000_0000) <= gene_sum(s) <= s.len() * 0x8000_0000_0000_0000,
    decreases s.len(),
{
    if s.len() > 0 {
        lemma_gene_sum_bound(s.drop_last());
    }
}

/// `a + delta`, clamped to the `i64` range.
pub open spec fn saturating_add_i64(a: i64, delta: int) -> i64 {
    if a + delta > i64::MAX {
        i64::MAX
    } else if a + delta < i64::MIN {
        i64::MIN
    } else {
        (a + delta) as i64
    }
}

/// The reference candidate: a vector of integer genes. Its fitness is the
/// sum of its genes; recombination splits both parents at the middle point;
/// mutation perturbs one uniformly chosen gene by a uniform draw from a
/// symmetric interval, saturating at the gene range.
#[derive(Clone, Debug)]
pub struct VecIndividual {
    pub genes: Vec<i64>,
}

impl View for VecIndividual {
    type V = Seq<i64>;

    open spec fn view(&self) -> Seq<i64> {
        self.genes@
    }
}

impl VecIndividual {
    /// A candidate holding exactly the given genes.
    pub fn from_genes(genes: Vec<i64>) -> (r: VecIndividual)
        ensures
            r@ == genes@,
    {
        VecIndividual { genes }
    }

    /// The middle split point of recombination: half the shorter parent.
    pub open spec fn split_point(a: Seq<i64>, b: Seq<i64>) -> int {
        if a.len() <= b.len() {
            a.len() as int / 2
        } else {
            b.len() as int / 2
        }
    }
}

impl Scored for VecIndividual {
    open spec fn fitness_of(v: Seq<i64>) -> Fitness {
        Fitness::Value(gene_sum(v) as i128)
    }

    fn fitness(&self) -> (f: Fitness) {
        let n = self.genes.len();
        let mut acc: i128 = 0;
        let mut i: usize = 0;
        while i < n
            invariant
                i <= n,
                n == self.genes@.len(),
                acc == gene_sum(self.genes@.take(i as int)),
            decreases n - i,
        {
            proof {
                assert(self.genes@.take(i as int + 1).drop_last() =~= self.genes@.take(i as int));
                assert(self.genes@.take(i as int + 1).last() == self.genes@[i as int]);
                lemma_gene_sum_bound(self.genes@.take(i as int + 1));
            }
            acc = acc + self.genes[i] as i128;
            i = i + 1;
        }
        proof {
            assert(self.genes@.take(n as int) =~= self.genes@);
        }
        Fitness::Value(acc)
    }
}

/// The crossover arity law of the reference candidate: recombining two
/// parents of equal gene length `L` yields exactly two children of length
/// `L`; the first child takes genes `0..L/2` from the first parent and
/// `L/2..L` from the second, and the second child takes the complementary
/// halves.
pub proof fn lemma_single_point_split<R: RandomSource>(a: Seq<i64>, b: Seq<i64>)
    requires
        a.len() == b.len(),
    ensures
        ({
            let mid = a.len() as int / 2;
            let children = <VecIndividual as Individual<R>>::crossover_of(a, b);
            &&& children.0.len() == a.len()
            &&& children.1.len() == a.len()
            &&& (forall|j: int|
                0 <= j < mid ==> (#[trigger] children.0[j]) == a[j] && children.1[j] == b[j])
            &&& (forall|j: int|
                mid <= j < a.len() ==> (#[trigger] children.0[j]) == b[j] && children.1[j]
                    == a[j])
        }),
{
}

impl<R: RandomSource> Individual<R> for VecIndividual {
    open spec fn crossover_of(a: Seq<i64>, b: Seq<i64>) -> (Seq<i64>, Seq<i64>) {
        let mid = VecIndividual::split_point(a, b);
        (a.take(mid) + b.skip(mid), b.take(mid) + a.skip(mid))
    }

    open spec fn mutate_of(v: Seq<i64>, r: R, strength: u64) -> (Seq<i64>, R) {
        if v.len() == 0 {
            (v, r)
        } else {
            let n = v.len() as u64;
            let k = r.draw(n);
            let r1 = r.next(n);
            let m = (2 * strength + 1) as u64;
            let d = r1.draw(m);
            let r2 = r1.next(m);
            let delta = d as int - strength as int;
            (v.update(k as int, saturating_add_i64(v[k as int], delta)), r2)
        }
    }

    open spec fn mutate_within(pre: Seq<i64>, post: Seq<i64>, strength: u64) -> bool {
        post.len() == pre.len() && (post == pre || (exists|k: int, delta: int|
            0 <= k < pre.len() && -(strength as int) <= delta <= strength as int && post == (
            #[trigger] pre.update(k, saturating_add_i64(pre[k], delta)))))
    }

    fn crossover(&self, other: &Self) -> (children: (Self, Self)) {
        let a_len = self.genes.len();
        let b_len = other.genes.len();
        let mid = if a_len <= b_len { a_len / 2 } else { b_len / 2 };
        let mut c1: Vec<i64> = Vec::new();
        let mut c2: Vec<i64> = Vec::new();
        let mut j: usize = 0;
        while j < mid
            invariant
                j <= mid,
                mid <= self.genes@.len(),
                mid <= other.genes@.len(),
                c1@ == self.genes@.take(j as int),
                c2@ == other.genes@.take(j as int),
            decreases mid - j,
        {
            proof {
                assert(self.genes@.take(j as int + 1) =~= self.genes@.take(j as int).push(
                    self.genes@[j as int],
                ));
                assert(other.genes@.take(j as int + 1) =~= other.genes@.take(j as int).push(
                    other.genes@[j as int],
                ));
            }
            c1.push(self.genes[j]);
            c2.push(other.genes[j]);
            j = j + 1;
        }
        let mut j: usize = mid;
        while j < b_len
            invariant
                mid <= j <= b_len,
                b_len == other.genes@.len(),
                mid <= self.genes@.len(),
                c1@ == self.genes@.take(mid as int) + other.genes@.subrange(mid as int, j as int),
            decreases b_len - j,
        {
            proof {
                assert(other.genes@.subrange(mid as int, j as int + 1) =~= other.genes@.subrange(
                    mid as int,
                    j as int,
                ).push(other.genes@[j as int]));
            }
            c1.push(other.genes[j]);
            j = j + 1;
        }
        let mut j: usize = mid;
        while j < a_len
            invariant
                mid <= j <= a_len,
                a_len == self.genes@.len(),
                mid <= other.genes@.len(),
                c2@ == other.genes@.take(mid as int) + self.genes@.subrange(mid as int, j as int),
            decreases a_len - j,
        {
            proof {
                assert(self.genes@.subrange(mid as int, j as int + 1) =~= self.genes@.subrange(
                    mid as int,
                    j as int,
                ).push(self.genes@[j as int]));
            }
            c2.push(self.genes[j]);
            j = j + 1;
        }
        proof {
            assert(other.genes@.subrange(mid as int, b_len as int) =~= other.genes@.skip(
                mid as int,
            ));
            assert(self.genes@.subrange(mid as int, a_len as int) =~= self.genes@.skip(mid as int));
        }
        (VecIndividual { genes: c1 }, VecIndividual { genes: c2 })
    }

    fn mutate(&mut self, rng: &mut R, strength: u64) {
        let n = self.genes.len();
        if n == 0 {
            return ;
        }
        let k = rng.next_below(n as u64);
        let m = 2 * strength + 1;
        let d = rng.next_below(m);
        let delta: i64 = if d >= strength {
            (d - strength) as i64
        } else {
            -((strength - d) as i64)
        };
        let idx = k as usize;
        let g = self.genes[idx];
        let sum: i128 = g as i128 + delta as i128;
        let updated: i64 = if sum > i64::MAX as i128 {
            i64::MAX
        } else if sum < i64::MIN as i128 {
            i64::MIN
        } else {
            sum as i64
        };
        self.genes[idx] = updated;
        proof {
            let pre = old(self).genes@;
            let dd = d as int - strength as int;
            assert(delta as int == dd);
            assert(updated == saturating_add_i64(pre[k as int], dd));
            assert(self.genes@ == pre.update(k as int, saturating_add_i64(pre[k as int], dd)));
        }
    }

    fn duplicate(&self) -> (copy: Self) {
        let n = self.genes.len();
        let mut genes: Vec<i64> = Vec::new();
        let mut i: usize = 0;
        while i < n
            invariant
                i <= n,
                n == self.genes@.len(),
                genes@ == self.genes@.take(i as int),
            decreases n - i,
        {
            proof {
                assert(self.genes@.take(i as int + 1) =~= self.genes@.take(i as int).push(
                    self.genes@[i as int],
                ));
            }
            genes.push(self.genes[i]);
            i = i + 1;
        }
        proof {
            assert(self.genes@.take(n as int) =~= self.genes@);
        }
        VecIndividual { genes }
    }
}

} // verus!
